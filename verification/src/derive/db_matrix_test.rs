//! `#[db_matrix_test]` attribute expansion.
use vstd::prelude::*;
use vstd::string::*;

use crate::derive::{AttributeError, Complaint, Place};

verus! {

/// A database backend that tests run against.
#[derive(Clone, Copy, Debug, PartialEq, Eq, Structural)]
pub enum Backend {
    Arango,
    Postgres,
}

impl Backend {
    /// The word that marks tests of the backend.
    pub open spec fn suffix_text(self) -> Seq<char> {
        match self {
            Backend::Arango => "db_arango"@,
            Backend::Postgres => "db_postgres"@,
        }
    }

    /// The word that marks tests of the backend.
    pub fn suffix(&self) -> (s: &'static str)
        ensures
            s@ == self.suffix_text(),
    {
        match self {
            Backend::Arango => "db_arango",
            Backend::Postgres => "db_postgres",
        }
    }
}

/// What is wrong with the use of the attribute, if anything: the first of these
/// complaints that applies.
pub open spec fn complaint(has_arguments: bool, inputs: nat, is_async: bool) -> Option<Complaint> {
    if has_arguments {
        Some(
            Complaint {
                place: Place::CallSite,
                message: "`#[db_matrix_test]` does not take arguments"@,
            },
        )
    } else if inputs > 0 {
        Some(
            Complaint {
                place: Place::Inputs,
                message: "`#[db_matrix_test]` test functions must take no arguments"@,
            },
        )
    } else if is_async {
        Some(
            Complaint {
                place: Place::Asyncness,
                message: "`#[db_matrix_test]` does not support async test functions"@,
            },
        )
    } else {
        None
    }
}

/// Checks the use of the attribute.
pub fn check_test_fn(has_arguments: bool, inputs: usize, is_async: bool) -> (r: Result<
    (),
    AttributeError,
>)
    ensures
        match r {
            Ok(()) => complaint(has_arguments, inputs as nat, is_async) is None,
            Err(e) => complaint(has_arguments, inputs as nat, is_async) == Some(e@),
        },
{
    if has_arguments {
        return Err(
            AttributeError::new(Place::CallSite, "`#[db_matrix_test]` does not take arguments"),
        );
    }
    if inputs > 0 {
        return Err(
            AttributeError::new(
                Place::Inputs,
                "`#[db_matrix_test]` test functions must take no arguments",
            ),
        );
    }
    if is_async {
        return Err(
            AttributeError::new(
                Place::Asyncness,
                "`#[db_matrix_test]` does not support async test functions",
            ),
        );
    }
    Ok(())
}

/// True for the attributes of the annotated function that the generated tests
/// keep: all but `#[test]`, which they get anyway. `word` is the attribute's
/// path where that is a single word.
pub fn keeps_attribute(word: Option<&str>) -> (b: bool)
    ensures
        b == match word {
            Some(w) => w@ != "test"@,
            None => true,
        },
{
    match word {
        Some(w) => !w.eq("test"),
        None => true,
    }
}

/// The name of the test for a backend.
pub fn backend_test_name(test: &str, backend: &Backend) -> (name: String)
    ensures
        name@ == test@ + "_"@ + backend.suffix_text(),
{
    let mut name: String = test.to_owned();
    name.append("_");
    name.append(backend.suffix());
    name
}

/// The tests that one test expands to have different names.
pub proof fn law_backend_tests_differ(test: Seq<char>)
    ensures
        test + "_"@ + Backend::Arango.suffix_text() != test + "_"@
            + Backend::Postgres.suffix_text(),
{
    reveal_strlit("db_arango");
    reveal_strlit("db_postgres");
    let arango = test + "_"@ + Backend::Arango.suffix_text();
    let postgres = test + "_"@ + Backend::Postgres.suffix_text();
    assert(arango.len() != postgres.len());
}

} // verus!
