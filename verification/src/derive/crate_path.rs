//! The path under which generated code finds this crate.
use vstd::prelude::*;
use vstd::string::*;

verus! {

/// How the crate that uses the macro knows this crate.
#[derive(Debug)]
pub enum CrateName {
    /// It is this crate.
    Itself,
    /// As a dependency of that name.
    Name(String),
    /// Nothing was found about it.
    Unknown,
}

/// The path of this crate in generated code.
pub open spec fn path_text(found: CrateName) -> Seq<char> {
    match found {
        CrateName::Itself => "crate"@,
        CrateName::Name(name) => "::"@ + name@,
        CrateName::Unknown => "::bevy_persistence_database"@,
    }
}

/// The path of this crate in generated code. A dependency that was not found is
/// taken to have its usual name.
pub fn get_crate_path(found: &CrateName) -> (path: String)
    ensures
        path@ == path_text(*found),
{
    match found {
        CrateName::Itself => "crate".to_owned(),
        CrateName::Name(name) => {
            let mut path: String = "::".to_owned();
            path.append(name.as_str());
            path
        },
        CrateName::Unknown => "::bevy_persistence_database".to_owned(),
    }
}

} // verus!
