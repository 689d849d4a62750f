//! What the `#[persist]` and `#[db_matrix_test]` attributes expand to, decided
//! on the shape of the annotated item.
pub mod crate_path;
pub mod db_matrix_test;
pub mod persist;

use vstd::prelude::*;

verus! {

/// Where in the annotated source a complaint is shown.
#[derive(Clone, Copy, Debug, PartialEq, Eq, Structural)]
pub enum Place {
    /// The attribute itself.
    CallSite,
    /// The argument of the attribute at that position.
    Argument(usize),
    /// The annotated item.
    Item,
    /// The parameters of the annotated function.
    Inputs,
    /// The `async` keyword of the annotated function.
    Asyncness,
}

/// A complaint about the use of an attribute.
#[derive(Debug)]
pub struct AttributeError {
    pub place: Place,
    pub message: String,
}

/// The mathematical content of an [`AttributeError`].
#[verifier::ext_equal]
pub struct Complaint {
    pub place: Place,
    pub message: Seq<char>,
}

impl View for AttributeError {
    type V = Complaint;

    open spec fn view(&self) -> Complaint {
        Complaint { place: self.place, message: self.message@ }
    }
}

impl AttributeError {
    /// A complaint with that message.
    pub fn new(place: Place, message: &str) -> (e: Self)
        ensures
            e@ == (Complaint { place, message: message@ }),
    {
        AttributeError { place, message: message.to_owned() }
    }
}

} // verus!
