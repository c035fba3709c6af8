//! The identity of the running program.

use vstd::prelude::*;

verus! {

/// The identity of the program acting on storage: an opaque byte
/// sequence that every boundary call carries as its first argument.
#[derive(Debug)]
pub struct Program {
    id: Vec<u8>,
}

impl View for Program {
    type V = Seq<u8>;

    closed spec fn view(&self) -> Seq<u8> {
        self.id@
    }
}

impl Program {
    /// A program identity holding exactly `id`.
    #[must_use]
    pub fn new(id: Vec<u8>) -> (p: Program)
        ensures
            p@ == id@,
    {
        Program { id }
    }

    /// The identity bytes.
    #[must_use]
    pub fn id(&self) -> (r: &Vec<u8>)
        ensures
            r@ == self@,
    {
        &self.id
    }
}

} // verus!
