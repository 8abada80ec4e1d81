//! The error report of one document: an append-only, ordered log of rendered
//! error descriptions, returned beside the book (or alone, when no book could
//! be made).

use vstd::prelude::*;

use crate::error::{error_msg, Error};

verus! {

/// The ordered diagnostic log of one document, scoped to one book id.
#[derive(Debug)]
pub struct BookReport {
    /// The id of the book this report describes.
    pub nn: u32,
    /// The rendered descriptions, in the order the errors occurred.
    pub errors: Vec<String>,
}

impl View for BookReport {
    type V = Seq<Seq<char>>;

    open spec fn view(&self) -> Seq<Seq<char>> {
        self.errors.deep_view()
    }
}

impl BookReport {
    /// An empty report for the book with id `nn`.
    pub fn new(nn: u32) -> (r: BookReport)
        ensures
            r.nn == nn,
            r@ == Seq::<Seq<char>>::empty(),
    {
        let r = BookReport { nn, errors: Vec::new() };
        proof {
            assert(r@ =~= Seq::<Seq<char>>::empty());
        }
        r
    }

    /// Appends the rendered description of `error`, preserving order.
    pub fn add(&mut self, error: &Error)
        ensures
            final(self).nn == old(self).nn,
            final(self)@ == old(self)@.push(error_msg(*error)),
    {
        let text = error.describe();
        self.errors.push(text);
        proof {
            assert(self@ =~= old(self)@.push(error_msg(*error)));
        }
    }
}

} // verus!
