//! The draft accumulator: one poem section's buffered lines between number
//! boundaries.

use vstd::prelude::*;

use crate::model::DraftM;

verus! {

/// A poem section mid-accumulation, keyed by its numeric id.
#[derive(Debug)]
pub struct TmpPoem {
    pub nn: u32,
    pub lines: Vec<String>,
}

impl View for TmpPoem {
    type V = DraftM;

    open spec fn view(&self) -> DraftM {
        DraftM { nn: self.nn, lines: self.lines.deep_view() }
    }
}

impl TmpPoem {
    /// A fresh, empty draft for the section with id `nn`.
    pub fn new(nn: u32) -> (r: TmpPoem)
        ensures
            r@ == (DraftM { nn, lines: Seq::<Seq<char>>::empty() }),
    {
        let r = TmpPoem { nn, lines: Vec::new() };
        proof {
            assert(r@.lines =~= Seq::<Seq<char>>::empty());
        }
        r
    }

    /// Appends one line, preserving the order lines arrived in.
    pub fn add(&mut self, line: String)
        ensures
            final(self)@ == (DraftM { nn: old(self)@.nn, lines: old(self)@.lines.push(line@) }),
    {
        self.lines.push(line);
        proof {
            assert(self@.lines =~= old(self)@.lines.push(line@));
        }
    }
}

} // verus!
