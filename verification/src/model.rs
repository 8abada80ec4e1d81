//! The mathematical model of the build: drafts, poems, the builder state, and
//! the transition functions that one `Number` or `Line` event, or the final
//! `build`, performs on it. The executable builder's contracts say exactly
//! that it implements these functions.

use vstd::prelude::*;

use crate::error::{dup_msg, no_poems_msg, no_trans_msg, orphan_msg};

verus! {

/// One poem section mid-accumulation: its id and the lines buffered so far.
#[verifier::ext_equal]
pub struct DraftM {
    pub nn: u32,
    pub lines: Seq<Seq<char>>,
}

/// One completed poem: its id, the original-language lines and the translated
/// lines. The formatted id is derived from `nn` and not part of the model.
#[verifier::ext_equal]
pub struct PoemM {
    pub nn: u32,
    pub en: Seq<Seq<char>>,
    pub ru: Seq<Seq<char>>,
}

/// The whole state of one document's build.
#[verifier::ext_equal]
pub struct StateM {
    /// The book id.
    pub nn: u32,
    /// The open draft, if the machine is accumulating.
    pub open: Option<DraftM>,
    /// Completed-but-unmatched drafts awaiting their paired section, in filing
    /// order, ids unique.
    pub pending: Seq<DraftM>,
    /// The book built so far: one poem per id.
    pub book: Map<u32, PoemM>,
    /// The rendered error descriptions, in order of occurrence.
    pub report: Seq<Seq<char>>,
}

/// Whether some pending draft carries the id.
pub open spec fn pend_has(p: Seq<DraftM>, id: u32) -> bool {
    exists|i: int| 0 <= i < p.len() && p[i].nn == id
}

/// The index of the pending draft with the id (unique when ids are unique).
pub open spec fn pend_idx(p: Seq<DraftM>, id: u32) -> int {
    choose|i: int| 0 <= i < p.len() && p[i].nn == id
}

/// Pending ids are pairwise distinct.
pub open spec fn pend_unique(p: Seq<DraftM>) -> bool {
    forall|i: int, j: int| 0 <= i < j < p.len() ==> p[i].nn != p[j].nn
}

/// The initial state: idle, nothing pending, an empty book and report.
pub open spec fn init_state(nn: u32) -> StateM {
    StateM {
        nn,
        open: None,
        pending: Seq::empty(),
        book: Map::empty(),
        report: Seq::empty(),
    }
}

/// Closing a draft: the pairing algorithm. A draft whose id the book already
/// holds is dropped with a `DuplicatePoem` error; one whose id waits in the
/// pending index completes that poem; any other is filed as pending.
pub open spec fn finalize(st: StateM, d: DraftM) -> StateM {
    if st.book.contains_key(d.nn) {
        StateM { report: st.report.push(dup_msg(d.nn)), ..st }
    } else if pend_has(st.pending, d.nn) {
        let i = pend_idx(st.pending, d.nn);
        let first = st.pending[i];
        StateM {
            pending: st.pending.remove(i),
            book: st.book.insert(d.nn, PoemM { nn: d.nn, en: first.lines, ru: d.lines }),
            ..st
        }
    } else {
        StateM { pending: st.pending.push(d), ..st }
    }
}

/// A `Number` event: the open draft, if any, is finalized, and a fresh draft
/// with the new id is opened.
pub open spec fn step_number(st: StateM, id: u32) -> StateM {
    let closed = match st.open {
        Some(d) => finalize(StateM { open: None, ..st }, d),
        None => st,
    };
    StateM { open: Some(DraftM { nn: id, lines: Seq::empty() }), ..closed }
}

/// A `Line` event: appended to the open draft, or reported as an orphan and
/// dropped when the machine is idle.
pub open spec fn step_line(st: StateM, line: Seq<char>) -> StateM {
    match st.open {
        Some(d) => StateM { open: Some(DraftM { nn: d.nn, lines: d.lines.push(line) }), ..st },
        None => StateM { report: st.report.push(orphan_msg(line)), ..st },
    }
}

/// Stream end: an open draft is finalized with no replacement; every draft
/// still pending is reported as a poem whose translation never arrived. A
/// stream in which no draft was ever opened yields no book at all.
pub open spec fn finish(st: StateM) -> (Option<Map<u32, PoemM>>, Seq<Seq<char>>) {
    match st.open {
        None => (None, st.report.push(no_poems_msg(st.nn))),
        Some(d) => {
            let closed = finalize(StateM { open: None, ..st }, d);
            (
                Some(closed.book),
                closed.report + closed.pending.map_values(|p: DraftM| no_trans_msg(p.nn)),
            )
        },
    }
}

} // verus!
