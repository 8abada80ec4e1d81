//! Laws of the state machine, proved over the model in `crate::model`: what a
//! duplicate id, an orphan line, and an unpaired draft do to the build.

use vstd::prelude::*;

use crate::error::{dup_msg, no_trans_msg, orphan_msg};
use crate::model::{finalize, finish, pend_has, step_line, step_number, DraftM, StateM};

verus! {

/// A further occurrence of an id that the book already holds: closing the
/// open draft records a `DuplicatePoem` error and leaves the book, the
/// pending index and everything already stored unchanged; the machine goes on
/// with a fresh draft.
pub proof fn lemma_duplicate_preserves_book(st: StateM, d: DraftM, id: u32)
    requires
        st.open == Some(d),
        st.book.contains_key(d.nn),
    ensures
        step_number(st, id).book == st.book,
        step_number(st, id).pending == st.pending,
        step_number(st, id).report == st.report.push(dup_msg(d.nn)),
        step_number(st, id).open == Some(DraftM { nn: id, lines: Seq::empty() }),
{
}

/// A `Line` event before any `Number` event: the machine records an
/// `OrphanLine` error, drops the line, and is otherwise unchanged, so later
/// events still process as they would have.
pub proof fn lemma_orphan_line_keeps_state(st: StateM, line: Seq<char>)
    requires
        st.open is None,
    ensures
        step_line(st, line).book == st.book,
        step_line(st, line).pending == st.pending,
        step_line(st, line).open is None,
        step_line(st, line).nn == st.nn,
        step_line(st, line).report == st.report.push(orphan_msg(line)),
{
}

/// A document that ends with an open draft whose id was never seen before:
/// the draft's id is reported as `NoTranslationForPoem` and stays absent from
/// the returned book.
pub proof fn lemma_unpaired_draft_reported(st: StateM, d: DraftM)
    requires
        st.open == Some(d),
        !st.book.contains_key(d.nn),
        !pend_has(st.pending, d.nn),
    ensures
        finish(st).0 matches Some(m) && !m.contains_key(d.nn),
        finish(st).1.len() == st.report.len() + st.pending.len() + 1,
        finish(st).1.last() == no_trans_msg(d.nn),
{
    let closed = finalize(StateM { open: None, ..st }, d);
    assert(closed.book == st.book);
    assert(closed.pending == st.pending.push(d));
    let mapped = closed.pending.map_values(|p: DraftM| no_trans_msg(p.nn));
    assert(mapped.len() == st.pending.len() + 1);
    assert(mapped[mapped.len() - 1] == no_trans_msg(d.nn));
    assert(finish(st).1 == closed.report + mapped);
    assert((closed.report + mapped).last() == mapped.last());
}

} // verus!
