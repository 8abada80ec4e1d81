//! The builder: the incremental state machine that folds `Number` and `Line`
//! events into a book and an error report. Its contracts state that every
//! operation performs exactly the corresponding transition of the model in
//! `crate::model`.

use vstd::prelude::*;

use crate::book::Book;
use crate::error::{error_msg, parse_fail_msg, Error, PoemResult};
use crate::model::{
    finalize, finish, init_state, pend_has, pend_idx, pend_unique, step_line, step_number, StateM,
};
use crate::poem::Poem;
use crate::report::BookReport;
use crate::tmp_poem::TmpPoem;
use crate::utils::{parse_poem_num_impl, spec_normalize_num};

verus! {

/// One raw event from the document-walking collaborator: the text of a
/// number-marker element, or the text of a poem-line element.
#[derive(Debug)]
pub enum Token {
    Number(String),
    Line(String),
}

/// The state machine that folds one document's events into a book.
pub struct BookBuilder {
    pub tmp_poem: Option<TmpPoem>,
    pub tmp_poems: Vec<TmpPoem>,
    pub book: Book,
    pub report: BookReport,
}

impl View for BookBuilder {
    type V = StateM;

    open spec fn view(&self) -> StateM {
        StateM {
            nn: self.book.nn,
            open: match self.tmp_poem {
                Some(t) => Some(t@),
                None => None,
            },
            pending: self.tmp_poems@.map_values(|t: TmpPoem| t@),
            book: self.book@,
            report: self.report@,
        }
    }
}

impl BookBuilder {
    /// The book is well formed, pending ids are unique, and the report is
    /// scoped to the same book id.
    pub open spec fn wf(&self) -> bool {
        &&& self.book.wf()
        &&& pend_unique(self@.pending)
        &&& self.report.nn == self.book.nn
    }

    /// An idle builder for the book with id `nn`.
    pub fn new(nn: u32) -> (r: BookBuilder)
        ensures
            r@ == init_state(nn),
            r.wf(),
    {
        let r = BookBuilder {
            tmp_poem: None,
            tmp_poems: Vec::new(),
            book: Book::new(nn),
            report: BookReport::new(nn),
        };
        proof {
            assert(r.tmp_poems@.map_values(|t: TmpPoem| t@) =~= Seq::<crate::model::DraftM>::empty());
            assert(r@ =~= init_state(nn));
        }
        r
    }

    /// Appends one error to the report; nothing else changes.
    pub fn add_error(&mut self, error: &Error)
        requires
            old(self).wf(),
        ensures
            final(self).wf(),
            final(self)@ == (StateM {
                report: old(self)@.report.push(error_msg(*error)),
                ..old(self)@
            }),
    {
        self.report.add(error);
        proof {
            assert(self@ =~= (StateM {
                report: old(self)@.report.push(error_msg(*error)),
                ..old(self)@
            }));
        }
    }

    /// Runs an operation that may fail; a failure is recorded in the report
    /// and swallowed, so the caller always goes on.
    pub fn check_if_error<F: Fn() -> PoemResult<()>>(&mut self, f: F) -> (r: PoemResult<()>)
        requires
            old(self).wf(),
            call_requires(f, ()),
        ensures
            final(self).wf(),
            r is Ok,
            (call_ensures(f, (), Ok(())) && final(self)@ == old(self)@) || (exists|e: Error|
                #[trigger] call_ensures(f, (), Err(e)) && final(self)@ == (StateM {
                    report: old(self)@.report.push(error_msg(e)),
                    ..old(self)@
                })),
    {
        match f() {
            Ok(u) => {
                proof {
                    assert(call_ensures(f, (), Ok(u)));
                }
                Ok(())
            },
            Err(e) => {
                self.add_error(&e);
                proof {
                    assert(call_ensures(f, (), Err(e)) && self@ == (StateM {
                        report: old(self)@.report.push(error_msg(e)),
                        ..old(self)@
                    }));
                }
                Ok(())
            },
        }
    }

    /// Normalizes a raw number-marker text. A text with no usable number is
    /// recorded in the report and replaced by the sentinel id 0, so the
    /// stream keeps progressing.
    pub fn parse_poem_num(&mut self, s: &str) -> (r: u32)
        requires
            old(self).wf(),
        ensures
            final(self).wf(),
            match spec_normalize_num(s@) {
                Some(n) => r == n && final(self)@ == old(self)@,
                None => r == 0 && final(self)@ == (StateM {
                    report: old(self)@.report.push(parse_fail_msg(s@)),
                    ..old(self)@
                }),
            },
    {
        match parse_poem_num_impl(s) {
            Ok(n) => n,
            Err(e) => {
                self.add_error(&e);
                0
            },
        }
    }

    /// Removes and returns the pending draft with the id, if one waits there;
    /// the rest of the builder is untouched.
    fn remove_pending(&mut self, nn: u32) -> (r: Option<TmpPoem>)
        requires
            pend_unique(old(self)@.pending),
        ensures
            final(self).tmp_poem == old(self).tmp_poem,
            final(self).book == old(self).book,
            final(self).report == old(self).report,
            pend_unique(final(self)@.pending),
            match r {
                Some(t) => {
                    &&& pend_has(old(self)@.pending, nn)
                    &&& t@ == old(self)@.pending[pend_idx(old(self)@.pending, nn)]
                    &&& final(self)@.pending == old(self)@.pending.remove(
                        pend_idx(old(self)@.pending, nn),
                    )
                },
                None => {
                    &&& !pend_has(old(self)@.pending, nn)
                    &&& final(self)@.pending == old(self)@.pending
                },
            },
    {
        let ghost pend = self@.pending;
        let mut j: usize = 0;
        while j < self.tmp_poems.len()
            invariant
                j <= self.tmp_poems@.len(),
                pend == self.tmp_poems@.map_values(|t: TmpPoem| t@),
                pend_unique(pend),
                *self == *old(self),
                forall|m: int| 0 <= m < j ==> pend[m].nn != nn,
            decreases self.tmp_poems@.len() - j,
        {
            if self.tmp_poems[j].nn == nn {
                proof {
                    assert(pend[j as int].nn == nn);
                    let i = pend_idx(pend, nn);
                    assert(0 <= i < pend.len() && pend[i].nn == nn);
                    assert(i == j);
                    pend.remove_ensures(j as int);
                }
                let t = self.tmp_poems.remove(j);
                proof {
                    assert(self.tmp_poems@.map_values(|t: TmpPoem| t@) =~= pend.remove(j as int));
                    assert forall|a: int, b: int|
                        0 <= a < b < pend.remove(j as int).len() implies pend.remove(
                        j as int,
                    )[a].nn != pend.remove(j as int)[b].nn by {
                        assert(pend.remove(j as int)[a] == if a < j {
                            pend[a]
                        } else {
                            pend[a + 1]
                        });
                        assert(pend.remove(j as int)[b] == if b < j {
                            pend[b]
                        } else {
                            pend[b + 1]
                        });
                    }
                }
                return Some(t);
            }
            j = j + 1;
        }
        None
    }

    /// Closes a draft: the pairing algorithm of the model's `finalize`.
    fn finalize_draft(&mut self, d: TmpPoem)
        requires
            old(self).wf(),
            old(self).tmp_poem is None,
        ensures
            final(self).wf(),
            final(self).tmp_poem is None,
            final(self)@ == finalize(old(self)@, d@),
    {
        if self.book.contains(d.nn) {
            self.add_error(&Error::DuplicatePoem { number: d.nn });
            proof {
                assert(self@ =~= finalize(old(self)@, d@));
            }
        } else {
            match self.remove_pending(d.nn) {
                Some(first) => {
                    let ghost mid = self@;
                    let p = Poem::new(d.nn, first.lines, d.lines);
                    self.book.add(p);
                    proof {
                        assert(self@ =~= finalize(old(self)@, d@));
                    }
                },
                None => {
                    let ghost pend = self@.pending;
                    self.tmp_poems.push(d);
                    proof {
                        assert(self.tmp_poems@.map_values(|t: TmpPoem| t@) =~= pend.push(d@));
                        assert forall|a: int, b: int|
                            0 <= a < b < pend.push(d@).len() implies pend.push(d@)[a].nn
                            != pend.push(d@)[b].nn by {
                            if b < pend.len() {
                            } else {
                                assert(pend.push(d@)[b] == d@);
                                assert(!pend_has(pend, d.nn));
                            }
                        }
                        assert(self@ =~= finalize(old(self)@, d@));
                    }
                },
            }
        }
    }

    /// A `Number` event: the open draft, if any, is closed by the pairing
    /// algorithm, and a fresh draft with the new id is opened.
    pub fn proc_number(&mut self, new_nn: u32)
        requires
            old(self).wf(),
        ensures
            final(self).wf(),
            final(self)@ == step_number(old(self)@, new_nn),
    {
        let t = self.tmp_poem.take();
        match t {
            Some(d) => {
                proof {
                    assert((StateM { open: None, ..old(self)@ }) =~= self@);
                }
                self.finalize_draft(d);
            },
            None => {},
        }
        self.tmp_poem = Some(TmpPoem::new(new_nn));
        proof {
            assert(self@ =~= step_number(old(self)@, new_nn));
        }
    }

    /// A `Line` event: appended to the open draft, or recorded as an orphan
    /// and dropped when no draft is open.
    pub fn proc_line(&mut self, line: String)
        requires
            old(self).wf(),
        ensures
            final(self).wf(),
            final(self)@ == step_line(old(self)@, line@),
    {
        let t = self.tmp_poem.take();
        match t {
            Some(mut p) => {
                p.add(line);
                self.tmp_poem = Some(p);
                proof {
                    assert(self@ =~= step_line(old(self)@, line@));
                }
            },
            None => {
                self.add_error(&Error::OrphanLine { line });
                proof {
                    assert(self@ =~= step_line(old(self)@, line@));
                }
            },
        }
    }

    /// Stream end: closes the open draft, reports every draft whose
    /// translation never arrived, and returns the best-effort book with the
    /// report — or the report alone when no draft was ever opened.
    pub fn build(self) -> (r: (Option<Book>, BookReport))
        requires
            self.wf(),
        ensures
            r.1@ == finish(self@).1,
            r.1.nn == self@.nn,
            r.0 is Some <==> finish(self@).0 is Some,
            r.0 matches Some(b) ==> finish(self@).0 matches Some(m) && b@ == m && b.wf()
                && b.nn == self@.nn,
    {
        let mut this = self;
        let ghost st0 = this@;
        let t = this.tmp_poem.take();
        match t {
            None => {
                this.add_error(&Error::NoPoemsInBook { number: this.book.nn });
                (None, this.report)
            },
            Some(d) => {
                proof {
                    assert((StateM { open: None, ..st0 }) =~= this@);
                }
                this.finalize_draft(d);
                let ghost closed = this@;
                let ghost pend = this@.pending;
                let mut idx: usize = 0;
                while idx < this.tmp_poems.len()
                    invariant
                        idx <= this.tmp_poems@.len(),
                        pend == this.tmp_poems@.map_values(|t: TmpPoem| t@),
                        this.tmp_poem is None,
                        closed.open is None,
                        this.book@ == closed.book,
                        this.book.nn == closed.nn,
                        this.book.wf(),
                        this.report.nn == closed.nn,
                        this.report@ == closed.report + pend.take(idx as int).map_values(
                            |p: crate::model::DraftM| crate::error::no_trans_msg(p.nn),
                        ),
                    decreases this.tmp_poems@.len() - idx,
                {
                    let ghost pre = this.report@;
                    let number = this.tmp_poems[idx].nn;
                    this.report.add(&Error::NoTranslationForPoem { number });
                    proof {
                        assert(pend[idx as int].nn == number);
                        assert(pend.take(idx + 1).drop_last() =~= pend.take(idx as int));
                        assert(pend.take(idx + 1).map_values(
                            |p: crate::model::DraftM| crate::error::no_trans_msg(p.nn),
                        ) =~= pend.take(idx as int).map_values(
                            |p: crate::model::DraftM| crate::error::no_trans_msg(p.nn),
                        ).push(crate::error::no_trans_msg(number)));
                    }
                    idx = idx + 1;
                }
                proof {
                    assert(pend.take(pend.len() as int) =~= pend);
                }
                (Some(this.book), this.report)
            },
        }
    }
}

/// One event applied to the model: a `Number` marker is normalized first, a
/// failed normalization is reported and replaced by the sentinel id 0.
pub open spec fn token_step(st: StateM, t: Token) -> StateM {
    match t {
        Token::Number(raw) => match spec_normalize_num(raw@) {
            Some(n) => step_number(st, n),
            None => step_number(
                StateM { report: st.report.push(parse_fail_msg(raw@)), ..st },
                0,
            ),
        },
        Token::Line(text) => step_line(st, text@),
    }
}

/// The model state after folding the whole token sequence.
pub open spec fn run_tokens(st: StateM, ts: Seq<Token>) -> StateM
    decreases ts.len(),
{
    if ts.len() == 0 {
        st
    } else {
        token_step(run_tokens(st, ts.drop_last()), ts.last())
    }
}

/// Parses one document: folds the ordered token sequence of the document into
/// a book and its error report, exactly as the model's transitions say.
pub fn parse_book(book_num: u32, tokens: &Vec<Token>) -> (r: (Option<Book>, BookReport))
    ensures
        ({
            let end = run_tokens(init_state(book_num), tokens@);
            &&& r.1@ == finish(end).1
            &&& r.1.nn == book_num
            &&& (r.0 is Some <==> finish(end).0 is Some)
            &&& (r.0 matches Some(b) ==> finish(end).0 matches Some(m) && b@ == m && b.wf()
                && b.nn == book_num)
        }),
{
    let mut builder = BookBuilder::new(book_num);
    let mut idx: usize = 0;
    while idx < tokens.len()
        invariant
            idx <= tokens@.len(),
            builder.wf(),
            builder@.nn == book_num,
            builder@ == run_tokens(init_state(book_num), tokens@.take(idx as int)),
        decreases tokens@.len() - idx,
    {
        proof {
            assert(tokens@.take(idx + 1).drop_last() =~= tokens@.take(idx as int));
            assert(tokens@.take(idx + 1).last() == tokens@[idx as int]);
        }
        match &tokens[idx] {
            Token::Number(raw) => {
                let n = builder.parse_poem_num(raw.as_str());
                builder.proc_number(n);
            },
            Token::Line(text) => {
                builder.proc_line(text.clone());
            },
        }
        idx = idx + 1;
    }
    proof {
        assert(tokens@.take(tokens@.len() as int) =~= tokens@);
    }
    builder.build()
}

} // verus!
