//! The book record: an unordered store of completed poems, one per id, with a
//! derived projection that lists them sorted strictly ascending by id.

use vstd::prelude::*;

use crate::model::PoemM;
use crate::poem::Poem;

verus! {

/// The mapping from poem id to poem that a sequence of poems holds, later
/// entries overriding earlier ones of the same id.
pub open spec fn book_map(s: Seq<Poem>) -> Map<u32, PoemM>
    decreases s.len(),
{
    if s.len() == 0 {
        Map::empty()
    } else {
        book_map(s.drop_last()).insert(s.last().nn, s.last()@)
    }
}

/// Poem ids are pairwise distinct.
pub open spec fn ids_unique(s: Seq<Poem>) -> bool {
    forall|i: int, j: int| 0 <= i < j < s.len() ==> s[i].nn != s[j].nn
}

pub proof fn lemma_book_map_contains(s: Seq<Poem>, id: u32)
    ensures
        book_map(s).contains_key(id) <==> exists|i: int| 0 <= i < s.len() && s[i].nn == id,
    decreases s.len(),
{
    if s.len() > 0 {
        lemma_book_map_contains(s.drop_last(), id);
        if book_map(s).contains_key(id) {
            if id == s.last().nn {
                assert(s[s.len() - 1].nn == id);
            } else {
                let i = choose|i: int| 0 <= i < s.drop_last().len() && s.drop_last()[i].nn == id;
                assert(s[i].nn == id);
            }
        }
        if exists|i: int| 0 <= i < s.len() && s[i].nn == id {
            let i = choose|i: int| 0 <= i < s.len() && s[i].nn == id;
            if i < s.len() - 1 {
                assert(s.drop_last()[i].nn == id);
            }
        }
    }
}

pub proof fn lemma_book_map_index(s: Seq<Poem>, i: int)
    requires
        ids_unique(s),
        0 <= i < s.len(),
    ensures
        book_map(s).contains_key(s[i].nn),
        book_map(s)[s[i].nn] == s[i]@,
    decreases s.len(),
{
    if i == s.len() - 1 {
    } else {
        assert(ids_unique(s.drop_last()));
        assert(s.drop_last()[i] == s[i]);
        lemma_book_map_index(s.drop_last(), i);
        assert(s[i].nn != s.last().nn);
    }
}

pub proof fn lemma_book_map_push(s: Seq<Poem>, p: Poem)
    ensures
        book_map(s.push(p)) == book_map(s).insert(p.nn, p@),
{
    assert(s.push(p).drop_last() =~= s);
    assert(s.push(p).last() == p);
}

pub proof fn lemma_book_map_update(s: Seq<Poem>, j: int, p: Poem)
    requires
        ids_unique(s),
        0 <= j < s.len(),
        s[j].nn == p.nn,
    ensures
        book_map(s.update(j, p)) =~= book_map(s).insert(p.nn, p@),
    decreases s.len(),
{
    let t = s.update(j, p);
    if j == s.len() - 1 {
        assert(t.drop_last() =~= s.drop_last());
        assert(t.last() == p);
        assert(book_map(s.update(j, p)) =~= book_map(s).insert(p.nn, p@));
    } else {
        assert(t.drop_last() =~= s.drop_last().update(j, p));
        assert(t.last() == s.last());
        assert(ids_unique(s.drop_last()));
        assert(s.drop_last()[j] == s[j]);
        lemma_book_map_update(s.drop_last(), j, p);
        assert(s[j].nn != s.last().nn);
        assert(book_map(t) == book_map(s.drop_last().update(j, p)).insert(
            s.last().nn,
            s.last()@,
        ));
        assert(book_map(s.drop_last().update(j, p)).insert(s.last().nn, s.last()@) =~= book_map(
            s.drop_last(),
        ).insert(p.nn, p@).insert(s.last().nn, s.last()@));
        assert(book_map(s.drop_last()).insert(p.nn, p@).insert(s.last().nn, s.last()@)
            =~= book_map(s).insert(p.nn, p@));
    }
}

/// `s` lists exactly the poems of `m`, sorted strictly ascending by id.
pub open spec fn ordered_poems_spec(m: Map<u32, PoemM>, s: Seq<Poem>) -> bool {
    &&& forall|i: int, j: int| 0 <= i < j < s.len() ==> s[i].nn < s[j].nn
    &&& forall|i: int|
        0 <= i < s.len() ==> m.contains_key(#[trigger] s[i].nn) && m[s[i].nn] == s[i]@
    &&& forall|id: u32|
        m.contains_key(id) ==> exists|i: int| 0 <= i < s.len() && #[trigger] s[i].nn == id
}

/// The ordered projection of a book is unique: any two sequences that both
/// list exactly the poems of the same book, strictly ascending by id, agree
/// element by element. Repeated calls of `get_ordered_poems` therefore return
/// identical sequences.
pub proof fn lemma_ordered_poems_unique(m: Map<u32, PoemM>, s1: Seq<Poem>, s2: Seq<Poem>)
    requires
        ordered_poems_spec(m, s1),
        ordered_poems_spec(m, s2),
    ensures
        s1.len() == s2.len(),
        forall|i: int| 0 <= i < s1.len() ==> s1[i].nn == s2[i].nn && s1[i]@ == s2[i]@,
    decreases s1.len(),
{
    if s1.len() == 0 {
        if s2.len() > 0 {
            assert(m.contains_key(s2[0].nn));
            assert(exists|i: int| 0 <= i < s1.len() && s1[i].nn == s2[0].nn);
        }
    } else {
        assert(m.contains_key(s1[0].nn));
        let a = choose|i: int| 0 <= i < s2.len() && s2[i].nn == s1[0].nn;
        let b = choose|i: int| 0 <= i < s1.len() && s1[i].nn == s2[0].nn;
        assert(s2[0].nn <= s2[a].nn);
        assert(s1[0].nn <= s1[b].nn);
        assert(s1[0].nn == s2[0].nn);
        assert(s1[0]@ == m[s1[0].nn] && s2[0]@ == m[s2[0].nn]);
        let m2 = m.remove(s1[0].nn);
        let t1 = s1.drop_first();
        let t2 = s2.drop_first();
        assert forall|i: int| 0 <= i < t1.len() implies m2.contains_key(#[trigger] t1[i].nn)
            && m2[t1[i].nn] == t1[i]@ by {
            assert(t1[i] == s1[i + 1]);
            assert(s1[0].nn < s1[i + 1].nn);
        }
        assert forall|i: int| 0 <= i < t2.len() implies m2.contains_key(#[trigger] t2[i].nn)
            && m2[t2[i].nn] == t2[i]@ by {
            assert(t2[i] == s2[i + 1]);
            assert(s2[0].nn < s2[i + 1].nn);
        }
        assert forall|id: u32| m2.contains_key(id) implies exists|i: int|
            0 <= i < t1.len() && #[trigger] t1[i].nn == id by {
            let i = choose|i: int| 0 <= i < s1.len() && #[trigger] s1[i].nn == id;
            assert(i != 0);
            assert(t1[i - 1].nn == id);
        }
        assert forall|id: u32| m2.contains_key(id) implies exists|i: int|
            0 <= i < t2.len() && #[trigger] t2[i].nn == id by {
            let i = choose|i: int| 0 <= i < s2.len() && #[trigger] s2[i].nn == id;
            assert(i != 0);
            assert(t2[i - 1].nn == id);
        }
        assert(ordered_poems_spec(m2, t1));
        assert(ordered_poems_spec(m2, t2));
        lemma_ordered_poems_unique(m2, t1, t2);
        assert forall|i: int| 0 <= i < s1.len() implies s1[i].nn == s2[i].nn && s1[i]@ == s2[i]@ by {
            if i > 0 {
                assert(t1[i - 1] == s1[i]);
                assert(t2[i - 1] == s2[i]);
            }
        }
    }
}

/// The book under construction (or completed): its id and one poem per id.
#[derive(Debug)]
pub struct Book {
    pub nn: u32,
    pub poems: Vec<Poem>,
}

impl View for Book {
    type V = Map<u32, PoemM>;

    open spec fn view(&self) -> Map<u32, PoemM> {
        book_map(self.poems@)
    }
}

impl Book {
    /// Ids are unique and every poem's display id is well formed.
    pub open spec fn wf(&self) -> bool {
        &&& ids_unique(self.poems@)
        &&& forall|i: int| 0 <= i < self.poems@.len() ==> (#[trigger] self.poems@[i]).wf()
    }

    /// An empty book with id `nn`.
    pub fn new(nn: u32) -> (b: Book)
        ensures
            b.nn == nn,
            b@ == Map::<u32, PoemM>::empty(),
            b.wf(),
    {
        Book { nn, poems: Vec::new() }
    }

    /// Whether the book already holds a poem with the id.
    pub fn contains(&self, nn: u32) -> (b: bool)
        ensures
            b == self@.contains_key(nn),
    {
        let mut i: usize = 0;
        while i < self.poems.len()
            invariant
                i <= self.poems@.len(),
                forall|k: int| 0 <= k < i ==> self.poems@[k].nn != nn,
            decreases self.poems@.len() - i,
        {
            if self.poems[i].nn == nn {
                proof {
                    lemma_book_map_contains(self.poems@, nn);
                    assert(self.poems@[i as int].nn == nn);
                }
                return true;
            }
            i = i + 1;
        }
        proof {
            lemma_book_map_contains(self.poems@, nn);
        }
        false
    }

    /// Stores `p` under its id, replacing any poem already stored there.
    pub fn add(&mut self, p: Poem)
        requires
            old(self).wf(),
            p.wf(),
        ensures
            final(self).wf(),
            final(self).nn == old(self).nn,
            final(self)@ == old(self)@.insert(p.nn, p@),
    {
        let ghost orig = *self;
        let mut i: usize = 0;
        while i < self.poems.len()
            invariant
                i <= self.poems@.len(),
                forall|k: int| 0 <= k < i ==> self.poems@[k].nn != p.nn,
                *self == orig,
                orig == *old(self),
                orig.wf(),
                p.wf(),
            decreases self.poems@.len() - i,
        {
            if self.poems[i].nn == p.nn {
                let ghost pre = self.poems@;
                proof {
                    lemma_book_map_update(pre, i as int, p);
                }
                self.poems[i] = p;
                proof {
                    assert(self.poems@ == pre.update(i as int, p));
                    assert(self@ =~= old(self)@.insert(p.nn, p@));
                    assert forall|a: int, b: int|
                        0 <= a < b < self.poems@.len() implies self.poems@[a].nn
                        != self.poems@[b].nn by {
                        assert(pre[a].nn != pre[b].nn);
                    }
                    assert forall|a: int|
                        0 <= a < self.poems@.len() implies (#[trigger] self.poems@[a]).wf() by {
                        if a != i {
                            assert(self.poems@[a] == pre[a]);
                        }
                    }
                }
                return ;
            }
            i = i + 1;
        }
        let ghost pre = self.poems@;
        proof {
            lemma_book_map_push(pre, p);
        }
        self.poems.push(p);
        proof {
            assert forall|a: int, b: int|
                0 <= a < b < self.poems@.len() implies self.poems@[a].nn != self.poems@[b].nn by {
                if b < pre.len() {
                    assert(pre[a].nn != pre[b].nn);
                } else {
                    assert(self.poems@[b] == p);
                    assert(pre[a].nn != p.nn);
                }
            }
            assert forall|a: int|
                0 <= a < self.poems@.len() implies (#[trigger] self.poems@[a]).wf() by {
                if a < pre.len() {
                    assert(self.poems@[a] == pre[a]);
                }
            }
        }
    }

    /// The poems of the book, sorted strictly ascending by id; recomputed on
    /// each call, and unique by `lemma_ordered_poems_unique`.
    pub fn get_ordered_poems(&self) -> (r: Vec<&Poem>)
        requires
            self.wf(),
        ensures
            ordered_poems_spec(self@, r@.map_values(|p: &Poem| *p)),
            forall|i: int| 0 <= i < r@.len() ==> (*#[trigger] r@[i]).wf(),
    {
        let ghost pv = self.poems@;
        let mut res: Vec<&Poem> = Vec::new();
        let mut i: usize = 0;
        while i < self.poems.len()
            invariant
                i <= pv.len(),
                pv == self.poems@,
                self.wf(),
                sorted_refs(res@),
                lists_prefix(res@, pv, i as int),
            decreases pv.len() - i,
        {
            let p = &self.poems[i];
            place_sorted(&mut res, p, Ghost(pv), Ghost(i as int));
            i = i + 1;
        }
        proof {
            lemma_ordered_result(pv, res@);
        }
        res
    }
}

/// The references of `rs` have strictly ascending ids.
pub open spec fn sorted_refs(rs: Seq<&Poem>) -> bool {
    forall|a: int, b: int| 0 <= a < b < rs.len() ==> rs[a].nn < rs[b].nn
}

/// `rs` lists, as references, exactly the first `i` poems of `pv`.
pub open spec fn lists_prefix(rs: Seq<&Poem>, pv: Seq<Poem>, i: int) -> bool {
    &&& forall|a: int|
        0 <= a < rs.len() ==> exists|k: int|
            0 <= k < i && *(#[trigger] rs[a]) == #[trigger] pv[k]
    &&& forall|k: int|
        0 <= k < i ==> exists|a: int| 0 <= a < rs.len() && (#[trigger] pv[k]).nn == (#[trigger] rs[a]).nn
}

/// Inserts a reference to `pv[i]` at its sorted position in `res`, which
/// already lists the first `i` poems of `pv` in ascending id order.
fn place_sorted<'a>(
    res: &mut Vec<&'a Poem>,
    p: &'a Poem,
    Ghost(pv): Ghost<Seq<Poem>>,
    Ghost(i): Ghost<int>,
)
    requires
        ids_unique(pv),
        0 <= i < pv.len(),
        *p == pv[i],
        sorted_refs(old(res)@),
        lists_prefix(old(res)@, pv, i),
    ensures
        sorted_refs(final(res)@),
        lists_prefix(final(res)@, pv, i + 1),
{
    let mut j: usize = 0;
    while j < res.len() && res[j].nn < p.nn
        invariant
            j <= res@.len(),
            res@ == old(res)@,
            forall|a: int| 0 <= a < j ==> res@[a].nn < p.nn,
        decreases res@.len() - j,
    {
        j = j + 1;
    }
    proof {
        if j < res@.len() {
            let k = choose|k: int| 0 <= k < i && *res@[j as int] == pv[k];
            assert(pv[k].nn != pv[i].nn);
            assert(res@[j as int].nn > p.nn);
        }
        lemma_sorted_insert(res@, p, j as int, pv, i);
    }
    res.insert(j, p);
}

/// Inserting a poem reference at its sorted position keeps the projection
/// sorted and makes it list one poem more.
#[verifier::rlimit(100)]
proof fn lemma_sorted_insert<'a>(res0: Seq<&'a Poem>, p: &'a Poem, j: int, pv: Seq<Poem>, i: int)
    requires
        0 <= j <= res0.len(),
        0 <= i < pv.len(),
        sorted_refs(res0),
        forall|a: int| 0 <= a < j ==> res0[a].nn < p.nn,
        j < res0.len() ==> res0[j].nn > p.nn,
        *p == pv[i],
        lists_prefix(res0, pv, i),
    ensures
        sorted_refs(res0.insert(j, p)),
        lists_prefix(res0.insert(j, p), pv, i + 1),
{
    let r = res0.insert(j, p);
    res0.insert_ensures(j, p);
    assert forall|a: int, b: int| 0 <= a < b < r.len() implies r[a].nn < r[b].nn by {
        if b == j {
            assert(r[a] == res0[a]);
        } else if a == j && b > j {
            assert(r[b] == res0[b - 1]);
            assert(res0[j].nn <= res0[b - 1].nn);
        } else if a < j && b > j {
            assert(r[a] == res0[a] && r[b] == res0[b - 1]);
            if b - 1 == j {
                assert(r[b].nn > p.nn && r[a].nn < p.nn);
            }
        }
    }
    assert forall|a: int| 0 <= a < r.len() implies exists|k: int|
        0 <= k < i + 1 && *(#[trigger] r[a]) == #[trigger] pv[k] by {
        if a == j {
            assert(*r[a] == pv[i]);
        } else if a < j {
            let k = choose|k: int| 0 <= k < i && *res0[a] == pv[k];
            assert(*r[a] == pv[k]);
        } else {
            let k = choose|k: int| 0 <= k < i && *res0[a - 1] == pv[k];
            assert(*r[a] == pv[k]);
        }
    }
    assert forall|k: int| 0 <= k < i + 1 implies exists|a: int|
        0 <= a < r.len() && (#[trigger] pv[k]).nn == (#[trigger] r[a]).nn by {
        if k == i {
            assert(pv[k].nn == r[j].nn);
        } else {
            let a0 = choose|a: int| 0 <= a < res0.len() && pv[k].nn == res0[a].nn;
            if a0 < j {
                assert(pv[k].nn == r[a0].nn);
            } else {
                assert(r[a0 + 1] == res0[a0]);
                assert(pv[k].nn == r[a0 + 1].nn);
            }
        }
    }
}

/// A sorted listing of every poem of `pv` projects, as values, exactly the
/// poems of `book_map(pv)` in ascending id order.
proof fn lemma_ordered_result<'a>(pv: Seq<Poem>, rseq: Seq<&'a Poem>)
    requires
        ids_unique(pv),
        forall|i: int| 0 <= i < pv.len() ==> (#[trigger] pv[i]).wf(),
        sorted_refs(rseq),
        lists_prefix(rseq, pv, pv.len() as int),
    ensures
        ordered_poems_spec(book_map(pv), rseq.map_values(|p: &Poem| *p)),
        forall|i: int| 0 <= i < rseq.len() ==> (*#[trigger] rseq[i]).wf(),
{
    let rv = rseq.map_values(|p: &Poem| *p);
    let m = book_map(pv);
    assert(rv.len() == rseq.len());
    assert forall|a: int, b: int| 0 <= a < b < rv.len() implies rv[a].nn < rv[b].nn by {
        assert(rv[a] == *rseq[a]);
        assert(rv[b] == *rseq[b]);
    }
    assert forall|a: int|
        0 <= a < rv.len() implies m.contains_key(#[trigger] rv[a].nn) && m[rv[a].nn] == rv[a]@ by {
        let k = choose|k: int| 0 <= k < pv.len() && *rseq[a] == pv[k];
        lemma_book_map_index(pv, k);
        assert(rv[a] == pv[k]);
    }
    assert forall|id: u32| m.contains_key(id) implies exists|a: int|
        0 <= a < rv.len() && #[trigger] rv[a].nn == id by {
        lemma_book_map_contains(pv, id);
        let k = choose|k: int| 0 <= k < pv.len() && pv[k].nn == id;
        let a = choose|a: int| 0 <= a < rseq.len() && pv[k].nn == rseq[a].nn;
        assert(rv[a].nn == id);
    }
    assert forall|i: int| 0 <= i < rseq.len() implies (*#[trigger] rseq[i]).wf() by {
        let k = choose|k: int| 0 <= k < pv.len() && *rseq[i] == pv[k];
    }
}

} // verus!
