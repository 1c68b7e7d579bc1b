//! Typed body segments and the facts about counting and finding them.

use vstd::prelude::*;
use crate::grid::Position;

verus! {

/// The role a segment plays in the body.
#[derive(Clone, Copy, Debug, PartialEq, Eq, Structural)]
pub enum SegmentKind {
    Head,
    Tail,
    EmptyStomach,
    FullStomach,
}

/// One cell-sized unit of the body.
#[derive(Clone, Copy, Debug, PartialEq, Eq, Structural)]
pub struct Segment {
    pub position: Position,
    pub kind: SegmentKind,
}

/// How many segments of `s` have kind `k`.
pub open spec fn count_kind(s: Seq<Segment>, k: SegmentKind) -> nat
    decreases s.len(),
{
    if s.len() == 0 {
        0
    } else {
        count_kind(s.drop_last(), k) + if s.last().kind == k { 1nat } else { 0nat }
    }
}

/// The first index at or after `i` whose segment has kind `k`.
pub open spec fn first_kind_from(s: Seq<Segment>, k: SegmentKind, i: int) -> Option<int>
    decreases s.len() - i,
{
    if i < 0 || i >= s.len() {
        None
    } else if s[i].kind == k {
        Some(i)
    } else {
        first_kind_from(s, k, i + 1)
    }
}

/// The first index of `s` whose segment has kind `k`.
pub open spec fn first_kind(s: Seq<Segment>, k: SegmentKind) -> Option<int> {
    first_kind_from(s, k, 0)
}

/// The positions of the segments, in order.
pub open spec fn positions(s: Seq<Segment>) -> Seq<Position> {
    s.map_values(|seg: Segment| seg.position)
}

pub proof fn lemma_count_concat(a: Seq<Segment>, b: Seq<Segment>, k: SegmentKind)
    ensures
        count_kind(a + b, k) == count_kind(a, k) + count_kind(b, k),
    decreases b.len(),
{
    if b.len() == 0 {
        assert(a + b =~= a);
    } else {
        assert((a + b).drop_last() =~= a + b.drop_last());
        lemma_count_concat(a, b.drop_last(), k);
    }
}

pub proof fn lemma_count_single(e: Segment, k: SegmentKind)
    ensures
        count_kind(seq![e], k) == if e.kind == k { 1nat } else { 0nat },
{
    assert(seq![e].drop_last() =~= Seq::<Segment>::empty());
    assert(count_kind(Seq::<Segment>::empty(), k) == 0);
    assert(seq![e].last() == e);
}

pub proof fn lemma_count_split(s: Seq<Segment>, i: int, k: SegmentKind)
    requires
        0 <= i <= s.len(),
    ensures
        count_kind(s, k) == count_kind(s.subrange(0, i), k) + count_kind(s.subrange(i, s.len() as int), k),
{
    assert(s =~= s.subrange(0, i) + s.subrange(i, s.len() as int));
    lemma_count_concat(s.subrange(0, i), s.subrange(i, s.len() as int), k);
}

/// Replacing one segment changes the count of a kind by what left and what came.
pub proof fn lemma_count_update(s: Seq<Segment>, i: int, e: Segment, k: SegmentKind)
    requires
        0 <= i < s.len(),
    ensures
        count_kind(s.update(i, e), k) + (if s[i].kind == k { 1int } else { 0int })
            == count_kind(s, k) + (if e.kind == k { 1int } else { 0int }),
{
    let n = s.len() as int;
    assert(s =~= s.subrange(0, i) + (seq![s[i]] + s.subrange(i + 1, n)));
    assert(s.update(i, e) =~= s.subrange(0, i) + (seq![e] + s.subrange(i + 1, n)));
    lemma_count_concat(s.subrange(0, i), seq![s[i]] + s.subrange(i + 1, n), k);
    lemma_count_concat(seq![s[i]], s.subrange(i + 1, n), k);
    lemma_count_concat(s.subrange(0, i), seq![e] + s.subrange(i + 1, n), k);
    lemma_count_concat(seq![e], s.subrange(i + 1, n), k);
    lemma_count_single(s[i], k);
    lemma_count_single(e, k);
}

/// Inserting one segment adds it to the count of its kind.
pub proof fn lemma_count_insert(s: Seq<Segment>, i: int, e: Segment, k: SegmentKind)
    requires
        0 <= i <= s.len(),
    ensures
        count_kind(s.insert(i, e), k) == count_kind(s, k) + (if e.kind == k { 1int } else { 0int }),
{
    let n = s.len() as int;
    assert(s.insert(i, e) =~= s.subrange(0, i) + (seq![e] + s.subrange(i, n)));
    lemma_count_concat(s.subrange(0, i), seq![e] + s.subrange(i, n), k);
    lemma_count_concat(seq![e], s.subrange(i, n), k);
    lemma_count_single(e, k);
    lemma_count_split(s, i, k);
}

/// Two bodies with the same kinds at every index have the same counts.
pub proof fn lemma_count_same_kinds(s: Seq<Segment>, t: Seq<Segment>, k: SegmentKind)
    requires
        s.len() == t.len(),
        forall|i: int| 0 <= i < s.len() ==> #[trigger] s[i].kind == t[i].kind,
    ensures
        count_kind(s, k) == count_kind(t, k),
    decreases s.len(),
{
    if s.len() > 0 {
        lemma_count_same_kinds(s.drop_last(), t.drop_last(), k);
    }
}

/// A run of `n` copies of `e` holds `n` segments of its kind and none of any other.
pub proof fn lemma_count_repeat(e: Segment, n: nat, k: SegmentKind)
    ensures
        count_kind(Seq::new(n, |j: int| e), k) == if e.kind == k { n } else { 0nat },
    decreases n,
{
    if n > 0 {
        assert(Seq::new(n, |j: int| e).drop_last() =~= Seq::new((n - 1) as nat, |j: int| e));
        lemma_count_repeat(e, (n - 1) as nat, k);
    }
}

pub proof fn lemma_first_kind_from(s: Seq<Segment>, k: SegmentKind, i: int)
    requires
        0 <= i <= s.len(),
    ensures
        first_kind_from(s, k, i) matches Some(j) ==> i <= j < s.len() && s[j].kind == k
            && forall|m: int| i <= m < j ==> s[m].kind != k,
        first_kind_from(s, k, i) is None ==> forall|m: int| i <= m < s.len() ==> s[m].kind != k,
    decreases s.len() - i,
{
    if i < s.len() && s[i].kind != k {
        lemma_first_kind_from(s, k, i + 1);
    }
}

/// A kind is found exactly when it is counted.
pub proof fn lemma_first_kind_count(s: Seq<Segment>, k: SegmentKind)
    ensures
        first_kind(s, k) is Some <==> count_kind(s, k) > 0,
    decreases s.len(),
{
    lemma_first_kind_from(s, k, 0);
    if s.len() > 0 {
        lemma_first_kind_from(s.drop_last(), k, 0);
        lemma_first_kind_count(s.drop_last(), k);
        if first_kind(s, k) is None {
            assert(s.last().kind != k);
            assert forall|m: int| 0 <= m < s.drop_last().len() implies s.drop_last()[m].kind != k by {
                assert(s.drop_last()[m] == s[m]);
            }
        } else if s.last().kind != k {
            let j = first_kind(s, k)->0;
            assert(j < s.len() - 1);
            assert(s.drop_last()[j].kind == k);
        }
    }
}

/// Finds the first segment of kind `k`.
pub fn find_kind(body: &Vec<Segment>, k: SegmentKind) -> (r: Option<usize>)
    ensures
        r matches Some(i) ==> first_kind(body@, k) == Some(i as int),
        r is None ==> first_kind(body@, k) is None,
{
    let mut i: usize = 0;
    while i < body.len()
        invariant
            i <= body@.len(),
            first_kind(body@, k) == first_kind_from(body@, k, i as int),
        decreases body@.len() - i,
    {
        if body[i].kind == k {
            return Some(i);
        }
        i = i + 1;
    }
    None
}

/// Counts the segments of kind `k`.
pub fn count_of(body: &Vec<Segment>, k: SegmentKind) -> (r: usize)
    ensures
        r == count_kind(body@, k),
{
    let mut n: usize = 0;
    let mut i: usize = 0;
    while i < body.len()
        invariant
            i <= body@.len(),
            n == count_kind(body@.subrange(0, i as int), k),
            n <= i,
        decreases body@.len() - i,
    {
        proof {
            assert(body@.subrange(0, i + 1).drop_last() =~= body@.subrange(0, i as int));
        }
        if body[i].kind == k {
            n = n + 1;
        }
        i = i + 1;
    }
    proof {
        assert(body@.subrange(0, body@.len() as int) =~= body@);
    }
    n
}

} // verus!
