//! Stamps, which keep track of the evidence of a sentence.
//!
//! They are used to prevent overlap of evidence; see NARS theory.

use vstd::prelude::*;
use crate::text::{int_decimal, append_i64};

verus! {

/// Stamp which keeps track of the evidence.
#[derive(Debug)]
pub struct Stamp {
    pub ids: Vec<i64>,
}

impl Clone for Stamp {
    fn clone(&self) -> (res: Self)
        ensures
            res.ids@ == self.ids@,
    {
        Stamp { ids: self.ids.clone() }
    }
}

/// the maximal number of ids a merged stamp keeps
pub const MAX_STAMP_IDS: usize = 120;

pub fn newStamp(ids: &Vec<i64>) -> (res: Stamp)
    ensures
        res.ids@ == ids@,
{
    Stamp { ids: ids.clone() }
}

/// do the two id lists share an id?
pub open spec fn overlap(a: Seq<i64>, b: Seq<i64>) -> bool {
    exists|i: int, j: int| 0 <= i < a.len() && 0 <= j < b.len() && a[i] == b[j]
}

/// do the two stamps share an evidence id?
pub fn checkOverlap(a: &Stamp, b: &Stamp) -> (r: bool)
    ensures
        r == overlap(a.ids@, b.ids@),
{
    let mut i: usize = 0;
    while i < a.ids.len()
        invariant
            i <= a.ids.len(),
            forall|x: int, y: int| 0 <= x < i && 0 <= y < b.ids@.len() ==> a.ids@[x] != b.ids@[y],
        decreases a.ids.len() - i,
    {
        let mut j: usize = 0;
        while j < b.ids.len()
            invariant
                i < a.ids.len(),
                j <= b.ids.len(),
                forall|y: int| 0 <= y < j ==> a.ids@[i as int] != b.ids@[y],
            decreases b.ids.len() - j,
        {
            if a.ids[i] == b.ids[j] {
                return true;
            }
            j += 1;
        }
        i += 1;
    }
    false
}

/// the ids of both lists, alternating while both have ids, then the rest
pub open spec fn interleave(a: Seq<i64>, b: Seq<i64>) -> Seq<i64>
    decreases a.len(),
{
    if a.len() == 0 {
        b
    } else if b.len() == 0 {
        a
    } else {
        seq![a[0], b[0]] + interleave(a.drop_first(), b.drop_first())
    }
}

/// the ids of a merged stamp: interleaved, at most `MAX_STAMP_IDS` of them
pub open spec fn merged_ids(a: Seq<i64>, b: Seq<i64>) -> Seq<i64> {
    let all = interleave(a, b);
    if all.len() <= MAX_STAMP_IDS {
        all
    } else {
        all.take(MAX_STAMP_IDS as int)
    }
}

proof fn lemma_interleave_len(a: Seq<i64>, b: Seq<i64>)
    ensures
        interleave(a, b).len() == a.len() + b.len(),
    decreases a.len(),
{
    if a.len() > 0 && b.len() > 0 {
        lemma_interleave_len(a.drop_first(), b.drop_first());
    }
}

/// the interleaving of the first `n` ids of each list, followed by the rest of both
proof fn lemma_interleave_split(a: Seq<i64>, b: Seq<i64>, n: int)
    requires
        0 <= n <= a.len(),
        n <= b.len(),
    ensures
        interleave(a, b) == interleave(a.take(n), b.take(n)) + interleave(a.skip(n), b.skip(n)),
    decreases n,
{
    if n > 0 {
        lemma_interleave_split(a.drop_first(), b.drop_first(), n - 1);
        assert(a.drop_first().take(n - 1) =~= a.take(n).drop_first());
        assert(b.drop_first().take(n - 1) =~= b.take(n).drop_first());
        assert(a.drop_first().skip(n - 1) =~= a.skip(n));
        assert(b.drop_first().skip(n - 1) =~= b.skip(n));
        assert(interleave(a, b) =~= interleave(a.take(n), b.take(n)) + interleave(a.skip(n), b.skip(n)));
    } else {
        assert(a.take(0) =~= Seq::<i64>::empty());
        assert(a.skip(0) =~= a);
        assert(b.skip(0) =~= b);
    }
}

proof fn lemma_interleave_step(a: Seq<i64>, b: Seq<i64>, n: int)
    requires
        0 <= n < a.len(),
        n < b.len(),
    ensures
        interleave(a.take(n + 1), b.take(n + 1)) == interleave(a.take(n), b.take(n)) + seq![a[n], b[n]],
{
    lemma_interleave_split(a.take(n + 1), b.take(n + 1), n);
    assert(a.take(n + 1).take(n) =~= a.take(n));
    assert(b.take(n + 1).take(n) =~= b.take(n));
    assert(a.take(n + 1).skip(n) =~= seq![a[n]]);
    assert(b.take(n + 1).skip(n) =~= seq![b[n]]);
    assert(interleave(seq![a[n]], seq![b[n]]) =~= seq![a[n], b[n]]) by {
        let e = Seq::<i64>::empty();
        assert(seq![a[n]].drop_first() =~= e);
        assert(seq![b[n]].drop_first() =~= e);
        assert(interleave(e, e) == e);
        assert(interleave(seq![a[n]], seq![b[n]]) == seq![a[n], b[n]] + interleave(e, e));
    }
}

/// merges the evidence of two stamps: ids alternate, and at most
/// `MAX_STAMP_IDS` of them are kept
pub fn merge(a: &Stamp, b: &Stamp) -> (res: Stamp)
    ensures
        res.ids@ == merged_ids(a.ids@, b.ids@),
{
    let mut ids: Vec<i64> = Vec::new();
    let mut idx: usize = 0;
    let m = if a.ids.len() < b.ids.len() { a.ids.len() } else { b.ids.len() };
    proof {
        assert(a.ids@.take(0) =~= Seq::<i64>::empty());
        assert(interleave(a.ids@.take(0), b.ids@.take(0)) =~= Seq::<i64>::empty());
    }
    while idx < m
        invariant
            m <= a.ids.len(),
            m <= b.ids.len(),
            idx <= m,
            ids@ == interleave(a.ids@.take(idx as int), b.ids@.take(idx as int)),
        decreases m - idx,
    {
        proof {
            lemma_interleave_step(a.ids@, b.ids@, idx as int);
        }
        ids.push(a.ids[idx]);
        ids.push(b.ids[idx]);
        assert(ids@ =~= interleave(a.ids@.take(idx as int), b.ids@.take(idx as int)) + seq![a.ids@[idx as int], b.ids@[idx as int]]);
        idx += 1;
    }
    let ghost head = ids@;
    let mut i: usize = idx;
    while i < a.ids.len()
        invariant
            idx <= i <= a.ids.len(),
            ids@ == head + a.ids@.subrange(idx as int, i as int),
        decreases a.ids.len() - i,
    {
        ids.push(a.ids[i]);
        i += 1;
        assert(ids@ =~= head + a.ids@.subrange(idx as int, i as int));
    }
    let ghost head2 = ids@;
    let mut i: usize = idx;
    while i < b.ids.len()
        invariant
            idx <= i <= b.ids.len(),
            ids@ == head2 + b.ids@.subrange(idx as int, i as int),
        decreases b.ids.len() - i,
    {
        ids.push(b.ids[i]);
        i += 1;
        assert(ids@ =~= head2 + b.ids@.subrange(idx as int, i as int));
    }
    proof {
        let sa = a.ids@.skip(idx as int);
        let sb = b.ids@.skip(idx as int);
        lemma_interleave_split(a.ids@, b.ids@, idx as int);
        assert(a.ids@.subrange(idx as int, a.ids.len() as int) =~= sa);
        assert(b.ids@.subrange(idx as int, b.ids.len() as int) =~= sb);
        if sa.len() == 0 {
            assert(interleave(sa, sb) == sb);
            assert(sa =~= Seq::<i64>::empty());
        } else {
            assert(sb.len() == 0);
            assert(interleave(sa, sb) == sa);
            assert(sb =~= Seq::<i64>::empty());
        }
        assert(ids@ =~= interleave(a.ids@, b.ids@));
    }
    // AIKR: keep a bounded number of ids
    if ids.len() > MAX_STAMP_IDS {
        ids.truncate(MAX_STAMP_IDS);
    }
    Stamp { ids }
}

/// do the two stamps have the same ids in the same order?
pub fn checkSame(a: &Stamp, b: &Stamp) -> (r: bool)
    ensures
        r == (a.ids@ == b.ids@),
{
    if a.ids.len() != b.ids.len() {
        return false; // can't be the same!
    }
    let mut idx: usize = 0;
    while idx < a.ids.len()
        invariant
            a.ids.len() == b.ids.len(),
            idx <= a.ids.len(),
            forall|j: int| 0 <= j < idx ==> a.ids@[j] == b.ids@[j],
        decreases a.ids.len() - idx,
    {
        if a.ids[idx] != b.ids[idx] {
            return false;
        }
        idx += 1;
    }
    assert(a.ids@ =~= b.ids@);
    true
}

/// the ids in decimal notation, separated by commas
pub open spec fn ids_text(ids: Seq<i64>) -> Seq<char>
    decreases ids.len(),
{
    if ids.len() <= 1 {
        if ids.len() == 0 {
            Seq::empty()
        } else {
            int_decimal(ids[0] as int)
        }
    } else {
        ids_text(ids.drop_last()) + ","@ + int_decimal(ids.last() as int)
    }
}

/// convert stamp to string
pub fn convToStr(s: &Stamp) -> (res: String)
    requires
        s.ids.len() > 0,
    ensures
        res@ == ids_text(s.ids@),
{
    let mut res = String::new();
    append_i64(s.ids[0], &mut res);
    proof {
        assert(s.ids@.take(1).len() == 1);
        assert(res@ =~= ids_text(s.ids@.take(1)));
    }
    let mut i: usize = 1;
    while i < s.ids.len()
        invariant
            1 <= i <= s.ids.len(),
            res@ == ids_text(s.ids@.take(i as int)),
        decreases s.ids.len() - i,
    {
        let ghost prev = res@;
        res.append(",");
        append_i64(s.ids[i], &mut res);
        assert(s.ids@.take(i + 1).drop_last() =~= s.ids@.take(i as int));
        assert(res@ =~= ids_text(s.ids@.take(i + 1)));
        i += 1;
    }
    assert(s.ids@.take(s.ids.len() as int) =~= s.ids@);
    res
}

/// Overlap of evidence does not depend on the order of the two stamps.
pub proof fn law_overlap_symmetric(a: Seq<i64>, b: Seq<i64>)
    ensures
        overlap(a, b) == overlap(b, a),
{
    if overlap(a, b) {
        let (i, j) = choose|i: int, j: int| 0 <= i < a.len() && 0 <= j < b.len() && a[i] == b[j];
        assert(0 <= j < b.len() && 0 <= i < a.len() && b[j] == a[i]);
    }
    if overlap(b, a) {
        let (i, j) = choose|i: int, j: int| 0 <= i < b.len() && 0 <= j < a.len() && b[i] == a[j];
        assert(0 <= j < a.len() && 0 <= i < b.len() && a[j] == b[i]);
    }
}

proof fn lemma_interleave_elements(a: Seq<i64>, b: Seq<i64>)
    ensures
        forall|k: int| 0 <= k < interleave(a, b).len() ==> a.contains(#[trigger] interleave(a, b)[k]) || b.contains(interleave(a, b)[k]),
        forall|k: int| 0 <= k < a.len() ==> interleave(a, b).contains(#[trigger] a[k]),
        forall|k: int| 0 <= k < b.len() ==> interleave(a, b).contains(#[trigger] b[k]),
    decreases a.len(),
{
    lemma_interleave_len(a, b);
    if a.len() > 0 && b.len() > 0 {
        let a2 = a.drop_first();
        let b2 = b.drop_first();
        lemma_interleave_elements(a2, b2);
        let r2 = interleave(a2, b2);
        let r = interleave(a, b);
        assert(r == seq![a[0], b[0]] + r2);
        assert forall|k: int| 0 <= k < r.len() implies a.contains(#[trigger] r[k]) || b.contains(r[k]) by {
            if k == 0 {
                assert(a[0] == r[k]);
            } else if k == 1 {
                assert(b[0] == r[k]);
            } else {
                assert(r[k] == r2[k - 2]);
                if a2.contains(r2[k - 2]) {
                    let x = choose|x: int| 0 <= x < a2.len() && a2[x] == r2[k - 2];
                    assert(a[x + 1] == r[k]);
                } else {
                    let x = choose|x: int| 0 <= x < b2.len() && b2[x] == r2[k - 2];
                    assert(b[x + 1] == r[k]);
                }
            }
        }
        assert forall|k: int| 0 <= k < a.len() implies r.contains(#[trigger] a[k]) by {
            if k == 0 {
                assert(r[0] == a[k]);
            } else {
                assert(a[k] == a2[k - 1]);
                let x = choose|x: int| 0 <= x < r2.len() && r2[x] == a2[k - 1];
                assert(r[x + 2] == a[k]);
            }
        }
        assert forall|k: int| 0 <= k < b.len() implies r.contains(#[trigger] b[k]) by {
            if k == 0 {
                assert(r[1] == b[k]);
            } else {
                assert(b[k] == b2[k - 1]);
                let x = choose|x: int| 0 <= x < r2.len() && r2[x] == b2[k - 1];
                assert(r[x + 2] == b[k]);
            }
        }
    } else if a.len() == 0 {
        assert forall|k: int| 0 <= k < interleave(a, b).len() implies a.contains(#[trigger] interleave(a, b)[k]) || b.contains(interleave(a, b)[k]) by {
            assert(b[k] == interleave(a, b)[k]);
        }
        assert forall|k: int| 0 <= k < b.len() implies interleave(a, b).contains(#[trigger] b[k]) by {
            assert(interleave(a, b)[k] == b[k]);
        }
    } else {
        assert forall|k: int| 0 <= k < interleave(a, b).len() implies a.contains(#[trigger] interleave(a, b)[k]) || b.contains(interleave(a, b)[k]) by {
            assert(a[k] == interleave(a, b)[k]);
        }
        assert forall|k: int| 0 <= k < a.len() implies interleave(a, b).contains(#[trigger] a[k]) by {
            assert(interleave(a, b)[k] == a[k]);
        }
    }
}

/// A merged stamp holds only ids of the two stamps, at most `MAX_STAMP_IDS`
/// of them; when the two stamps have no more ids together, it holds all of them.
pub proof fn law_merge_ids(a: Seq<i64>, b: Seq<i64>)
    ensures
        merged_ids(a, b).len() == if a.len() + b.len() <= MAX_STAMP_IDS { a.len() + b.len() } else { MAX_STAMP_IDS as nat },
        forall|k: int| 0 <= k < merged_ids(a, b).len() ==> a.contains(#[trigger] merged_ids(a, b)[k]) || b.contains(merged_ids(a, b)[k]),
        a.len() + b.len() <= MAX_STAMP_IDS ==> forall|k: int| 0 <= k < a.len() ==> merged_ids(a, b).contains(#[trigger] a[k]),
        a.len() + b.len() <= MAX_STAMP_IDS ==> forall|k: int| 0 <= k < b.len() ==> merged_ids(a, b).contains(#[trigger] b[k]),
{
    lemma_interleave_len(a, b);
    lemma_interleave_elements(a, b);
    let all = interleave(a, b);
    assert forall|k: int| 0 <= k < merged_ids(a, b).len() implies a.contains(#[trigger] merged_ids(a, b)[k]) || b.contains(merged_ids(a, b)[k]) by {
        assert(merged_ids(a, b)[k] == all[k]);
    }
}

} // verus!
