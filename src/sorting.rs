//! Ascending order of integer sequences, stated as insertion into a sorted
//! prefix, with the executable sort proved equal to it.

use vstd::prelude::*;

verus! {

/// `x` inserted before the first element of `t` that is not smaller than it.
pub open spec fn insert_sorted(x: u32, t: Seq<u32>) -> Seq<u32>
    decreases t.len(),
{
    if t.len() == 0 {
        seq![x]
    } else if x <= t[0] {
        seq![x] + t
    } else {
        seq![t[0]] + insert_sorted(x, t.drop_first())
    }
}

/// `s` in ascending order.
pub open spec fn sorted_seq(s: Seq<u32>) -> Seq<u32>
    decreases s.len(),
{
    if s.len() == 0 {
        s
    } else {
        insert_sorted(s.last(), sorted_seq(s.drop_last()))
    }
}

pub open spec fn is_ascending(t: Seq<u32>) -> bool {
    forall|i: int, j: int| 0 <= i <= j < t.len() ==> t[i] <= t[j]
}

/// Inserting at the first position `j` whose element is not smaller than `x`.
proof fn lemma_insert_at(x: u32, t: Seq<u32>, j: int)
    requires
        0 <= j <= t.len(),
        forall|k: int| 0 <= k < j ==> t[k] < x,
        j < t.len() ==> x <= t[j],
    ensures
        insert_sorted(x, t) == t.take(j) + seq![x] + t.skip(j),
    decreases t.len(),
{
    if t.len() == 0 {
        assert(t.take(j) + seq![x] + t.skip(j) =~= seq![x]);
    } else if j == 0 {
        assert(t.take(0) + seq![x] + t.skip(0) =~= seq![x] + t);
    } else {
        let r = t.drop_first();
        lemma_insert_at(x, r, j - 1);
        assert(t.take(j) + seq![x] + t.skip(j) =~= seq![t[0]] + (r.take(j - 1) + seq![x] + r.skip(j - 1)));
    }
}

pub proof fn lemma_insert_len(x: u32, t: Seq<u32>)
    ensures
        insert_sorted(x, t).len() == t.len() + 1,
    decreases t.len(),
{
    if t.len() > 0 {
        lemma_insert_len(x, t.drop_first());
    }
}

pub proof fn lemma_sorted_len(s: Seq<u32>)
    ensures
        sorted_seq(s).len() == s.len(),
    decreases s.len(),
{
    if s.len() > 0 {
        lemma_sorted_len(s.drop_last());
        lemma_insert_len(s.last(), sorted_seq(s.drop_last()));
    }
}

proof fn lemma_insert_ascending(x: u32, t: Seq<u32>)
    requires
        is_ascending(t),
    ensures
        is_ascending(insert_sorted(x, t)),
        forall|k: int| 0 <= k < insert_sorted(x, t).len() ==> insert_sorted(x, t)[k] == x
            || t.contains(#[trigger] insert_sorted(x, t)[k]),
    decreases t.len(),
{
    lemma_insert_len(x, t);
    if t.len() > 0 && x > t[0] {
        let r = t.drop_first();
        lemma_insert_ascending(x, r);
        lemma_insert_len(x, r);
        let ir = insert_sorted(x, r);
        assert forall|k: int| 0 <= k < ir.len() implies t[0] <= #[trigger] ir[k] by {
            if ir[k] != x {
                let m = choose|m: int| 0 <= m < r.len() && r[m] == ir[k];
                assert(t[0] <= t[m + 1]);
            }
        }
        assert forall|k: int| 0 <= k < ir.len() && r.contains(#[trigger] ir[k]) implies t.contains(ir[k]) by {
            let m = choose|m: int| 0 <= m < r.len() && r[m] == ir[k];
            assert(t[m + 1] == ir[k]);
        }
        let it = insert_sorted(x, t);
        assert forall|k: int| 0 <= k < it.len() implies it[k] == x || t.contains(#[trigger] it[k]) by {
            if k == 0 {
                assert(t[0] == it[0]);
            } else {
                assert(it[k] == ir[k - 1]);
            }
        }
    } else if t.len() > 0 {
        let it = insert_sorted(x, t);
        assert forall|k: int| 0 <= k < it.len() implies it[k] == x || t.contains(#[trigger] it[k]) by {
            if k > 0 {
                assert(t[k - 1] == it[k]);
            }
        }
    }
}

/// The sorted sequence is in ascending order and holds only elements of `s`.
pub proof fn lemma_sorted_ascending(s: Seq<u32>)
    ensures
        is_ascending(sorted_seq(s)),
        forall|k: int| 0 <= k < sorted_seq(s).len() ==> s.contains(#[trigger] sorted_seq(s)[k]),
    decreases s.len(),
{
    if s.len() > 0 {
        let p = s.drop_last();
        lemma_sorted_ascending(p);
        lemma_insert_ascending(s.last(), sorted_seq(p));
        let t = sorted_seq(s);
        assert forall|k: int| 0 <= k < t.len() implies s.contains(#[trigger] t[k]) by {
            if t[k] == s.last() {
                assert(s[s.len() - 1] == t[k]);
            } else {
                let q = sorted_seq(p);
                let m = choose|m: int| 0 <= m < q.len() && q[m] == t[k];
                let m2 = choose|m2: int| 0 <= m2 < p.len() && p[m2] == q[m];
                assert(s[m2] == t[k]);
            }
        }
    }
}

/// A copy of `v` in ascending order.
pub fn sort_ascending(v: &Vec<u32>) -> (r: Vec<u32>)
    ensures
        r@ == sorted_seq(v@),
{
    let mut out: Vec<u32> = Vec::new();
    let mut i: usize = 0;
    while i < v.len()
        invariant
            i <= v.len(),
            out@ == sorted_seq(v@.take(i as int)),
            is_ascending(out@),
        decreases v.len() - i,
    {
        let x = v[i];
        proof {
            lemma_sorted_len(v@.take(i as int));
        }
        let mut j: usize = 0;
        while j < out.len() && out[j] < x
            invariant
                j <= out.len(),
                forall|k: int| 0 <= k < j ==> out@[k] < x,
            decreases out.len() - j,
        {
            j = j + 1;
        }
        proof {
            lemma_insert_at(x, out@, j as int);
            lemma_insert_ascending(x, out@);
            assert(v@.take(i as int + 1).drop_last() =~= v@.take(i as int));
        }
        let ghost prev = out@;
        out.insert(j, x);
        assert(out@ =~= prev.take(j as int) + seq![x] + prev.skip(j as int));
        i = i + 1;
    }
    assert(v@.take(v.len() as int) =~= v@);
    out
}

// The same order on `usize` values.

/// `x` inserted before the first element of `t` that is not smaller than it.
pub open spec fn insert_sorted_usize(x: usize, t: Seq<usize>) -> Seq<usize>
    decreases t.len(),
{
    if t.len() == 0 {
        seq![x]
    } else if x <= t[0] {
        seq![x] + t
    } else {
        seq![t[0]] + insert_sorted_usize(x, t.drop_first())
    }
}

/// `s` in ascending order.
pub open spec fn sorted_seq_usize(s: Seq<usize>) -> Seq<usize>
    decreases s.len(),
{
    if s.len() == 0 {
        s
    } else {
        insert_sorted_usize(s.last(), sorted_seq_usize(s.drop_last()))
    }
}

pub open spec fn is_ascending_usize(t: Seq<usize>) -> bool {
    forall|i: int, j: int| 0 <= i <= j < t.len() ==> t[i] <= t[j]
}

/// Inserting at the first position `j` whose element is not smaller than `x`.
proof fn lemma_insert_at_usize(x: usize, t: Seq<usize>, j: int)
    requires
        0 <= j <= t.len(),
        forall|k: int| 0 <= k < j ==> t[k] < x,
        j < t.len() ==> x <= t[j],
    ensures
        insert_sorted_usize(x, t) == t.take(j) + seq![x] + t.skip(j),
    decreases t.len(),
{
    if t.len() == 0 {
        assert(t.take(j) + seq![x] + t.skip(j) =~= seq![x]);
    } else if j == 0 {
        assert(t.take(0) + seq![x] + t.skip(0) =~= seq![x] + t);
    } else {
        let r = t.drop_first();
        lemma_insert_at_usize(x, r, j - 1);
        assert(t.take(j) + seq![x] + t.skip(j) =~= seq![t[0]] + (r.take(j - 1) + seq![x] + r.skip(j - 1)));
    }
}

pub proof fn lemma_insert_len_usize(x: usize, t: Seq<usize>)
    ensures
        insert_sorted_usize(x, t).len() == t.len() + 1,
    decreases t.len(),
{
    if t.len() > 0 {
        lemma_insert_len_usize(x, t.drop_first());
    }
}

pub proof fn lemma_sorted_len_usize(s: Seq<usize>)
    ensures
        sorted_seq_usize(s).len() == s.len(),
    decreases s.len(),
{
    if s.len() > 0 {
        lemma_sorted_len_usize(s.drop_last());
        lemma_insert_len_usize(s.last(), sorted_seq_usize(s.drop_last()));
    }
}

proof fn lemma_insert_ascending_usize(x: usize, t: Seq<usize>)
    requires
        is_ascending_usize(t),
    ensures
        is_ascending_usize(insert_sorted_usize(x, t)),
        forall|k: int| 0 <= k < insert_sorted_usize(x, t).len() ==> insert_sorted_usize(x, t)[k] == x
            || t.contains(#[trigger] insert_sorted_usize(x, t)[k]),
    decreases t.len(),
{
    lemma_insert_len_usize(x, t);
    if t.len() > 0 && x > t[0] {
        let r = t.drop_first();
        lemma_insert_ascending_usize(x, r);
        lemma_insert_len_usize(x, r);
        let ir = insert_sorted_usize(x, r);
        assert forall|k: int| 0 <= k < ir.len() implies t[0] <= #[trigger] ir[k] by {
            if ir[k] != x {
                let m = choose|m: int| 0 <= m < r.len() && r[m] == ir[k];
                assert(t[0] <= t[m + 1]);
            }
        }
        assert forall|k: int| 0 <= k < ir.len() && r.contains(#[trigger] ir[k]) implies t.contains(ir[k]) by {
            let m = choose|m: int| 0 <= m < r.len() && r[m] == ir[k];
            assert(t[m + 1] == ir[k]);
        }
        let it = insert_sorted_usize(x, t);
        assert forall|k: int| 0 <= k < it.len() implies it[k] == x || t.contains(#[trigger] it[k]) by {
            if k == 0 {
                assert(t[0] == it[0]);
            } else {
                assert(it[k] == ir[k - 1]);
            }
        }
    } else if t.len() > 0 {
        let it = insert_sorted_usize(x, t);
        assert forall|k: int| 0 <= k < it.len() implies it[k] == x || t.contains(#[trigger] it[k]) by {
            if k > 0 {
                assert(t[k - 1] == it[k]);
            }
        }
    }
}

/// A copy of `v` in ascending order.
pub fn sort_ascending_usize(v: &Vec<usize>) -> (r: Vec<usize>)
    ensures
        r@ == sorted_seq_usize(v@),
{
    let mut out: Vec<usize> = Vec::new();
    let mut i: usize = 0;
    while i < v.len()
        invariant
            i <= v.len(),
            out@ == sorted_seq_usize(v@.take(i as int)),
            is_ascending_usize(out@),
        decreases v.len() - i,
    {
        let x = v[i];
        proof {
            lemma_sorted_len_usize(v@.take(i as int));
        }
        let mut j: usize = 0;
        while j < out.len() && out[j] < x
            invariant
                j <= out.len(),
                forall|k: int| 0 <= k < j ==> out@[k] < x,
            decreases out.len() - j,
        {
            j = j + 1;
        }
        proof {
            lemma_insert_at_usize(x, out@, j as int);
            lemma_insert_ascending_usize(x, out@);
            assert(v@.take(i as int + 1).drop_last() =~= v@.take(i as int));
        }
        let ghost prev = out@;
        out.insert(j, x);
        assert(out@ =~= prev.take(j as int) + seq![x] + prev.skip(j as int));
        i = i + 1;
    }
    assert(v@.take(v.len() as int) =~= v@);
    out
}

} // verus!
