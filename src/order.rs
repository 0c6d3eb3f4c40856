//! A fixed order on type tags, and tallies sorted by it, so that text built
//! from a tally depends on its (tag, count) pairs alone.
use vstd::prelude::*;
use vstd::string::*;
use crate::graph::{Tally, tally_keys_unique, tally_view};

verus! {

/// `a` comes before `b`: compared character by character by code point, a
/// proper prefix first.
pub open spec fn tag_less(a: Seq<char>, b: Seq<char>) -> bool
    decreases a.len(),
{
    if a.len() == 0 {
        b.len() > 0
    } else if b.len() == 0 {
        false
    } else if a[0] != b[0] {
        (a[0] as u32) < (b[0] as u32)
    } else {
        tag_less(a.drop_first(), b.drop_first())
    }
}

pub proof fn lemma_tag_less_irreflexive(a: Seq<char>)
    ensures
        !tag_less(a, a),
    decreases a.len(),
{
    if a.len() > 0 {
        lemma_tag_less_irreflexive(a.drop_first());
    }
}

pub proof fn lemma_tag_less_transitive(a: Seq<char>, b: Seq<char>, c: Seq<char>)
    requires
        tag_less(a, b),
        tag_less(b, c),
    ensures
        tag_less(a, c),
    decreases a.len(),
{
    if a.len() > 0 && a[0] == b[0] && b[0] == c[0] {
        lemma_tag_less_transitive(a.drop_first(), b.drop_first(), c.drop_first());
    }
}

pub proof fn lemma_tag_less_total(a: Seq<char>, b: Seq<char>)
    requires
        a != b,
    ensures
        tag_less(a, b) || tag_less(b, a),
    decreases a.len(),
{
    if a.len() > 0 && b.len() > 0 {
        if a[0] == b[0] {
            if a.drop_first() == b.drop_first() {
                assert(a =~= seq![a[0]] + a.drop_first());
                assert(b =~= seq![b[0]] + b.drop_first());
            }
            lemma_tag_less_total(a.drop_first(), b.drop_first());
        } else {
            vstd::utf8::char_u32_cast(a[0], a[0] as u32);
            vstd::utf8::char_u32_cast(b[0], b[0] as u32);
        }
    } else if a.len() == 0 && b.len() == 0 {
        assert(a =~= b);
    }
}

/// Tags strictly ascend along the tally.
pub open spec fn tags_ascending(s: Tally) -> bool {
    forall|i: int, j: int| 0 <= i < j < s.len() ==> tag_less(#[trigger] s[i].0, #[trigger] s[j].0)
}

/// `x` put into the ascending tally `s` before the first entry whose tag it precedes.
pub open spec fn insert_sorted(s: Tally, x: (Seq<char>, nat)) -> Tally
    decreases s.len(),
{
    if s.len() == 0 {
        seq![x]
    } else if tag_less(x.0, s[0].0) {
        seq![x] + s
    } else {
        seq![s[0]] + insert_sorted(s.drop_first(), x)
    }
}

/// The entries of a tally in ascending order of tag.
pub open spec fn sorted_tally(t: Tally) -> Tally
    decreases t.len(),
{
    if t.len() == 0 {
        Seq::empty()
    } else {
        insert_sorted(sorted_tally(t.drop_last()), t.last())
    }
}

proof fn lemma_insert_sorted(s: Tally, x: (Seq<char>, nat))
    requires
        tags_ascending(s),
        forall|k: int| 0 <= k < s.len() ==> (#[trigger] s[k]).0 != x.0,
    ensures
        tags_ascending(insert_sorted(s, x)),
        insert_sorted(s, x).len() == s.len() + 1,
        forall|p: (Seq<char>, nat)| #[trigger] insert_sorted(s, x).contains(p) <==> (s.contains(p) || p == x),
    decreases s.len(),
{
    let r = insert_sorted(s, x);
    if s.len() == 0 {
        assert forall|p: (Seq<char>, nat)| r.contains(p) <==> (s.contains(p) || p == x) by {
            if r.contains(p) {
                let k = choose|k: int| 0 <= k < r.len() && r[k] == p;
                assert(k == 0);
            }
            if p == x {
                assert(r[0] == x);
            }
        }
    } else if tag_less(x.0, s[0].0) {
        assert forall|i: int, j: int| 0 <= i < j < r.len() implies tag_less(#[trigger] r[i].0, #[trigger] r[j].0) by {
            if i == 0 {
                if j > 1 {
                    lemma_tag_less_transitive(x.0, s[0].0, s[j - 1].0);
                }
            } else {
                assert(r[i] == s[i - 1] && r[j] == s[j - 1]);
            }
        }
        assert forall|p: (Seq<char>, nat)| r.contains(p) <==> (s.contains(p) || p == x) by {
            if r.contains(p) {
                let k = choose|k: int| 0 <= k < r.len() && r[k] == p;
                if k > 0 {
                    assert(s[k - 1] == p);
                }
            }
            if s.contains(p) {
                let k = choose|k: int| 0 <= k < s.len() && s[k] == p;
                assert(r[k + 1] == p);
            }
            if p == x {
                assert(r[0] == x);
            }
        }
    } else {
        let s1 = s.drop_first();
        assert forall|i: int, j: int| 0 <= i < j < s1.len() implies tag_less(#[trigger] s1[i].0, #[trigger] s1[j].0) by {
            assert(s1[i] == s[i + 1] && s1[j] == s[j + 1]);
        }
        assert forall|k: int| 0 <= k < s1.len() implies (#[trigger] s1[k]).0 != x.0 by {
            assert(s1[k] == s[k + 1]);
        }
        lemma_insert_sorted(s1, x);
        let r1 = insert_sorted(s1, x);
        assert(r == seq![s[0]] + r1);
        lemma_tag_less_total(s[0].0, x.0);
        assert forall|i: int, j: int| 0 <= i < j < r.len() implies tag_less(#[trigger] r[i].0, #[trigger] r[j].0) by {
            if i == 0 {
                assert(r1.contains(r[j])) by {
                    assert(r1[j - 1] == r[j]);
                }
                if r[j] != x {
                    assert(s1.contains(r[j]));
                    let k = choose|k: int| 0 <= k < s1.len() && s1[k] == r[j];
                    assert(s[k + 1] == r[j]);
                }
            } else {
                assert(r[i] == r1[i - 1] && r[j] == r1[j - 1]);
            }
        }
        assert forall|p: (Seq<char>, nat)| r.contains(p) <==> (s.contains(p) || p == x) by {
            if r.contains(p) {
                let k = choose|k: int| 0 <= k < r.len() && r[k] == p;
                if k == 0 {
                    assert(s[0] == p);
                } else {
                    assert(r1[k - 1] == p);
                    assert(insert_sorted(s1, x).contains(p));
                    if s1.contains(p) {
                        let m = choose|m: int| 0 <= m < s1.len() && s1[m] == p;
                        assert(s[m + 1] == p);
                    }
                }
            }
            if s.contains(p) {
                let k = choose|k: int| 0 <= k < s.len() && s[k] == p;
                if k == 0 {
                    assert(r[0] == p);
                } else {
                    assert(s1[k - 1] == p);
                    assert(s1.contains(p));
                    assert(insert_sorted(s1, x).contains(p));
                    let m = choose|m: int| 0 <= m < r1.len() && r1[m] == p;
                    assert(r[m + 1] == p);
                }
            }
            if p == x {
                assert(insert_sorted(s1, x).contains(p));
                let m = choose|m: int| 0 <= m < r1.len() && r1[m] == p;
                assert(r[m + 1] == p);
            }
        }
    }
}

/// Sorting a tally without repeated tags keeps its entries and puts their
/// tags in strictly ascending order.
pub proof fn lemma_sorted_tally(t: Tally)
    requires
        tally_keys_unique(t),
    ensures
        tags_ascending(sorted_tally(t)),
        sorted_tally(t).len() == t.len(),
        forall|p: (Seq<char>, nat)| sorted_tally(t).contains(p) <==> t.contains(p),
    decreases t.len(),
{
    if t.len() > 0 {
        let d = t.drop_last();
        assert(tally_keys_unique(d));
        lemma_sorted_tally(d);
        let s = sorted_tally(d);
        assert forall|k: int| 0 <= k < s.len() implies (#[trigger] s[k]).0 != t.last().0 by {
            assert(s.contains(s[k]));
            assert(d.contains(s[k]));
            let j = choose|j: int| 0 <= j < d.len() && d[j] == s[k];
            assert(t[j] == d[j]);
        }
        lemma_insert_sorted(s, t.last());
        assert forall|p: (Seq<char>, nat)| sorted_tally(t).contains(p) <==> t.contains(p) by {
            if d.contains(p) {
                let j = choose|j: int| 0 <= j < d.len() && d[j] == p;
                assert(t[j] == p);
            }
            if t.contains(p) {
                let j = choose|j: int| 0 <= j < t.len() && t[j] == p;
                if j < t.len() - 1 {
                    assert(d[j] == p);
                }
            }
        }
    }
}

proof fn lemma_ascending_unique(a: Tally, b: Tally)
    requires
        tags_ascending(a),
        tags_ascending(b),
        forall|p: (Seq<char>, nat)| a.contains(p) <==> b.contains(p),
    ensures
        a == b,
    decreases a.len(),
{
    if a.len() == 0 {
        if b.len() > 0 {
            assert(b.contains(b[0]));
        }
        assert(a =~= b);
    } else {
        assert(a.contains(a[0]));
        assert(b.contains(a[0]));
        let j = choose|j: int| 0 <= j < b.len() && b[j] == a[0];
        assert(b.contains(b[0]));
        assert(a.contains(b[0]));
        let k = choose|k: int| 0 <= k < a.len() && a[k] == b[0];
        if j > 0 {
            assert(tag_less(b[0].0, b[j].0));
            if k > 0 {
                assert(tag_less(a[0].0, a[k].0));
                lemma_tag_less_transitive(a[0].0, b[0].0, a[0].0);
                lemma_tag_less_irreflexive(a[0].0);
            } else {
                lemma_tag_less_irreflexive(b[0].0);
            }
        }
        let a1 = a.drop_first();
        let b1 = b.drop_first();
        assert forall|i: int, m: int| 0 <= i < m < a1.len() implies tag_less(#[trigger] a1[i].0, #[trigger] a1[m].0) by {
            assert(a1[i] == a[i + 1] && a1[m] == a[m + 1]);
        }
        assert forall|i: int, m: int| 0 <= i < m < b1.len() implies tag_less(#[trigger] b1[i].0, #[trigger] b1[m].0) by {
            assert(b1[i] == b[i + 1] && b1[m] == b[m + 1]);
        }
        assert forall|p: (Seq<char>, nat)| a1.contains(p) <==> b1.contains(p) by {
            if a1.contains(p) {
                let i = choose|i: int| 0 <= i < a1.len() && a1[i] == p;
                assert(a[i + 1] == p);
                assert(tag_less(a[0].0, p.0));
                lemma_tag_less_irreflexive(p.0);
                assert(b.contains(p));
                let m = choose|m: int| 0 <= m < b.len() && b[m] == p;
                assert(m != 0);
                assert(b1[m - 1] == p);
            }
            if b1.contains(p) {
                let i = choose|i: int| 0 <= i < b1.len() && b1[i] == p;
                assert(b[i + 1] == p);
                assert(tag_less(b[0].0, p.0));
                lemma_tag_less_irreflexive(p.0);
                assert(a.contains(p));
                let m = choose|m: int| 0 <= m < a.len() && a[m] == p;
                assert(m != 0);
                assert(a1[m - 1] == p);
            }
        }
        lemma_ascending_unique(a1, b1);
        assert(a =~= seq![a[0]] + a1);
        assert(b =~= seq![b[0]] + b1);
    }
}

/// Sorting forgets the order of a tally: two tallies without repeated tags
/// that hold the same (tag, count) pairs sort to the same tally.
pub proof fn lemma_sorted_tally_order_free(t1: Tally, t2: Tally)
    requires
        tally_keys_unique(t1),
        tally_keys_unique(t2),
        forall|p: (Seq<char>, nat)| t1.contains(p) <==> t2.contains(p),
    ensures
        sorted_tally(t1) == sorted_tally(t2),
{
    lemma_sorted_tally(t1);
    lemma_sorted_tally(t2);
    assert forall|p: (Seq<char>, nat)| sorted_tally(t1).contains(p) <==> sorted_tally(t2).contains(p) by {
        assert(sorted_tally(t1).contains(p) <==> t1.contains(p));
        assert(sorted_tally(t2).contains(p) <==> t2.contains(p));
        assert(t1.contains(p) <==> t2.contains(p));
    }
    lemma_ascending_unique(sorted_tally(t1), sorted_tally(t2));
}

/// Whether tag `a` comes before tag `b`.
pub fn tag_precedes(a: &str, b: &str) -> (r: bool)
    ensures
        r == tag_less(a@, b@),
{
    let n = a.unicode_len();
    let m = b.unicode_len();
    let mut i: usize = 0;
    assert(a@.skip(0) =~= a@ && b@.skip(0) =~= b@);
    while i < n && i < m
        invariant
            n == a@.len(),
            m == b@.len(),
            0 <= i <= n,
            i <= m,
            tag_less(a@, b@) == tag_less(a@.skip(i as int), b@.skip(i as int)),
        decreases n - i,
    {
        let x = a.get_char(i);
        let y = b.get_char(i);
        assert(a@.skip(i as int)[0] == x && b@.skip(i as int)[0] == y);
        if x != y {
            return (x as u32) < (y as u32);
        }
        assert(a@.skip(i as int).drop_first() =~= a@.skip(i + 1));
        assert(b@.skip(i as int).drop_first() =~= b@.skip(i + 1));
        i += 1;
    }
    i < m
}

proof fn lemma_insert_step(v: Tally, xv: (Seq<char>, nat), j: int)
    requires
        0 <= j < v.len(),
        !tag_less(xv.0, v[j].0),
        insert_sorted(v, xv) == v.take(j) + insert_sorted(v.skip(j), xv),
    ensures
        insert_sorted(v, xv) == v.take(j + 1) + insert_sorted(v.skip(j + 1), xv),
{
    assert(v.skip(j)[0] == v[j]);
    assert(v.skip(j).drop_first() =~= v.skip(j + 1));
    assert(insert_sorted(v.skip(j), xv) == seq![v[j]] + insert_sorted(v.skip(j + 1), xv));
    assert(v.take(j) + (seq![v[j]] + insert_sorted(v.skip(j + 1), xv)) =~= v.take(j + 1)
        + insert_sorted(v.skip(j + 1), xv));
}

fn insert_entry(s: &mut Vec<(String, usize)>, x: (String, usize))
    ensures
        tally_view(final(s)@) == insert_sorted(tally_view(old(s)@), (x.0@, x.1 as nat)),
{
    let ghost v = tally_view(s@);
    let ghost xv = (x.0@, x.1 as nat);
    let mut j: usize = 0;
    assert(v.skip(0) =~= v);
    assert(v.take(0) + v.skip(0) =~= v);
    while j < s.len()
        invariant
            0 <= j <= s@.len(),
            v == tally_view(s@),
            xv == (x.0@, x.1 as nat),
            insert_sorted(v, xv) == v.take(j as int) + insert_sorted(v.skip(j as int), xv),
        ensures
            0 <= j <= s@.len(),
            v == tally_view(s@),
            xv == (x.0@, x.1 as nat),
            insert_sorted(v, xv) == v.take(j as int) + insert_sorted(v.skip(j as int), xv),
            j < s@.len() ==> tag_less(xv.0, v[j as int].0),
        decreases s@.len() - j,
    {
        let before = tag_precedes(x.0.as_str(), s[j].0.as_str());
        assert(v[j as int] == (s@[j as int].0@, s@[j as int].1 as nat));
        if before {
            break;
        }
        proof {
            lemma_insert_step(v, xv, j as int);
        }
        j += 1;
    }
    let ghost before = s@;
    s.insert(j, x);
    proof {
        if j < v.len() {
            assert(v.skip(j as int)[0] == v[j as int]);
        } else {
            assert(v.skip(j as int) =~= Seq::<(Seq<char>, nat)>::empty());
        }
        assert(tally_view(s@) =~= v.take(j as int) + insert_sorted(v.skip(j as int), xv));
    }
}

/// The tally's entries in ascending order of tag.
pub fn sort_tally(t: &Vec<(String, usize)>) -> (r: Vec<(String, usize)>)
    ensures
        tally_view(r@) == sorted_tally(tally_view(t@)),
{
    let ghost v = tally_view(t@);
    let mut out: Vec<(String, usize)> = Vec::new();
    let mut i: usize = 0;
    assert(tally_view(out@) =~= sorted_tally(v.subrange(0, 0)));
    while i < t.len()
        invariant
            0 <= i <= t@.len(),
            v == tally_view(t@),
            tally_view(out@) == sorted_tally(v.subrange(0, i as int)),
        decreases t@.len() - i,
    {
        proof {
            assert(v.subrange(0, i + 1).drop_last() =~= v.subrange(0, i as int));
            assert(v.subrange(0, i + 1).last() == v[i as int]);
        }
        insert_entry(&mut out, (t[i].0.clone(), t[i].1));
        i += 1;
    }
    assert(v.subrange(0, i as int) =~= v);
    out
}

} // verus!
