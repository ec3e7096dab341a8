//! The order of the members of a set of filters.
//!
//! `And` and `Or` hold sets. A set is kept as the list of its members in
//! the order of their texts: the shorter text first, and of two texts of
//! one length the one with the smaller byte where they first differ. Two
//! lists with the same members so make the same set, whatever their order
//! and however often a member occurs.

use vstd::prelude::*;
use crate::filter::render::render;
use crate::filter::tree::FilterView;

verus! {

/// A text as a number: its bytes as digits to the base 256, behind a
/// leading 1. The shorter text is the smaller number.
pub open spec fn text_key(t: Seq<u8>) -> nat
    decreases t.len(),
{
    if t.len() == 0 {
        1
    } else {
        text_key(t.drop_last()) * 256 + t.last() as nat
    }
}

/// The place of a filter in the order of a set: its text as a number.
pub open spec fn filter_key(f: FilterView) -> nat {
    text_key(render(f))
}

/// Whether the filters of `s` stand in rising order, none twice.
pub open spec fn sorted(s: Seq<FilterView>) -> bool {
    forall|i: int, j: int| 0 <= i < j < s.len() ==> filter_key(s[i]) < filter_key(s[j])
}

/// The ordered list `s` with `f` put in its place; `s` itself where the
/// filter with the text of `f` is in it.
pub open spec fn insert_sorted(s: Seq<FilterView>, f: FilterView) -> Seq<FilterView>
    decreases s.len(),
{
    if s.len() == 0 {
        seq![f]
    } else if filter_key(f) < filter_key(s[0]) {
        seq![f] + s
    } else if filter_key(f) == filter_key(s[0]) {
        s
    } else {
        seq![s[0]] + insert_sorted(s.skip(1), f)
    }
}

/// The set of the filters of a list: each filter once, in rising order.
pub open spec fn set_of(fs: Seq<FilterView>) -> Seq<FilterView>
    decreases fs.len(),
{
    if fs.len() == 0 {
        fs
    } else {
        insert_sorted(set_of(fs.drop_last()), fs.last())
    }
}

/// 256 to the power of `n`.
pub open spec fn pow256(n: nat) -> nat
    decreases n,
{
    if n == 0 {
        1
    } else {
        256 * pow256((n - 1) as nat)
    }
}

/// Powers of 256 rise.
pub proof fn lemma_pow256_rises(m: nat, n: nat)
    requires
        m <= n,
    ensures
        pow256(m) <= pow256(n),
        pow256(m) >= 1,
    decreases n,
{
    if m < n {
        lemma_pow256_rises(m, (n - 1) as nat);
    } else if n > 0 {
        lemma_pow256_rises((m - 1) as nat, (n - 1) as nat);
    }
}

/// The number of a text lies between the power of 256 for its length and
/// twice that power.
pub proof fn lemma_text_key_bounds(t: Seq<u8>)
    ensures
        pow256(t.len()) <= text_key(t) < 2 * pow256(t.len()),
    decreases t.len(),
{
    if t.len() > 0 {
        lemma_text_key_bounds(t.drop_last());
    }
}

/// The shorter text is the smaller number.
pub proof fn lemma_shorter_is_less(a: Seq<u8>, b: Seq<u8>)
    requires
        a.len() < b.len(),
    ensures
        text_key(a) < text_key(b),
{
    lemma_text_key_bounds(a);
    lemma_text_key_bounds(b);
    lemma_pow256_rises(a.len() + 1, b.len());
}

/// The number of the first `i + 1` bytes of a text, from that of the first
/// `i`.
pub proof fn lemma_text_key_step(t: Seq<u8>, i: int)
    requires
        0 <= i < t.len(),
    ensures
        text_key(t.take(i + 1)) == text_key(t.take(i)) * 256 + t[i] as nat,
{
    assert(t.take(i + 1).drop_last() =~= t.take(i));
}

/// Of two texts of one length, the one whose start is the smaller number is
/// the smaller number.
pub proof fn lemma_less_start_is_less(a: Seq<u8>, b: Seq<u8>, j: int)
    requires
        a.len() == b.len(),
        0 <= j <= a.len(),
        text_key(a.take(j)) < text_key(b.take(j)),
    ensures
        text_key(a) < text_key(b),
    decreases a.len() - j,
{
    if j == a.len() {
        assert(a.take(j) =~= a);
        assert(b.take(j) =~= b);
    } else {
        lemma_text_key_step(a, j);
        lemma_text_key_step(b, j);
        lemma_less_start_is_less(a, b, j + 1);
    }
}

/// Two texts with one number are one text.
pub proof fn lemma_text_key_is_one_to_one(a: Seq<u8>, b: Seq<u8>)
    requires
        text_key(a) == text_key(b),
    ensures
        a == b,
    decreases a.len(),
{
    if a.len() < b.len() {
        lemma_shorter_is_less(a, b);
    } else if b.len() < a.len() {
        lemma_shorter_is_less(b, a);
    } else if a.len() > 0 {
        lemma_text_key_is_one_to_one(a.drop_last(), b.drop_last());
        assert(a =~= a.drop_last().push(a.last()));
        assert(b =~= b.drop_last().push(b.last()));
    } else {
        assert(a =~= b);
    }
}

/// Where in an ordered list a filter goes: behind all that stand before it
/// in the order, at `p`; and not at all where its text stands at `p`.
pub proof fn lemma_insert_at(s: Seq<FilterView>, f: FilterView, p: int)
    requires
        0 <= p <= s.len(),
        forall|i: int| 0 <= i < p ==> filter_key(#[trigger] s[i]) < filter_key(f),
        p < s.len() ==> filter_key(f) <= filter_key(s[p]),
    ensures
        insert_sorted(s, f) == if p < s.len() && filter_key(f) == filter_key(s[p]) {
            s
        } else {
            s.insert(p, f)
        },
    decreases p,
{
    if p == 0 {
        if s.len() == 0 {
            assert(s.insert(0, f) =~= seq![f]);
        } else {
            assert(s.insert(0, f) =~= seq![f] + s);
        }
    } else {
        let rest = s.skip(1);
        assert forall|i: int| 0 <= i < p - 1 implies filter_key(#[trigger] rest[i]) < filter_key(
            f,
        ) by {
            assert(rest[i] == s[i + 1]);
        }
        assert(filter_key(s[0]) < filter_key(f));
        if p < s.len() {
            assert(rest[p - 1] == s[p]);
        }
        lemma_insert_at(rest, f, p - 1);
        if p < s.len() && filter_key(f) == filter_key(s[p]) {
            assert(seq![s[0]] + rest =~= s);
        } else {
            assert(seq![s[0]] + rest.insert(p - 1, f) =~= s.insert(p, f));
        }
    }
}

/// Putting a filter into an ordered list gives an ordered list, which holds
/// the filter's text, what the list held, and nothing else.
pub proof fn lemma_insert_sorted(s: Seq<FilterView>, f: FilterView)
    requires
        sorted(s),
    ensures
        sorted(insert_sorted(s, f)),
        insert_sorted(s, f).len() >= 1,
        forall|k: int|
            0 <= k < insert_sorted(s, f).len() ==> #[trigger] insert_sorted(s, f)[k] == f
                || s.contains(insert_sorted(s, f)[k]),
        forall|k: int| 0 <= k < s.len() ==> insert_sorted(s, f).contains(#[trigger] s[k]),
        exists|k: int|
            0 <= k < insert_sorted(s, f).len() && filter_key(#[trigger] insert_sorted(s, f)[k])
                == filter_key(f),
    decreases s.len(),
{
    let r = insert_sorted(s, f);
    if s.len() == 0 {
        assert(filter_key(r[0]) == filter_key(f));
    } else if filter_key(f) < filter_key(s[0]) {
        assert forall|i: int, j: int| 0 <= i < j < r.len() implies filter_key(r[i]) < filter_key(
            r[j],
        ) by {
            if i > 0 {
                assert(r[i] == s[i - 1] && r[j] == s[j - 1]);
            } else {
                assert(r[j] == s[j - 1]);
                if j > 1 {
                    assert(filter_key(s[0]) < filter_key(s[j - 1]));
                }
            }
        }
        assert forall|k: int| 0 <= k < r.len() implies #[trigger] r[k] == f || s.contains(
            r[k],
        ) by {
            if k > 0 {
                assert(r[k] == s[k - 1]);
            }
        }
        assert forall|k: int| 0 <= k < s.len() implies r.contains(#[trigger] s[k]) by {
            assert(r[k + 1] == s[k]);
        }
        assert(filter_key(r[0]) == filter_key(f));
    } else if filter_key(f) == filter_key(s[0]) {
        assert(filter_key(r[0]) == filter_key(f));
    } else {
        let rest = s.skip(1);
        assert(sorted(rest)) by {
            assert forall|i: int, j: int| 0 <= i < j < rest.len() implies filter_key(rest[i])
                < filter_key(rest[j]) by {
                assert(rest[i] == s[i + 1] && rest[j] == s[j + 1]);
            }
        }
        lemma_insert_sorted(rest, f);
        let t = insert_sorted(rest, f);
        assert forall|k: int| 0 <= k < t.len() implies filter_key(s[0]) < filter_key(
            #[trigger] t[k],
        ) by {
            if t[k] != f {
                let m = choose|m: int| 0 <= m < rest.len() && rest[m] == t[k];
                assert(rest[m] == s[m + 1]);
            }
        }
        assert forall|i: int, j: int| 0 <= i < j < r.len() implies filter_key(r[i]) < filter_key(
            r[j],
        ) by {
            if i > 0 {
                assert(r[i] == t[i - 1] && r[j] == t[j - 1]);
            } else {
                assert(r[j] == t[j - 1]);
            }
        }
        assert forall|k: int| 0 <= k < r.len() implies #[trigger] r[k] == f || s.contains(
            r[k],
        ) by {
            if k > 0 {
                assert(r[k] == t[k - 1]);
                if t[k - 1] != f {
                    let m = choose|m: int| 0 <= m < rest.len() && rest[m] == t[k - 1];
                    assert(s[m + 1] == r[k]);
                }
            } else {
                assert(s[0] == r[0]);
            }
        }
        assert forall|k: int| 0 <= k < s.len() implies r.contains(#[trigger] s[k]) by {
            if k == 0 {
                assert(r[0] == s[0]);
            } else {
                assert(rest[k - 1] == s[k]);
                let m = choose|m: int| 0 <= m < t.len() && t[m] == rest[k - 1];
                assert(r[m + 1] == s[k]);
            }
        }
        let w = choose|w: int| 0 <= w < t.len() && filter_key(#[trigger] t[w]) == filter_key(f);
        assert(r[w + 1] == t[w]);
    }
}

/// The set of a list is ordered; it holds only filters of the list, and
/// for every filter of the list the filter with its text.
pub proof fn lemma_set_of(fs: Seq<FilterView>)
    ensures
        sorted(set_of(fs)),
        fs.len() > 0 ==> set_of(fs).len() > 0,
        forall|k: int| 0 <= k < set_of(fs).len() ==> fs.contains(#[trigger] set_of(fs)[k]),
        forall|k: int|
            0 <= k < fs.len() ==> exists|m: int|
                0 <= m < set_of(fs).len() && filter_key(#[trigger] set_of(fs)[m]) == filter_key(
                    #[trigger] fs[k],
                ),
    decreases fs.len(),
{
    if fs.len() > 0 {
        let init = fs.drop_last();
        let d = set_of(init);
        let r = set_of(fs);
        lemma_set_of(init);
        lemma_insert_sorted(d, fs.last());
        assert forall|k: int| 0 <= k < r.len() implies fs.contains(#[trigger] r[k]) by {
            if r[k] == fs.last() {
                assert(fs[fs.len() - 1] == r[k]);
            } else {
                let m = choose|m: int| 0 <= m < d.len() && d[m] == r[k];
                let n = choose|n: int| 0 <= n < init.len() && init[n] == d[m];
                assert(fs[n] == r[k]);
            }
        }
        assert forall|k: int| 0 <= k < fs.len() implies exists|m: int|
            0 <= m < r.len() && filter_key(#[trigger] r[m]) == filter_key(#[trigger] fs[k]) by {
            if k == fs.len() - 1 {
            } else {
                assert(init[k] == fs[k]);
                let m = choose|m: int|
                    0 <= m < d.len() && filter_key(#[trigger] d[m]) == filter_key(init[k]);
                let n = choose|n: int| 0 <= n < r.len() && r[n] == d[m];
                assert(filter_key(r[n]) == filter_key(fs[k]));
            }
        }
    }
}

/// An ordered list is its own set.
pub proof fn lemma_set_of_sorted(fs: Seq<FilterView>)
    requires
        sorted(fs),
    ensures
        set_of(fs) == fs,
    decreases fs.len(),
{
    if fs.len() > 0 {
        let init = fs.drop_last();
        assert(sorted(init)) by {
            assert forall|i: int, j: int| 0 <= i < j < init.len() implies filter_key(init[i])
                < filter_key(init[j]) by {
                assert(init[i] == fs[i] && init[j] == fs[j]);
            }
        }
        lemma_set_of_sorted(init);
        assert forall|i: int| 0 <= i < init.len() implies filter_key(#[trigger] init[i])
            < filter_key(fs.last()) by {
            assert(init[i] == fs[i]);
        }
        lemma_insert_at(init, fs.last(), init.len() as int);
        assert(init.insert(init.len() as int, fs.last()) =~= fs);
    }
}

/// Two ordered lists that hold the same filters are one list.
pub proof fn lemma_sorted_is_unique(s: Seq<FilterView>, t: Seq<FilterView>)
    requires
        sorted(s),
        sorted(t),
        forall|x: FilterView| s.contains(x) <==> t.contains(x),
    ensures
        s == t,
    decreases s.len(),
{
    if s.len() == 0 {
        if t.len() > 0 {
            assert(t.contains(t[0]));
        }
        assert(s =~= t);
    } else {
        assert(s.contains(s[0]));
        let j = choose|j: int| 0 <= j < t.len() && t[j] == s[0];
        assert(t.contains(t[0]));
        let i = choose|i: int| 0 <= i < s.len() && s[i] == t[0];
        assert(s[0] == t[0]);
        let s1 = s.skip(1);
        let t1 = t.skip(1);
        assert(sorted(s1)) by {
            assert forall|a: int, b: int| 0 <= a < b < s1.len() implies filter_key(s1[a])
                < filter_key(s1[b]) by {
                assert(s1[a] == s[a + 1] && s1[b] == s[b + 1]);
            }
        }
        assert(sorted(t1)) by {
            assert forall|a: int, b: int| 0 <= a < b < t1.len() implies filter_key(t1[a])
                < filter_key(t1[b]) by {
                assert(t1[a] == t[a + 1] && t1[b] == t[b + 1]);
            }
        }
        assert forall|x: FilterView| s1.contains(x) <==> t1.contains(x) by {
            if s1.contains(x) {
                let a = choose|a: int| 0 <= a < s1.len() && s1[a] == x;
                assert(s[a + 1] == x);
                assert(s.contains(x));
                let b = choose|b: int| 0 <= b < t.len() && t[b] == x;
                assert(b > 0);
                assert(t1[b - 1] == x);
            }
            if t1.contains(x) {
                let b = choose|b: int| 0 <= b < t1.len() && t1[b] == x;
                assert(t[b + 1] == x);
                assert(t.contains(x));
                let a = choose|a: int| 0 <= a < s.len() && s[a] == x;
                assert(a > 0);
                assert(s1[a - 1] == x);
            }
        }
        lemma_sorted_is_unique(s1, t1);
        assert(s =~= seq![s[0]] + s1);
        assert(t =~= seq![t[0]] + t1);
    }
}

/// How one text stands to another in the order of sets.
#[derive(Debug, Clone, Copy, PartialEq, Eq, Structural)]
pub enum Rank {
    Before,
    Same,
    After,
}

/// How the text `a` stands to the text `b`: the shorter text comes first,
/// and of two texts of one length the one with the smaller byte where they
/// first differ.
pub fn rank(a: &[u8], b: &[u8]) -> (r: Rank)
    ensures
        r == Rank::Before <==> text_key(a@) < text_key(b@),
        r == Rank::Same <==> text_key(a@) == text_key(b@),
        r == Rank::After <==> text_key(a@) > text_key(b@),
{
    if a.len() < b.len() {
        proof {
            lemma_shorter_is_less(a@, b@);
        }
        return Rank::Before;
    }
    if a.len() > b.len() {
        proof {
            lemma_shorter_is_less(b@, a@);
        }
        return Rank::After;
    }
    let mut i: usize = 0;
    assert(a@.take(0) =~= b@.take(0));
    while i < a.len()
        invariant
            i <= a.len(),
            a.len() == b.len(),
            text_key(a@.take(i as int)) == text_key(b@.take(i as int)),
        decreases a.len() - i,
    {
        proof {
            lemma_text_key_step(a@, i as int);
            lemma_text_key_step(b@, i as int);
        }
        if a[i] < b[i] {
            proof {
                lemma_less_start_is_less(a@, b@, i + 1);
            }
            return Rank::Before;
        }
        if a[i] > b[i] {
            proof {
                lemma_less_start_is_less(b@, a@, i + 1);
            }
            return Rank::After;
        }
        i += 1;
    }
    assert(a@.take(i as int) =~= a@);
    assert(b@.take(i as int) =~= b@);
    Rank::Same
}

} // verus!
