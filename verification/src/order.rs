//! The order `String` sorts in, and sorting a list of labels by it.
//!
//! Strings compare byte by byte; for UTF-8 that is the order of their
//! chars' code points, which is what [`str_lt`] states.

use vstd::prelude::*;
use crate::names::views;
use crate::text::chars_of;

verus! {

/// Whether `a` sorts strictly before `b`.
pub open spec fn str_lt(a: Seq<char>, b: Seq<char>) -> bool
    decreases a.len(),
{
    if a.len() == 0 {
        b.len() > 0
    } else if b.len() == 0 {
        false
    } else if a[0] < b[0] {
        true
    } else if a[0] > b[0] {
        false
    } else {
        str_lt(a.drop_first(), b.drop_first())
    }
}

/// Nothing sorts before itself, and two strings never sort before each
/// other.
pub proof fn lemma_str_lt_asym(a: Seq<char>, b: Seq<char>)
    ensures
        !str_lt(a, a),
        str_lt(a, b) ==> !str_lt(b, a),
    decreases a.len(),
{
    if a.len() > 0 && b.len() > 0 {
        lemma_str_lt_asym(a.drop_first(), b.drop_first());
    }
    if a.len() > 0 {
        lemma_str_lt_asym(a.drop_first(), a.drop_first());
    }
}

/// Of two different strings, one sorts before the other.
pub proof fn lemma_str_lt_total(a: Seq<char>, b: Seq<char>)
    ensures
        a != b ==> str_lt(a, b) || str_lt(b, a),
    decreases a.len(),
{
    if a != b && a.len() > 0 && b.len() > 0 && a[0] == b[0] {
        assert(a.drop_first() != b.drop_first()) by {
            if a.drop_first() == b.drop_first() {
                assert(a =~= seq![a[0]] + a.drop_first());
                assert(b =~= seq![b[0]] + b.drop_first());
            }
        }
        lemma_str_lt_total(a.drop_first(), b.drop_first());
    }
    if a.len() == 0 && b.len() == 0 {
        assert(a =~= b);
    }
}

/// [`str_lt`] is transitive.
pub proof fn lemma_str_lt_trans(a: Seq<char>, b: Seq<char>, c: Seq<char>)
    ensures
        str_lt(a, b) && str_lt(b, c) ==> str_lt(a, c),
    decreases a.len(),
{
    if a.len() > 0 && b.len() > 0 && c.len() > 0 {
        lemma_str_lt_trans(a.drop_first(), b.drop_first(), c.drop_first());
    }
}

/// [`str_lt`] is a strict total order.
pub proof fn lemma_str_lt_order(a: Seq<char>, b: Seq<char>, c: Seq<char>)
    ensures
        !str_lt(a, a),
        str_lt(a, b) ==> !str_lt(b, a),
        a != b ==> str_lt(a, b) || str_lt(b, a),
        str_lt(a, b) && str_lt(b, c) ==> str_lt(a, c),
{
    lemma_str_lt_asym(a, b);
    lemma_str_lt_total(a, b);
    lemma_str_lt_trans(a, b, c);
}

/// Whether `s` is strictly ascending by [`str_lt`].
pub open spec fn ascending(s: Seq<Seq<char>>) -> bool {
    forall|i: int, j: int| 0 <= i < j < s.len() ==> str_lt(#[trigger] s[i], #[trigger] s[j])
}

/// Whether `a` sorts strictly before `b`.
pub fn str_less(a: &str, b: &str) -> (r: bool)
    ensures
        r == str_lt(a@, b@),
{
    let x = chars_of(a);
    let y = chars_of(b);
    let mut i: usize = 0;
    assert(a@.subrange(0, a@.len() as int) =~= a@);
    assert(b@.subrange(0, b@.len() as int) =~= b@);
    while i < x.len() && i < y.len()
        invariant
            i <= x@.len(),
            i <= y@.len(),
            x@ == a@,
            y@ == b@,
            str_lt(a@, b@) == str_lt(a@.subrange(i as int, a@.len() as int), b@.subrange(i as int, b@.len() as int)),
        decreases x.len() - i,
    {
        let ghost xa = a@.subrange(i as int, a@.len() as int);
        let ghost yb = b@.subrange(i as int, b@.len() as int);
        assert(xa[0] == x@[i as int]);
        assert(yb[0] == y@[i as int]);
        if x[i] < y[i] {
            return true;
        }
        if x[i] > y[i] {
            return false;
        }
        assert(xa.drop_first() =~= a@.subrange(i + 1, a@.len() as int));
        assert(yb.drop_first() =~= b@.subrange(i + 1, b@.len() as int));
        i += 1;
    }
    i == x.len() && i < y.len()
}

/// The distinct strings of `v`, ascending.
pub fn sorted_distinct(v: Vec<String>) -> (r: Vec<String>)
    ensures
        ascending(views(r@)),
        forall|s: Seq<char>| views(r@).contains(s) <==> views(v@).contains(s),
{
    let ghost all = views(v@);
    let mut rest = v;
    let mut out: Vec<String> = Vec::new();
    let ghost mut k: int = 0;
    while rest.len() > 0
        invariant
            0 <= k <= all.len(),
            views(rest@) == all.subrange(k, all.len() as int),
            ascending(views(out@)),
            forall|s: Seq<char>| views(out@).contains(s) <==> all.subrange(0, k).contains(s),
        decreases rest@.len(),
    {
        let ghost before = rest@;
        let x = rest.remove(0);
        assert(before.len() > 0);
        assert(views(before).len() == before.len());
        assert(all.subrange(k, all.len() as int).len() == all.len() - k);
        assert(views(before)[0] == before[0]@);
        assert(all.subrange(k, all.len() as int)[0] == all[k]);
        assert(x@ == all[k]);
        assert(views(rest@) =~= all.subrange(k + 1, all.len() as int)) by {
            assert forall|i: int| 0 <= i < rest@.len() implies #[trigger] views(rest@)[i] == all[k + 1 + i] by {
                assert(rest@[i] == before[i + 1]);
                assert(views(before)[i + 1] == before[i + 1]@);
                assert(all.subrange(k, all.len() as int)[i + 1] == all[k + 1 + i]);
            }
        }
        // The first place whose string does not sort before `x`.
        let mut p: usize = 0;
        while p < out.len() && str_less(out[p].as_str(), x.as_str())
            invariant
                p <= out@.len(),
                forall|i: int| 0 <= i < p ==> str_lt(#[trigger] views(out@)[i], x@),
            decreases out.len() - p,
        {
            assert(views(out@)[p as int] == out@[p as int]@);
            p += 1;
        }
        let ghost o = views(out@);
        let dup = p < out.len() && crate::text::str_eq(out[p].as_str(), x.as_str());
        if !dup {
            proof {
                if p < o.len() {
                    assert(o[p as int] == out@[p as int]@);
                    lemma_str_lt_order(o[p as int], x@, x@);
                    assert(str_lt(x@, o[p as int]));
                }
                assert forall|j: int| p < j < o.len() implies str_lt(x@, #[trigger] o[j]) by {
                    lemma_str_lt_order(x@, o[p as int], o[j]);
                }
            }
            out.insert(p, x);
            let ghost n = views(out@);
            assert(n =~= o.insert(p as int, x@));
            assert forall|i: int, j: int| 0 <= i < j < n.len() implies str_lt(#[trigger] n[i], #[trigger] n[j]) by {
                if j < p {
                } else if j == p {
                } else if i < p {
                    lemma_str_lt_order(n[i], x@, n[j]);
                } else if i == p {
                } else {
                    assert(n[i] == o[i - 1]);
                    assert(n[j] == o[j - 1]);
                }
            }
            let ghost a0 = all.subrange(0, k);
            let ghost a1 = all.subrange(0, k + 1);
            assert(a1 =~= a0.push(x@));
            assert forall|s: Seq<char>| n.contains(s) implies a1.contains(s) by {
                let i = choose|i: int| 0 <= i < n.len() && n[i] == s;
                if i == p {
                    assert(a1[k] == s);
                } else {
                    if i < p {
                        assert(o[i] == s);
                    } else {
                        assert(o[i - 1] == s);
                    }
                    assert(o.contains(s));
                    assert(a0.contains(s));
                    let j = choose|j: int| 0 <= j < a0.len() && a0[j] == s;
                    assert(a1[j] == s);
                }
            }
            assert forall|s: Seq<char>| a1.contains(s) implies n.contains(s) by {
                let j = choose|j: int| 0 <= j < a1.len() && a1[j] == s;
                if j == k {
                    assert(n[p as int] == s);
                } else {
                    assert(a0[j] == s);
                    assert(a0.contains(s));
                    assert(o.contains(s));
                    let i = choose|i: int| 0 <= i < o.len() && o[i] == s;
                    if i < p {
                        assert(n[i] == s);
                    } else {
                        assert(n[i + 1] == s);
                    }
                }
            }
        } else {
            assert(o[p as int] == x@);
            assert forall|s: Seq<char>| o.contains(s) <==> all.subrange(0, k + 1).contains(s) by {
                assert(all.subrange(0, k + 1) =~= all.subrange(0, k).push(x@));
            }
        }
        proof { k = k + 1; }
    }
    assert(all.subrange(0, k) =~= all);
    out
}

/// Two ascending sequences with the same strings are the same sequence.
pub proof fn lemma_ascending_unique(a: Seq<Seq<char>>, b: Seq<Seq<char>>)
    requires
        ascending(a),
        ascending(b),
        forall|s: Seq<char>| a.contains(s) <==> b.contains(s),
    ensures
        a == b,
    decreases a.len() + b.len(),
{
    if a.len() == 0 {
        if b.len() > 0 {
            assert(b.contains(b[0]));
        }
        assert(a =~= b);
    } else if b.len() == 0 {
        assert(a.contains(a[0]));
    } else {
        assert(a.contains(a[0]));
        assert(b.contains(b[0]));
        let j = choose|j: int| 0 <= j < b.len() && b[j] == a[0];
        let i = choose|i: int| 0 <= i < a.len() && a[i] == b[0];
        if i > 0 && j > 0 {
            assert(str_lt(a[0], a[i]));
            assert(str_lt(b[0], b[j]));
            lemma_str_lt_asym(a[0], b[0]);
        }
        if i == 0 {
            assert(a[0] == b[0]);
        } else {
            assert(b[0] == a[0]);
        }
        let ta = a.drop_first();
        let tb = b.drop_first();
        assert forall|i: int, j: int| 0 <= i < j < ta.len() implies str_lt(#[trigger] ta[i], #[trigger] ta[j]) by {
            assert(ta[i] == a[i + 1] && ta[j] == a[j + 1]);
        }
        assert forall|i: int, j: int| 0 <= i < j < tb.len() implies str_lt(#[trigger] tb[i], #[trigger] tb[j]) by {
            assert(tb[i] == b[i + 1] && tb[j] == b[j + 1]);
        }
        assert forall|s: Seq<char>| ta.contains(s) <==> tb.contains(s) by {
            if ta.contains(s) {
                let x = choose|x: int| 0 <= x < ta.len() && ta[x] == s;
                assert(a[x + 1] == s);
                assert(a.contains(s));
                assert(str_lt(a[0], a[x + 1]));
                lemma_str_lt_asym(s, s);
                let y = choose|y: int| 0 <= y < b.len() && b[y] == s;
                assert(y != 0);
                assert(tb[y - 1] == s);
            }
            if tb.contains(s) {
                let x = choose|x: int| 0 <= x < tb.len() && tb[x] == s;
                assert(b[x + 1] == s);
                assert(b.contains(s));
                assert(str_lt(b[0], b[x + 1]));
                lemma_str_lt_asym(s, s);
                let y = choose|y: int| 0 <= y < a.len() && a[y] == s;
                assert(y != 0);
                assert(ta[y - 1] == s);
            }
        }
        lemma_ascending_unique(ta, tb);
        assert(a =~= seq![a[0]] + ta);
        assert(b =~= seq![b[0]] + tb);
    }
}

/// The strings of `keys`, each once, ascending.
pub open spec fn sorted_keys(keys: Seq<Seq<char>>) -> Seq<Seq<char>> {
    choose|r: Seq<Seq<char>>| ascending(r) && forall|s: Seq<char>| r.contains(s) <==> keys.contains(s)
}

/// A sequence that is ascending and holds exactly the strings of `keys` is
/// [`sorted_keys`] of them.
pub proof fn lemma_sorted_keys(r: Seq<Seq<char>>, keys: Seq<Seq<char>>)
    requires
        ascending(r),
        forall|s: Seq<char>| r.contains(s) <==> keys.contains(s),
    ensures
        r == sorted_keys(keys),
{
    let c = sorted_keys(keys);
    assert(ascending(c) && forall|s: Seq<char>| c.contains(s) <==> keys.contains(s));
    lemma_ascending_unique(r, c);
}

/// Sorting strings that hold no repeat keeps every one: the sorted keys are
/// as many as the strings.
pub proof fn lemma_sorted_keys_len(r: Seq<Seq<char>>, keys: Seq<Seq<char>>)
    requires
        ascending(r),
        forall|s: Seq<char>| r.contains(s) <==> keys.contains(s),
        keys.no_duplicates(),
    ensures
        r.len() == keys.len(),
{
    assert forall|i: int, j: int| 0 <= i < r.len() && 0 <= j < r.len() && i != j implies r[i] != r[j] by {
        lemma_str_lt_asym(r[i], r[j]);
        lemma_str_lt_asym(r[j], r[i]);
        if i < j {
            assert(str_lt(r[i], r[j]));
        } else {
            assert(str_lt(r[j], r[i]));
        }
    }
    r.unique_seq_to_set();
    keys.unique_seq_to_set();
    assert(r.to_set() =~= keys.to_set());
}

proof fn lemma_insert_pos(r: Seq<Seq<char>>, x: Seq<char>, i: int) -> (p: int)
    requires
        ascending(r),
        !r.contains(x),
        0 <= i <= r.len(),
        forall|j: int| 0 <= j < i ==> str_lt(#[trigger] r[j], x),
    ensures
        i <= p <= r.len(),
        forall|j: int| 0 <= j < p ==> str_lt(#[trigger] r[j], x),
        forall|j: int| p <= j < r.len() ==> str_lt(x, #[trigger] r[j]),
    decreases r.len() - i,
{
    if i == r.len() {
        i
    } else if str_lt(x, r[i]) {
        assert forall|j: int| i <= j < r.len() implies str_lt(x, #[trigger] r[j]) by {
            if j > i {
                lemma_str_lt_trans(x, r[i], r[j]);
            }
        }
        i
    } else {
        assert(r[i] != x);
        lemma_str_lt_total(r[i], x);
        lemma_insert_pos(r, x, i + 1)
    }
}

/// [`sorted_keys`] of `keys` is ascending and holds exactly the strings of
/// `keys`.
pub proof fn lemma_sorted_keys_props(keys: Seq<Seq<char>>)
    ensures
        ascending(sorted_keys(keys)),
        forall|s: Seq<char>| sorted_keys(keys).contains(s) <==> keys.contains(s),
    decreases keys.len(),
{
    if keys.len() == 0 {
        let w = Seq::<Seq<char>>::empty();
        assert forall|s: Seq<char>| w.contains(s) <==> keys.contains(s) by {}
        lemma_sorted_keys(w, keys);
    } else {
        let rest = keys.drop_last();
        let x = keys.last();
        lemma_sorted_keys_props(rest);
        let r = sorted_keys(rest);
        assert forall|s: Seq<char>| keys.contains(s) <==> (rest.contains(s) || s == x) by {
            if keys.contains(s) {
                let j = choose|j: int| 0 <= j < keys.len() && keys[j] == s;
                if j < keys.len() - 1 {
                    assert(rest[j] == s);
                }
            }
            if rest.contains(s) {
                let j = choose|j: int| 0 <= j < rest.len() && rest[j] == s;
                assert(keys[j] == s);
            }
            assert(keys[keys.len() - 1] == x);
        }
        if r.contains(x) {
            lemma_sorted_keys(r, keys);
        } else {
            let p = lemma_insert_pos(r, x, 0);
            let w = r.insert(p, x);
            assert forall|i: int, j: int| 0 <= i < j < w.len() implies str_lt(#[trigger] w[i], #[trigger] w[j]) by {
                if j < p {
                    assert(w[i] == r[i] && w[j] == r[j]);
                } else if j == p {
                    assert(w[i] == r[i]);
                } else if i < p {
                    assert(w[i] == r[i] && w[j] == r[j - 1]);
                    lemma_str_lt_trans(r[i], x, r[j - 1]);
                } else if i == p {
                    assert(w[j] == r[j - 1]);
                } else {
                    assert(w[i] == r[i - 1] && w[j] == r[j - 1]);
                }
            }
            assert forall|s: Seq<char>| w.contains(s) <==> keys.contains(s) by {
                if w.contains(s) {
                    let j = choose|j: int| 0 <= j < w.len() && w[j] == s;
                    if j < p {
                        assert(r[j] == s);
                    } else if j > p {
                        assert(r[j - 1] == s);
                    }
                }
                if r.contains(s) {
                    let j = choose|j: int| 0 <= j < r.len() && r[j] == s;
                    if j < p {
                        assert(w[j] == s);
                    } else {
                        assert(w[j + 1] == s);
                    }
                }
                if s == x {
                    assert(w[p] == x);
                }
            }
            lemma_sorted_keys(w, keys);
        }
    }
}

} // verus!
