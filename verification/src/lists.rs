//! Small list disciplines: a window that keeps the most recent entries, and
//! a list with one entry per key, the latest last.

use vstd::prelude::*;

verus! {

/// The window after `x` arrives: the oldest entry leaves once `max`
/// entries are held.
pub open spec fn window_after<T>(s: Seq<T>, x: T, max: nat) -> Seq<T> {
    if s.len() >= max {
        s.drop_first().push(x)
    } else {
        s.push(x)
    }
}

/// Append `x`, first dropping the oldest entry when `max` entries are held.
pub fn push_bounded<T>(v: &mut Vec<T>, x: T, max: usize)
    requires
        max >= 1,
    ensures
        final(v)@ == window_after(old(v)@, x, max as nat),
{
    if v.len() >= max {
        v.remove(0);
    }
    v.push(x);
}

/// A window never grows past its bound: starting from at most `max`
/// entries (and `max` at least one), it holds at most `max` after an
/// arrival, the newest last, and the entries it keeps in their order.
pub proof fn lemma_window_bounded<T>(s: Seq<T>, x: T, max: nat)
    requires
        max >= 1,
        s.len() <= max,
    ensures
        window_after(s, x, max).len() <= max,
        window_after(s, x, max).last() == x,
        window_after(s, x, max).drop_last() == (if s.len() == max { s.drop_first() } else { s }),
{
    let w = window_after(s, x, max);
    if s.len() == max {
        assert(w.drop_last() =~= s.drop_first());
    } else {
        assert(w.drop_last() =~= s);
    }
}

/// Whether an entry's key differs from `k`.
pub open spec fn other_key<V>(k: Seq<char>) -> spec_fn((String, V)) -> bool {
    |e: (String, V)| e.0@ != k
}

/// The entries of `s` whose key is not `k`, in order.
pub open spec fn without_key<V>(s: Seq<(String, V)>, k: Seq<char>) -> Seq<(String, V)> {
    s.filter(other_key(k))
}

/// Set the entry for `key`: every earlier entry with that key goes, the
/// new one comes last.
pub fn replace_keyed<V>(v: &mut Vec<(String, V)>, key: String, val: V)
    ensures
        final(v)@ == without_key(old(v)@, key@).push((key, val)),
{
    let ghost orig = v@;
    let mut taken: Vec<(String, V)> = Vec::new();
    std::mem::swap(v, &mut taken);
    let mut kept: Vec<(String, V)> = Vec::new();
    let ghost mut i: int = 0;
    proof {
        reveal(Seq::filter);
        assert(orig.take(0) =~= Seq::<(String, V)>::empty());
        assert(orig.skip(0) =~= orig);
    }
    while taken.len() > 0
        invariant
            0 <= i <= orig.len(),
            taken@ == orig.skip(i),
            kept@ == orig.take(i).filter(other_key(key@)),
        decreases taken@.len(),
    {
        let e = taken.remove(0);
        proof {
            assert(orig.take(i + 1) =~= orig.take(i).push(e));
            orig.take(i).lemma_filter_push(e, other_key(key@));
            assert(taken@ =~= orig.skip(i + 1));
        }
        let same = e.0 == key;
        if !same {
            kept.push(e);
        }
        proof {
            i = i + 1;
        }
    }
    proof {
        assert(orig.take(i) =~= orig);
    }
    kept.push((key, val));
    *v = kept;
}

/// After setting a key, it has exactly one entry, the last, holding the
/// new value; the other entries are those of other keys, in their order.
pub proof fn lemma_replace_keyed<V>(s: Seq<(String, V)>, key: String, val: V)
    ensures
        ({
            let r = without_key(s, key@).push((key, val));
            &&& r.last() == (key, val)
            &&& forall|j: int| 0 <= j < r.len() - 1 ==> (#[trigger] r[j]).0@ != key@
            &&& forall|e: (String, V)| e.0@ != key@ ==> (s.contains(e) <==> r.contains(e))
        }),
{
    let f = other_key::<V>(key@);
    let w = without_key(s, key@);
    let r = w.push((key, val));
    assert forall|j: int| 0 <= j < r.len() - 1 implies (#[trigger] r[j]).0@ != key@ by {
        assert(r[j] == w[j]);
        assert(w.contains(w[j]));
        s.lemma_filter_contains_rev(f, w[j]);
        s.lemma_filter_pred(f, j);
    }
    assert forall|e: (String, V)| e.0@ != key@ implies (s.contains(e) <==> r.contains(e)) by {
        if s.contains(e) {
            let j = choose|j: int| 0 <= j < s.len() && s[j] == e;
            s.lemma_filter_contains(f, j);
            let m = choose|m: int| 0 <= m < w.len() && w[m] == e;
            assert(r[m] == e);
        }
        if r.contains(e) {
            let m = choose|m: int| 0 <= m < r.len() && r[m] == e;
            if m < w.len() {
                assert(w[m] == e);
                assert(w.contains(e));
                s.lemma_filter_contains_rev(f, e);
            } else {
                assert(r[m] == (key, val));
            }
        }
    }
}

} // verus!
