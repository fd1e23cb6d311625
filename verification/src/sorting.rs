//! Stable sorting by a total preorder.

use vstd::prelude::*;

verus! {

/// A total preorder on a type, with an executable comparison.
pub trait KeyOrder: Sized {
    /// `self` may come before `other`.
    spec fn key_le(self, other: Self) -> bool;

    proof fn lemma_total(a: Self, b: Self)
        ensures
            a.key_le(b) || b.key_le(a),
    ;

    proof fn lemma_trans(a: Self, b: Self, c: Self)
        requires
            a.key_le(b),
            b.key_le(c),
        ensures
            a.key_le(c),
    ;

    fn le(&self, other: &Self) -> (r: bool)
        ensures
            r == self.key_le(*other),
    ;
}

/// `s` is in non-decreasing order.
pub open spec fn sorted_by_key<T: KeyOrder>(s: Seq<T>) -> bool {
    forall|i: int, j: int| 0 <= i < j < s.len() ==> #[trigger] s[i].key_le(#[trigger] s[j])
}

/// `p` places the elements of `s` in the order of `r` (`r[k] == s[p[k]]`, each index
/// once), and two elements that compare equal keep their relative order.
pub open spec fn stable_arrangement<T: KeyOrder>(r: Seq<T>, s: Seq<T>, p: Seq<int>) -> bool {
    &&& p.len() == r.len()
    &&& r.len() == s.len()
    &&& forall|k: int| 0 <= k < r.len() ==> 0 <= #[trigger] p[k] < s.len() && r[k] == s[p[k]]
    &&& forall|k: int, l: int| 0 <= k < l < r.len() ==> #[trigger] p[k] != #[trigger] p[l]
    &&& forall|k: int, l: int|
        0 <= k < l < r.len() && (#[trigger] r[l]).key_le(#[trigger] r[k]) ==> p[k] < p[l]
}

/// `r` is the stable sort of `s`: sorted, and a rearrangement of `s` in which equal
/// elements keep their order.  (This determines `r` from `s`.)
pub open spec fn stable_sort_of<T: KeyOrder>(r: Seq<T>, s: Seq<T>) -> bool {
    sorted_by_key(r) && exists|p: Seq<int>| stable_arrangement(r, s, p)
}

/// The first position of `s` holding an element that must come after `x`
/// (`s.len()` when there is none).
pub open spec fn insertion_point<T: KeyOrder>(s: Seq<T>, x: T) -> int
    decreases s.len(),
{
    if s.len() == 0 {
        0
    } else if !s[0].key_le(x) {
        0
    } else {
        1 + insertion_point(s.drop_first(), x)
    }
}

/// The stable sort of `s`, element by element: each element goes after every earlier
/// element that does not compare above it.
pub open spec fn sorted_seq<T: KeyOrder>(s: Seq<T>) -> Seq<T>
    decreases s.len(),
{
    if s.len() == 0 {
        s
    } else {
        let prefix = sorted_seq(s.drop_last());
        prefix.insert(insertion_point(prefix, s.last()), s.last())
    }
}

pub proof fn lemma_insertion_point_bounds<T: KeyOrder>(s: Seq<T>, x: T)
    ensures
        0 <= insertion_point(s, x) <= s.len(),
    decreases s.len(),
{
    if s.len() > 0 && s[0].key_le(x) {
        lemma_insertion_point_bounds(s.drop_first(), x);
    }
}

pub proof fn lemma_sorted_seq_len<T: KeyOrder>(s: Seq<T>)
    ensures
        sorted_seq(s).len() == s.len(),
    decreases s.len(),
{
    if s.len() > 0 {
        lemma_sorted_seq_len(s.drop_last());
        lemma_insertion_point_bounds(sorted_seq(s.drop_last()), s.last());
    }
}

proof fn lemma_insertion_point<T: KeyOrder>(s: Seq<T>, x: T, pos: int)
    requires
        0 <= pos <= s.len(),
        forall|k: int| 0 <= k < pos ==> (#[trigger] s[k]).key_le(x),
        pos == s.len() || !s[pos].key_le(x),
    ensures
        insertion_point(s, x) == pos,
    decreases pos,
{
    if pos > 0 {
        assert(s[0].key_le(x));
        let t = s.drop_first();
        assert forall|k: int| 0 <= k < pos - 1 implies (#[trigger] t[k]).key_le(x) by {
            assert(t[k] == s[k + 1]);
        }
        lemma_insertion_point(t, x, pos - 1);
    }
}

/// What [`insertion_point`] finds: every element before it may come before `x`, the
/// element at it may not.
pub proof fn lemma_insertion_point_spec<T: KeyOrder>(s: Seq<T>, x: T)
    ensures
        0 <= insertion_point(s, x) <= s.len(),
        forall|k: int| 0 <= k < insertion_point(s, x) ==> (#[trigger] s[k]).key_le(x),
        insertion_point(s, x) < s.len() ==> !s[insertion_point(s, x)].key_le(x),
    decreases s.len(),
{
    if s.len() > 0 && s[0].key_le(x) {
        let t = s.drop_first();
        lemma_insertion_point_spec(t, x);
        assert forall|k: int| 0 <= k < insertion_point(s, x) implies (#[trigger] s[k]).key_le(x) by {
            if k > 0 {
                assert(s[k] == t[k - 1]);
            }
        }
        if insertion_point(s, x) < s.len() {
            assert(s[insertion_point(s, x)] == t[insertion_point(t, x)]);
        }
    }
}

/// The stable sort of a sequence is in order and holds the same elements.
pub proof fn lemma_sorted_seq_sorted<T: KeyOrder>(s: Seq<T>)
    ensures
        sorted_by_key(sorted_seq(s)),
        sorted_seq(s).to_multiset() == s.to_multiset(),
    decreases s.len(),
{
    broadcast use vstd::seq_lib::to_multiset_build, vstd::seq_lib::to_multiset_insert;

    if s.len() > 0 {
        let prefix = sorted_seq(s.drop_last());
        let x = s.last();
        lemma_sorted_seq_sorted(s.drop_last());
        lemma_insertion_point_spec(prefix, x);
        let pos = insertion_point(prefix, x);
        let out = prefix.insert(pos, x);
        assert(sorted_seq(s) == out);
        assert forall|a: int, b: int| 0 <= a < b < out.len() implies (#[trigger] out[a]).key_le(#[trigger] out[b]) by {
            if a < pos && b < pos {
                assert(prefix[a].key_le(prefix[b]));
            } else if a < pos && b == pos {
            } else if a < pos && b > pos {
                T::lemma_total(prefix[pos], x);
                if b - 1 > pos {
                    assert(prefix[pos].key_le(prefix[b - 1]));
                    if prefix[b - 1].key_le(x) {
                        T::lemma_trans(prefix[pos], prefix[b - 1], x);
                    }
                }
                T::lemma_total(prefix[b - 1], x);
                T::lemma_trans(prefix[a], x, prefix[b - 1]);
            } else if a == pos {
                T::lemma_total(prefix[pos], x);
                if b - 1 > pos {
                    assert(prefix[pos].key_le(prefix[b - 1]));
                    if prefix[b - 1].key_le(x) {
                        T::lemma_trans(prefix[pos], prefix[b - 1], x);
                    }
                }
                T::lemma_total(prefix[b - 1], x);
            } else {
                assert(prefix[a - 1].key_le(prefix[b - 1]));
            }
        }
        assert(s == s.drop_last().push(x));
    }
}

/// The stable sort of a sequence places each element of it once, and elements that
/// compare equal keep their order.
pub proof fn lemma_sorted_seq_stable<T: KeyOrder>(s: Seq<T>) -> (p: Seq<int>)
    ensures
        stable_arrangement(sorted_seq(s), s, p),
    decreases s.len(),
{
    if s.len() == 0 {
        Seq::empty()
    } else {
        let t = s.drop_last();
        let x = s.last();
        let i = t.len() as int;
        let old_p = lemma_sorted_seq_stable(t);
        lemma_sorted_seq_sorted(t);
        lemma_sorted_seq_len(t);
        let prefix = sorted_seq(t);
        lemma_insertion_point_spec(prefix, x);
        let pos = insertion_point(prefix, x);
        let out = prefix.insert(pos, x);
        assert(sorted_seq(s) == out);
        assert forall|k: int| pos <= k < prefix.len() implies !(#[trigger] prefix[k]).key_le(x) by {
            if k > pos {
                assert(prefix[pos].key_le(prefix[k]));
                if prefix[k].key_le(x) {
                    T::lemma_trans(prefix[pos], prefix[k], x);
                }
            }
        }
        let p = old_p.insert(pos, i);
        assert forall|k: int| 0 <= k < out.len() implies 0 <= #[trigger] p[k] < s.len() && out[k] == s[p[k]] by {
            if k < pos {
                assert(t[old_p[k]] == s[old_p[k]]);
            } else if k == pos {
            } else {
                assert(p[k] == old_p[k - 1]);
                assert(t[old_p[k - 1]] == s[old_p[k - 1]]);
            }
        }
        assert forall|a: int, b: int| 0 <= a < b < out.len() implies #[trigger] p[a] != #[trigger] p[b] by {
            if a == pos {
                assert(p[b] == old_p[b - 1]);
            } else if b == pos {
            } else if a < pos && b > pos {
                assert(p[b] == old_p[b - 1]);
            } else if a > pos {
                assert(p[a] == old_p[a - 1]);
                assert(p[b] == old_p[b - 1]);
            }
        }
        assert forall|a: int, b: int|
            0 <= a < b < out.len() && (#[trigger] out[b]).key_le(#[trigger] out[a]) implies p[a] < p[b] by {
            if a == pos {
                assert(!prefix[b - 1].key_le(x));
            } else if b == pos {
                assert(p[a] < i);
            } else if a < pos && b > pos {
                assert(p[b] == old_p[b - 1]);
                assert(prefix[b - 1].key_le(prefix[a]));
            } else if a > pos {
                assert(p[a] == old_p[a - 1]);
                assert(p[b] == old_p[b - 1]);
                assert(prefix[b - 1].key_le(prefix[a - 1]));
            }
        }
        p
    }
}

/// Sorts `v` stably (insertion sort).
pub fn stable_sort<T: KeyOrder>(v: Vec<T>) -> (r: Vec<T>)
    ensures
        stable_sort_of(r@, v@),
        r@ == sorted_seq(v@),
{
    let ghost s = v@;
    let mut input = v;
    let mut out: Vec<T> = Vec::new();
    let ghost mut p: Seq<int> = Seq::empty();
    while input.len() > 0
        invariant
            out@.len() + input@.len() == s.len(),
            input@ == s.subrange(out@.len() as int, s.len() as int),
            sorted_by_key(out@),
            p.len() == out@.len(),
            forall|k: int| 0 <= k < out@.len() ==> 0 <= #[trigger] p[k] < out@.len() && out@[k] == s[p[k]],
            forall|k: int, l: int| 0 <= k < l < out@.len() ==> #[trigger] p[k] != #[trigger] p[l],
            forall|k: int, l: int|
                0 <= k < l < out@.len() && (#[trigger] out@[l]).key_le(#[trigger] out@[k]) ==> p[k] < p[l],
            out@ == sorted_seq(s.subrange(0, out@.len() as int)),
        decreases input@.len(),
    {
        let ghost i = out@.len() as int;
        let x = input.remove(0);
        assert(x == s[i]);
        let mut pos: usize = 0;
        while pos < out.len() && out[pos].le(&x)
            invariant
                pos <= out@.len(),
                forall|k: int| 0 <= k < pos ==> (#[trigger] out@[k]).key_le(x),
            decreases out@.len() - pos,
        {
            pos += 1;
        }
        proof {
            assert forall|k: int| pos <= k < out@.len() implies !(#[trigger] out@[k]).key_le(x) && x.key_le(out@[k]) by {
                assert(!out@[pos as int].key_le(x));
                if k > pos {
                    assert(out@[pos as int].key_le(out@[k]));
                    if out@[k].key_le(x) {
                        T::lemma_trans(out@[pos as int], out@[k], x);
                    }
                }
                T::lemma_total(out@[k], x);
            }
        }
        let ghost old_out = out@;
        let ghost old_p = p;
        proof {
            lemma_insertion_point(old_out, x, pos as int);
            let t = s.subrange(0, i + 1);
            assert(t.drop_last() == s.subrange(0, i));
            assert(t.last() == x);
        }
        out.insert(pos, x);
        proof {
            p = old_p.insert(pos as int, i);
            assert forall|a: int, b: int| 0 <= a < b < out@.len() implies (#[trigger] out@[a]).key_le(#[trigger] out@[b]) by {
                if a < pos && b < pos {
                } else if a < pos && b == pos {
                } else if a < pos && b > pos {
                    assert(old_out[a].key_le(x));
                    assert(x.key_le(old_out[b - 1]));
                    T::lemma_trans(old_out[a], x, old_out[b - 1]);
                } else if a == pos {
                    assert(x.key_le(old_out[b - 1]));
                } else {
                    assert(old_out[a - 1].key_le(old_out[b - 1]));
                }
            }
            assert forall|k: int| 0 <= k < out@.len() implies 0 <= #[trigger] p[k] < out@.len() && out@[k] == s[p[k]] by {
                if k < pos {
                } else if k == pos {
                } else {
                    assert(p[k] == old_p[k - 1]);
                }
            }
            assert forall|a: int, b: int| 0 <= a < b < out@.len() implies #[trigger] p[a] != #[trigger] p[b] by {
                if a == pos {
                    assert(p[b] == old_p[b - 1]);
                } else if b == pos {
                } else if a < pos && b > pos {
                    assert(p[b] == old_p[b - 1]);
                } else if a > pos {
                    assert(p[a] == old_p[a - 1]);
                    assert(p[b] == old_p[b - 1]);
                }
            }
            assert forall|a: int, b: int|
                0 <= a < b < out@.len() && (#[trigger] out@[b]).key_le(#[trigger] out@[a]) implies p[a] < p[b] by {
                if a == pos {
                    assert(!old_out[b - 1].key_le(x));
                } else if b == pos {
                    assert(p[a] < i);
                } else if a < pos && b > pos {
                    assert(p[b] == old_p[b - 1]);
                    assert(old_out[b - 1].key_le(old_out[a]));
                } else if a > pos {
                    assert(p[a] == old_p[a - 1]);
                    assert(p[b] == old_p[b - 1]);
                    assert(old_out[b - 1].key_le(old_out[a - 1]));
                }
            }
        }
    }
    proof {
        assert(stable_arrangement(out@, s, p));
        assert(s.subrange(0, s.len() as int) == s);
    }
    out
}

} // verus!
