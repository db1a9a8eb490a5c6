//! The order of texts that keys are sorted in, and a sort by it.
use vstd::prelude::*;
use crate::text::str_chars;

verus! {

broadcast use vstd::string::group_string_axioms;

/// `a` sorts before `b`: compared character by character, by code point, a proper prefix
/// first. For UTF-8 text this is the order of `str`'s `<`.
pub open spec fn text_lt(a: Seq<char>, b: Seq<char>) -> bool
    decreases a.len(),
{
    if a.len() == 0 {
        b.len() > 0
    } else if b.len() == 0 {
        false
    } else if a[0] != b[0] {
        (a[0] as u32) < (b[0] as u32)
    } else {
        text_lt(a.drop_first(), b.drop_first())
    }
}

/// Appending one character to each of two texts of one length.
pub proof fn lemma_text_lt_push(x: Seq<char>, y: Seq<char>, c: char, d: char)
    requires
        x.len() == y.len(),
    ensures
        text_lt(x.push(c), y.push(d)) == (text_lt(x, y) || (x == y && (c as u32) < (d as u32))),
    decreases x.len(),
{
    if x.len() == 0 {
        assert(x.push(c).drop_first() =~= Seq::<char>::empty());
        assert(y.push(d).drop_first() =~= Seq::<char>::empty());
        assert(x =~= y);
        assert(!text_lt(Seq::<char>::empty(), Seq::<char>::empty()));
        assert(!text_lt(x, y));
    } else {
        assert(x.push(c).drop_first() =~= x.drop_first().push(c));
        assert(y.push(d).drop_first() =~= y.drop_first().push(d));
        lemma_text_lt_push(x.drop_first(), y.drop_first(), c, d);
        assert(x.push(c)[0] == x[0] && y.push(d)[0] == y[0]);
        if x[0] == y[0] && x.drop_first() == y.drop_first() {
            assert forall|k: int| 0 <= k < x.len() implies x[k] == y[k] by {
                if k > 0 {
                    assert(x[k] == x.drop_first()[k - 1]);
                    assert(y[k] == y.drop_first()[k - 1]);
                }
            }
            assert(x =~= y);
        }
        assert(text_lt(x, y) == if x[0] != y[0] {
            (x[0] as u32) < (y[0] as u32)
        } else {
            text_lt(x.drop_first(), y.drop_first())
        });
    }
}

/// `a` sorts before `b`; see `text_lt`.
pub fn text_less(a: &String, b: &String) -> (r: bool)
    ensures
        r == text_lt(a@, b@),
{
    let x = str_chars(a.as_str());
    let y = str_chars(b.as_str());
    let mut i: usize = 0;
    assert(x@.skip(0) =~= x@);
    assert(y@.skip(0) =~= y@);
    while i < x.len() && i < y.len()
        invariant
            x@ == a@,
            y@ == b@,
            i <= x@.len(),
            i <= y@.len(),
            forall|j: int| 0 <= j < i ==> x@[j] == y@[j],
            text_lt(a@, b@) == text_lt(x@.skip(i as int), y@.skip(i as int)),
        decreases x@.len() - i,
    {
        let ghost sx = x@.skip(i as int);
        let ghost sy = y@.skip(i as int);
        if x[i] != y[i] {
            assert(sx[0] == x@[i as int] && sy[0] == y@[i as int]);
            return (x[i] as u32) < (y[i] as u32);
        }
        assert(sx.drop_first() =~= x@.skip(i + 1));
        assert(sy.drop_first() =~= y@.skip(i + 1));
        i += 1;
    }
    i < y.len()
}

/// `text_lt` never holds both ways, and never of a text and itself.
pub proof fn lemma_text_lt_asym(a: Seq<char>, b: Seq<char>)
    ensures
        !(text_lt(a, b) && text_lt(b, a)),
        !text_lt(a, a),
    decreases a.len(),
{
    if a.len() > 0 && b.len() > 0 {
        lemma_text_lt_asym(a.drop_first(), b.drop_first());
    }
    if a.len() > 0 {
        lemma_text_lt_asym(a.drop_first(), a.drop_first());
    }
}

/// `text_lt` is transitive.
pub proof fn lemma_text_lt_trans(a: Seq<char>, b: Seq<char>, c: Seq<char>)
    requires
        text_lt(a, b),
        text_lt(b, c),
    ensures
        text_lt(a, c),
    decreases a.len(),
{
    if a.len() > 0 && b.len() > 0 && c.len() > 0 && a[0] == b[0] && b[0] == c[0] {
        lemma_text_lt_trans(a.drop_first(), b.drop_first(), c.drop_first());
    }
}

/// Two different texts are ordered one way or the other.
pub proof fn lemma_text_lt_total(a: Seq<char>, b: Seq<char>)
    ensures
        a == b || text_lt(a, b) || text_lt(b, a),
    decreases a.len(),
{
    if a.len() > 0 && b.len() > 0 && a[0] == b[0] {
        lemma_text_lt_total(a.drop_first(), b.drop_first());
        if a.drop_first() == b.drop_first() {
            assert(a =~= seq![a[0]] + a.drop_first());
            assert(b =~= seq![b[0]] + b.drop_first());
            assert(a == b);
        }
    } else if a.len() == 0 && b.len() == 0 {
        assert(a =~= b);
    } else if a.len() > 0 && b.len() > 0 {
        vstd::utf8::char_u32_cast(a[0], a[0] as u32);
        vstd::utf8::char_u32_cast(b[0], b[0] as u32);
        assert((a[0] as u32) != (b[0] as u32));
    }
}

/// A value that is sorted by a text key.
pub trait SortKey {
    /// The text the value sorts by.
    spec fn sort_key(&self) -> Seq<char>;

    /// The text the value sorts by.
    fn key_text(&self) -> (r: &String)
        ensures
            r@ == self.sort_key(),
    ;
}

/// The values are in key order: no value's key sorts before the key of one earlier.
pub open spec fn sorted_by_key<T: SortKey>(s: Seq<T>) -> bool {
    forall|i: int, j: int|
        0 <= i < j < s.len() ==> !text_lt(#[trigger] s[j].sort_key(), #[trigger] s[i].sort_key())
}

/// `r` holds the values of `v` rearranged by the positions `idx`: `r[i]` is `v[idx[i]]`, no
/// position is taken twice, and values with equal keys keep the order they had in `v`.
pub open spec fn stable_rearrangement<T: SortKey>(v: Seq<T>, r: Seq<T>, idx: Seq<int>) -> bool {
    &&& idx.len() == r.len() == v.len()
    &&& forall|i: int| 0 <= i < r.len() ==> 0 <= #[trigger] idx[i] < v.len() && r[i] == v[idx[i]]
    &&& forall|i: int, j: int| 0 <= i < j < r.len() ==> #[trigger] idx[i] != #[trigger] idx[j]
    &&& forall|i: int, j: int|
        0 <= i < j < r.len() && #[trigger] r[i].sort_key() == #[trigger] r[j].sort_key() ==> idx[i] < idx[j]
}

/// Puts the values in key order, by insertion. The values are the same ones, each as many
/// times, and values with equal keys keep the order they came in.
pub fn sort_by_key<T: SortKey>(v: Vec<T>) -> (r: Vec<T>)
    ensures
        r@.to_multiset() == v@.to_multiset(),
        sorted_by_key(r@),
        exists|idx: Seq<int>| stable_rearrangement(v@, r@, idx),
{
    broadcast use vstd::seq_lib::group_to_multiset_ensures, vstd::seq_lib::to_multiset_insert,
        vstd::multiset::group_multiset_axioms;

    let ghost vs = v@;
    let ghost n = v@.len();
    let mut rest = v;
    let mut out: Vec<T> = Vec::new();
    let ghost mut idx: Seq<int> = Seq::empty();
    proof { out@.to_multiset_ensures(); }
    assert(out@.to_multiset().len() == 0);
    assert(out@.to_multiset() =~= vstd::multiset::Multiset::empty());
    assert(rest@.to_multiset().add(out@.to_multiset()) =~= vs.to_multiset());
    assert(rest@ =~= vs.take(n as int));
    loop
        invariant
            rest@.to_multiset().add(out@.to_multiset()) == vs.to_multiset(),
            sorted_by_key(out@),
            n == vs.len(),
            vs == v@,
            rest@ == vs.take(rest@.len() as int),
            rest@.len() + out@.len() == n,
            idx.len() == out@.len(),
            forall|i: int| 0 <= i < out@.len() ==> rest@.len() <= #[trigger] idx[i] < n && out@[i] == vs[idx[i]],
            forall|i: int, j: int| 0 <= i < j < out@.len() ==> #[trigger] idx[i] != #[trigger] idx[j],
            forall|i: int, j: int|
                0 <= i < j < out@.len() && #[trigger] out@[i].sort_key() == #[trigger] out@[j].sort_key()
                    ==> idx[i] < idx[j],
        decreases rest@.len(),
    {
        let ghost before = rest@;
        let e = match rest.pop() {
            Some(e) => e,
            None => {
                assert(rest@ =~= Seq::<T>::empty());
                proof { rest@.to_multiset_ensures(); }
                assert(rest@.to_multiset().len() == 0);
                assert(rest@.to_multiset() =~= vstd::multiset::Multiset::empty());
                assert(out@.to_multiset() =~= vstd::multiset::Multiset::empty().add(
                    out@.to_multiset(),
                ));
                assert(stable_rearrangement(vs, out@, idx));
                return out;
            },
        };
        let ghost m = rest@.len() as int;
        assert(before =~= rest@.push(e));
        assert(rest@ =~= vs.take(m));
        assert(e == vs[m]);
        let mut p: usize = 0;
        while p < out.len() && text_less(out[p].key_text(), e.key_text())
            invariant
                p <= out@.len(),
                forall|i: int| 0 <= i < p ==> text_lt(#[trigger] out@[i].sort_key(), e.sort_key()),
            decreases out@.len() - p,
        {
            p += 1;
        }
        let ghost old_out = out@;
        let ghost old_idx = idx;
        proof {
            assert forall|i: int| p <= i < old_out.len() implies !text_lt(
                #[trigger] old_out[i].sort_key(),
                e.sort_key(),
            ) by {
                let kp = old_out[p as int].sort_key();
                let ki = old_out[i].sort_key();
                assert(!text_lt(kp, e.sort_key()));
                if i > p {
                    assert(!text_lt(ki, kp));
                    lemma_text_lt_total(e.sort_key(), kp);
                    if text_lt(ki, e.sort_key()) {
                        if text_lt(e.sort_key(), kp) {
                            lemma_text_lt_trans(ki, e.sort_key(), kp);
                        }
                    }
                }
            }
        }
        out.insert(p, e);
        proof {
            idx = old_idx.insert(p as int, m);
            vstd::seq_lib::to_multiset_build(rest@, e);
            vstd::seq_lib::to_multiset_insert(old_out, p as int, e);
            assert(before.to_multiset() =~= rest@.to_multiset().insert(e));
            assert(out@.to_multiset() =~= old_out.to_multiset().insert(e));
            assert(rest@.to_multiset().add(out@.to_multiset()) =~= before.to_multiset().add(
                old_out.to_multiset(),
            ));
            let s = out@;
            assert forall|i: int| 0 <= i < s.len() implies rest@.len() <= #[trigger] idx[i] < n && s[i] == vs[idx[i]] by {
                if i < p {
                    assert(s[i] == old_out[i] && idx[i] == old_idx[i]);
                } else if i > p {
                    assert(s[i] == old_out[i - 1] && idx[i] == old_idx[i - 1]);
                }
            }
            assert forall|i: int, j: int| 0 <= i < j < s.len() implies #[trigger] idx[i] != #[trigger] idx[j] by {
                if i < p && j > p {
                    assert(idx[i] == old_idx[i] && idx[j] == old_idx[j - 1]);
                } else if i < p && j < p {
                    assert(idx[i] == old_idx[i] && idx[j] == old_idx[j]);
                } else if i > p {
                    assert(idx[i] == old_idx[i - 1] && idx[j] == old_idx[j - 1]);
                } else if i == p {
                    assert(idx[j] == old_idx[j - 1]);
                } else {
                    assert(idx[i] == old_idx[i]);
                }
            }
            assert forall|i: int, j: int|
                0 <= i < j < s.len() && #[trigger] s[i].sort_key() == #[trigger] s[j].sort_key()
                    implies idx[i] < idx[j] by {
                if j == p {
                    assert(s[i] == old_out[i]);
                    lemma_text_lt_asym(e.sort_key(), e.sort_key());
                } else if i == p {
                    assert(idx[j] == old_idx[j - 1]);
                } else if j < p {
                    assert(s[i] == old_out[i] && s[j] == old_out[j]);
                    assert(idx[i] == old_idx[i] && idx[j] == old_idx[j]);
                } else if i < p {
                    assert(s[i] == old_out[i] && s[j] == old_out[j - 1]);
                    assert(idx[i] == old_idx[i] && idx[j] == old_idx[j - 1]);
                } else {
                    assert(s[i] == old_out[i - 1] && s[j] == old_out[j - 1]);
                    assert(idx[i] == old_idx[i - 1] && idx[j] == old_idx[j - 1]);
                }
            }
            assert forall|i: int, j: int| 0 <= i < j < s.len() implies !text_lt(
                #[trigger] s[j].sort_key(),
                #[trigger] s[i].sort_key(),
            ) by {
                if i < p && j == p {
                    assert(s[i] == old_out[i]);
                    lemma_text_lt_asym(old_out[i].sort_key(), e.sort_key());
                } else if i == p {
                    assert(s[j] == old_out[j - 1]);
                } else if j < p {
                    assert(s[i] == old_out[i] && s[j] == old_out[j]);
                } else if i < p {
                    assert(s[i] == old_out[i] && s[j] == old_out[j - 1]);
                    let ki = old_out[i].sort_key();
                    let kj = old_out[j - 1].sort_key();
                    assert(text_lt(ki, e.sort_key()));
                    assert(!text_lt(kj, e.sort_key()));
                    if text_lt(kj, ki) {
                        lemma_text_lt_trans(kj, ki, e.sort_key());
                    }
                } else {
                    assert(s[i] == old_out[i - 1] && s[j] == old_out[j - 1]);
                }
            }
        }
    }
}

} // verus!
