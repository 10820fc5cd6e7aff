//! Rotating a ring of values to the left, one place at a time.
use vstd::prelude::*;
use vstd::arithmetic::div_mod::{lemma_add_mod_noop_right, lemma_mod_bound, lemma_small_mod};

verus! {

/// `s` rotated `k` places to the left: element `i` of the result is
/// element `(i + k) mod len` of `s`.
pub open spec fn rotated<T>(s: Seq<T>, k: int) -> Seq<T> {
    Seq::new(s.len(), |i: int| s[(i + k) % (s.len() as int)])
}

/// Rotating by zero places leaves a sequence as it is.
pub proof fn lemma_rotated_zero<T>(s: Seq<T>)
    ensures
        rotated(s, 0) == s,
{
    assert forall|i: int| 0 <= i < s.len() implies #[trigger] rotated(s, 0)[i] == s[i] by {
        lemma_small_mod(i as nat, s.len());
    }
    assert(rotated(s, 0) =~= s);
}

/// Moving the first element of a non-empty sequence to its end is a
/// rotation by one place.
pub proof fn lemma_rotated_one<T>(s: Seq<T>)
    requires
        s.len() > 0,
    ensures
        s.drop_first().push(s[0]) == rotated(s, 1),
{
    let n = s.len() as int;
    let t = s.drop_first().push(s[0]);
    assert forall|i: int| 0 <= i < n implies #[trigger] t[i] == rotated(s, 1)[i] by {
        if i + 1 < n {
            lemma_small_mod((i + 1) as nat, n as nat);
        } else {
            assert((i + 1) % n == 0) by {
                vstd::arithmetic::div_mod::lemma_mod_self_0(n);
            }
        }
    }
    assert(t =~= rotated(s, 1));
}

/// Rotating by `a` places and then by `b` places is rotating by `a + b`
/// places.
pub proof fn lemma_rotation_composes<T>(s: Seq<T>, a: int, b: int)
    requires
        0 <= a,
        0 <= b,
    ensures
        rotated(rotated(s, a), b) == rotated(s, a + b),
{
    let n = s.len() as int;
    if n > 0 {
        assert forall|i: int| 0 <= i < n implies #[trigger] rotated(rotated(s, a), b)[i]
            == rotated(s, a + b)[i] by {
            lemma_mod_bound(i + b, n);
            lemma_add_mod_noop_right(a, i + b, n);
            assert((a + (i + b)) == i + (a + b));
        }
    }
    assert(rotated(rotated(s, a), b) =~= rotated(s, a + b));
}

/// A rotation by the full length of a sequence gives the sequence back.
pub proof fn lemma_full_turn<T>(s: Seq<T>)
    ensures
        rotated(s, s.len() as int) == s,
{
    let n = s.len() as int;
    assert forall|i: int| 0 <= i < n implies #[trigger] rotated(s, n)[i] == s[i] by {
        vstd::arithmetic::div_mod::lemma_mod_add_multiples_vanish(i, n);
        lemma_small_mod(i as nat, n as nat);
    }
    assert(rotated(s, n) =~= s);
}

/// Looking values up and then rotating them gives what rotating the keys
/// and then looking them up gives, for the whole ring and for any prefix
/// of it.
pub proof fn lemma_lookup_commutes_with_rotation<A, B>(
    s: Seq<A>,
    f: spec_fn(A) -> B,
    k: int,
    n: int,
)
    requires
        0 <= n <= s.len(),
    ensures
        rotated(s.map_values(f), k) == rotated(s, k).map_values(f),
        rotated(s.map_values(f), k).take(n) == rotated(s, k).take(n).map_values(f),
{
    assert(rotated(s.map_values(f), k) =~= rotated(s, k).map_values(f));
    assert(rotated(s.map_values(f), k).take(n) =~= rotated(s, k).take(n).map_values(f));
}

/// A copy of `v`, element by element.
pub fn copy_vec<T: Copy>(v: &Vec<T>) -> (r: Vec<T>)
    ensures
        r@ == v@,
{
    let mut r: Vec<T> = Vec::new();
    let mut i: usize = 0;
    while i < v.len()
        invariant
            i <= v.len(),
            r@ == v@.subrange(0, i as int),
        decreases v.len() - i,
    {
        r.push(v[i]);
        i += 1;
        assert(r@ =~= v@.subrange(0, i as int));
    }
    assert(r@ =~= v@);
    r
}

/// Rotates `v` to the left by `*k` places, one place per step: each step
/// moves the first element to the end and takes one from `*k`. Returns a
/// copy of the rotated vector, which `v` also holds afterwards, and leaves
/// `*k` at zero.
pub fn rotate_left_by<T: Copy>(v: &mut Vec<T>, k: &mut i32) -> (r: Vec<T>)
    requires
        *old(k) >= 0,
        *old(k) > 0 ==> old(v).len() > 0,
    ensures
        r@ == rotated(old(v)@, *old(k) as int),
        final(v)@ == r@,
        *final(k) == 0,
    decreases *old(k),
{
    let ghost s0 = v@;
    let ghost k0 = *k as int;
    if *k == 0 {
        proof {
            lemma_rotated_zero(s0);
        }
        copy_vec(v)
    } else {
        let val = v.remove(0);
        v.push(val);
        *k += -1;
        proof {
            lemma_rotated_one(s0);
            assert(v@ =~= s0.drop_first().push(s0[0]));
            lemma_rotation_composes(s0, 1, k0 - 1);
        }
        rotate_left_by(v, k)
    }
}

} // verus!
