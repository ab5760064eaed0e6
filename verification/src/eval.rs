//! Evaluation of coefficient sequences: Horner's rule in the field agrees
//! with Horner's rule over the integers reduced once, and a blinding
//! `(r0 + r1 X) (X^n - 1)` leaves the value at every `n`-th root of unity
//! unchanged.
use crate::basic_block::data::{blinded, trim};
use crate::basic_block::transpose::fpow;
use crate::field::{fadd, fmul, fsub, modulus};
use crate::poly::poly_eval;
use vstd::arithmetic::div_mod::{lemma_add_mod_noop, lemma_add_mod_noop_right, lemma_mul_mod_noop_general, lemma_small_mod, lemma_sub_mod_noop};
use vstd::prelude::*;

verus! {

/// Horner's rule over the integers, without reduction.
pub open spec fn heval(c: Seq<int>, x: int) -> int
    decreases c.len(),
{
    if c.len() == 0 {
        0
    } else {
        heval(c.drop_first(), x) * x + c[0]
    }
}

/// A sequence of naturals read as integers.
pub open spec fn as_ints(c: Seq<nat>) -> Seq<int> {
    c.map_values(|v: nat| v as int)
}

/// The modulus as an integer.
pub open spec fn pm() -> int {
    modulus() as int
}

/// `x^k` over the integers.
pub open spec fn ipow(x: int, k: nat) -> int
    decreases k,
{
    if k == 0 {
        1
    } else {
        x * ipow(x, (k - 1) as nat)
    }
}

/// Zero and one are their own remainders.
proof fn lemma_small_rems()
    ensures
        pm() > 1,
        0int % pm() == 0,
        1int % pm() == 1,
{
    lemma_small_mod(0, modulus());
    lemma_small_mod(1, modulus());
}

/// Two integers that differ by a multiple of the modulus leave the same
/// remainder.
proof fn lemma_same_rem(a: int, b: int)
    requires
        (a - b) % pm() == 0,
    ensures
        a % pm() == b % pm(),
{
    lemma_small_rems();
    lemma_sub_mod_noop(a, b, pm());
}

/// The field value is the integer value reduced.
proof fn lemma_eval_mod(c: Seq<nat>, x: nat)
    ensures
        poly_eval(c, x) == heval(as_ints(c), x as int) % pm(),
    decreases c.len(),
{
    lemma_small_rems();
    if c.len() > 0 {
        lemma_eval_mod(c.drop_first(), x);
        assert(as_ints(c).drop_first() =~= as_ints(c.drop_first()));
        let h = heval(as_ints(c.drop_first()), x as int);
        lemma_mul_mod_noop_general(h, x as int, pm());
        lemma_add_mod_noop_right(c[0] as int, h * x, pm());
        assert(poly_eval(c, x) == ((c[0] as int) + (h * x) % pm()) % pm());
    }
}

/// Sequences that agree entry by entry modulo the modulus have values
/// that agree modulo the modulus.
proof fn lemma_heval_congruent(a: Seq<int>, b: Seq<int>, x: int)
    requires
        a.len() == b.len(),
        forall|i: int| 0 <= i < a.len() ==> (#[trigger] a[i] - b[i]) % pm() == 0,
    ensures
        (heval(a, x) - heval(b, x)) % pm() == 0,
    decreases a.len(),
{
    lemma_small_rems();
    if a.len() > 0 {
        lemma_heval_congruent(a.drop_first(), b.drop_first(), x);
        let (ha, hb) = (heval(a.drop_first(), x), heval(b.drop_first(), x));
        let d = ha - hb;
        assert(heval(a, x) - heval(b, x) == d * x + (a[0] - b[0])) by (nonlinear_arith)
            requires
                heval(a, x) == ha * x + a[0],
                heval(b, x) == hb * x + b[0],
                d == ha - hb,
        ;
        lemma_mul_mod_noop_general(d, x, pm());
        assert((0 * x) % pm() == 0);
        lemma_add_mod_noop(d * x, a[0] - b[0], pm());
    }
}

/// The value of an entrywise `u + v - w` is `u + v - w` of the values.
proof fn lemma_heval_linear(d: Seq<int>, u: Seq<int>, v: Seq<int>, w: Seq<int>, x: int)
    requires
        d.len() == u.len() == v.len() == w.len(),
        forall|i: int| 0 <= i < d.len() ==> #[trigger] d[i] == u[i] + v[i] - w[i],
    ensures
        heval(d, x) == heval(u, x) + heval(v, x) - heval(w, x),
    decreases d.len(),
{
    if d.len() > 0 {
        lemma_heval_linear(d.drop_first(), u.drop_first(), v.drop_first(), w.drop_first(), x);
        let (hd, hu, hv, hw) = (heval(d.drop_first(), x), heval(u.drop_first(), x), heval(v.drop_first(), x), heval(w.drop_first(), x));
        assert(hd * x == hu * x + hv * x - hw * x) by (nonlinear_arith)
            requires
                hd == hu + hv - hw,
        ;
    }
}

/// Zeros after the first `k` entries do not change the value.
proof fn lemma_heval_trailing(s: Seq<int>, k: nat, x: int)
    requires
        k <= s.len(),
        forall|i: int| k <= i < s.len() ==> #[trigger] s[i] == 0,
    ensures
        heval(s, x) == heval(s.take(k as int), x),
    decreases s.len(),
{
    if s.len() > 0 {
        if k == 0 {
            lemma_heval_trailing(s.drop_first(), 0, x);
            assert(s.drop_first().take(0) =~= Seq::<int>::empty());
            assert(s.take(0) =~= Seq::<int>::empty());
        } else {
            lemma_heval_trailing(s.drop_first(), (k - 1) as nat, x);
            assert(s.take(k as int).drop_first() =~= s.drop_first().take(k - 1));
        }
    } else {
        assert(s.take(k as int) =~= s);
    }
}

/// `k` leading zeros multiply the value by `x^k`.
proof fn lemma_heval_shift(s: Seq<int>, k: nat, x: int)
    requires
        k <= s.len(),
        forall|i: int| 0 <= i < k ==> #[trigger] s[i] == 0,
    ensures
        heval(s, x) == heval(s.skip(k as int), x) * ipow(x, k),
    decreases k,
{
    if k == 0 {
        assert(s.skip(0) =~= s);
    } else {
        lemma_heval_shift(s.drop_first(), (k - 1) as nat, x);
        assert(s.drop_first().skip(k - 1) =~= s.skip(k as int));
        let h = heval(s.skip(k as int), x);
        let q = ipow(x, (k - 1) as nat);
        assert(ipow(x, k) == x * q);
        assert((h * q) * x == h * (x * q)) by (nonlinear_arith);
    }
}

/// The field power is the integer power reduced.
proof fn lemma_fpow_mod(x: nat, n: nat)
    ensures
        fpow(x, n) == ipow(x as int, n) % pm(),
    decreases n,
{
    lemma_small_rems();
    if n > 0 {
        lemma_fpow_mod(x, (n - 1) as nat);
        let q = ipow(x as int, (n - 1) as nat);
        lemma_mul_mod_noop_general(q, x as int, pm());
        assert(q * (x as int) == (x as int) * q) by (nonlinear_arith);
    } else {
    }
}

/// Trailing zeros do not change the value in the field.
pub proof fn lemma_eval_trim(s: Seq<nat>, x: nat)
    ensures
        poly_eval(trim(s), x) == poly_eval(s, x),
    decreases s.len(),
{
    if s.len() > 0 && s.last() == 0 {
        lemma_eval_trim(s.drop_last(), x);
        lemma_eval_mod(s, x);
        lemma_eval_mod(s.drop_last(), x);
        lemma_heval_trailing(as_ints(s), (s.len() - 1) as nat, x as int);
        assert(as_ints(s).take(s.len() - 1) =~= as_ints(s.drop_last()));
    }
}

/// At a point `x` with `x^n = 1`, the blinded coefficients of `f` (of `n`
/// coefficients), without their trailing zeros, take the value of `f`:
/// the blinding `(r0 + r1 X) (X^n - 1)` vanishes there.
pub proof fn lemma_blinded_eval(f: Seq<nat>, n: nat, r0: nat, r1: nat, x: nat)
    requires
        f.len() == n,
        n >= 1,
        fpow(x, n) == 1,
    ensures
        poly_eval(trim(blinded(f, n, r0, r1)), x) == poly_eval(f, x),
{
    lemma_small_rems();
    let b = blinded(f, n, r0, r1);
    let len = n + 2;
    let xi = x as int;
    let cext = Seq::new(len, |i: int| if i < n { f[i] as int } else { 0int });
    let hi = Seq::new(len, |i: int| if i == n { r0 as int } else if i == n + 1 { r1 as int } else { 0int });
    let lo = Seq::new(len, |i: int| if i == 0 { r0 as int } else if i == 1 { r1 as int } else { 0int });
    let d = Seq::new(len, |i: int| cext[i] + hi[i] - lo[i]);
    // The blinded coefficients agree with d modulo the modulus.
    assert forall|i: int| 0 <= i < len implies (#[trigger] as_ints(b)[i] - d[i]) % pm() == 0 by {
        let c = if i < n { f[i] } else { 0 };
        let h: nat = if i == n { r0 } else if i == n + 1 { r1 } else { 0 };
        let l: nat = if i == 0 { r0 } else if i == 1 { r1 } else { 0 };
        assert(b[i] == fadd(c, fsub(h, l)));
        lemma_add_mod_noop_right(c as int, (h as int) - (l as int), pm());
        assert(fsub(h, l) == ((h as int) - (l as int)) % pm());
        assert(as_ints(b)[i] == (c as int + ((h as int) - (l as int)) % pm()) % pm());
        assert(d[i] == c as int + (h as int) - (l as int));
        lemma_same_rem(as_ints(b)[i], d[i]);
        assert(((d[i] % pm()) - d[i]) % pm() == 0) by {
            lemma_sub_mod_noop(d[i] % pm(), d[i], pm());
        }
        assert((as_ints(b)[i] - d[i]) % pm() == 0);
    }
    lemma_heval_congruent(as_ints(b), d, xi);
    lemma_heval_linear(d, cext, hi, lo, xi);
    // The extended coefficients of f take the value of f.
    lemma_heval_trailing(cext, n, xi);
    assert(cext.take(n as int) =~= as_ints(f));
    // The high part is X^n (r0 + r1 X), the low part r0 + r1 X.
    lemma_heval_shift(hi, n, xi);
    let two = seq![r0 as int, r1 as int];
    assert(hi.skip(n as int) =~= two);
    lemma_heval_trailing(lo, 2, xi);
    assert(lo.take(2) =~= two);
    let t = heval(two, xi);
    let pw = ipow(xi, n);
    lemma_fpow_mod(x, n);
    assert((pw - 1) % pm() == 0) by {
        lemma_sub_mod_noop(pw, 1, pm());
    }
    assert(heval(hi, xi) - heval(lo, xi) == (pw - 1) * t) by (nonlinear_arith)
        requires
            heval(hi, xi) == t * pw,
            heval(lo, xi) == t,
    ;
    lemma_mul_mod_noop_general(pw - 1, t, pm());
    assert((0 * t) % pm() == 0);
    // So the blinded value is that of f.
    let (hb, hf) = (heval(as_ints(b), xi), heval(as_ints(f), xi));
    assert(hb - hf == (hb - heval(d, xi)) + (heval(hi, xi) - heval(lo, xi)));
    lemma_add_mod_noop(hb - heval(d, xi), heval(hi, xi) - heval(lo, xi), pm());
    lemma_same_rem(hb, hf);
    lemma_eval_mod(b, x);
    lemma_eval_mod(f, x);
    lemma_eval_trim(b, x);
}

} // verus!
