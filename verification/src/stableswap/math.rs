//! The stableswap invariant `D`, the reserve `Y` that keeps it, and the
//! trades and share amounts that follow from them.
//!
//! Both are found by Newton's iteration on integers of 256 bits. Every
//! division rounds down, and each step adds two to make up for it. An
//! iteration that has not converged after the given number of steps returns
//! what it has reached.

use crate::fixed::Permill;
use crate::fixed::PERMILL_DIV;
use crate::types::Balance;
use crate::wide::diff_256;
use crate::wide::lemma_mul_fits_256;
use crate::wide::lemma_mul_le;
use crate::wide::narrow_128;
use crate::wide::pow2_128;
use crate::wide::pow2_64;
use crate::wide::prod_256;
use crate::wide::quot_256;
use crate::wide::sum_256;
use crate::wide::U256;
use vstd::arithmetic::power::pow;
use vstd::multiset::Multiset;
use vstd::prelude::*;

verus! {

/// `s` with `x` put before the first element that is not below it.
pub open spec fn insert_sorted(s: Seq<Balance>, x: Balance) -> Seq<Balance>
    decreases s.len(),
{
    if s.len() == 0 || x <= s[0] {
        seq![x] + s
    } else {
        seq![s[0]] + insert_sorted(s.drop_first(), x)
    }
}

/// The reserves that are not zero, in ascending order.
pub open spec fn sorted_nonzero(xp: Seq<Balance>) -> Seq<Balance>
    decreases xp.len(),
{
    if xp.len() == 0 {
        Seq::empty()
    } else if xp.last() == 0 {
        sorted_nonzero(xp.drop_last())
    } else {
        insert_sorted(sorted_nonzero(xp.drop_last()), xp.last())
    }
}

/// Whether `s` ascends.
pub open spec fn ascending(s: Seq<Balance>) -> bool {
    forall|i: int, j: int| 0 <= i <= j < s.len() ==> s[i] <= s[j]
}

/// The sum of the reserves.
pub open spec fn total(xs: Seq<Balance>) -> int
    decreases xs.len(),
{
    if xs.len() == 0 {
        0
    } else {
        total(xs.drop_last()) + xs.last()
    }
}

/// Inserting at the first place where the next element is not smaller is
/// what `insert_sorted` does.
proof fn lemma_insert_at(s: Seq<Balance>, x: Balance, j: int)
    requires
        0 <= j <= s.len(),
        forall|k: int| 0 <= k < j ==> s[k] < x,
        j == s.len() || x <= s[j],
    ensures
        insert_sorted(s, x) == s.insert(j, x),
    decreases s.len(),
{
    if s.len() == 0 || x <= s[0] {
        assert(j == 0);
        assert(seq![x] + s =~= s.insert(0, x));
    } else {
        lemma_insert_at(s.drop_first(), x, j - 1);
        assert(seq![s[0]] + s.drop_first().insert(j - 1, x) =~= s.insert(j, x));
    }
}

/// Inserting into an ascending sequence of positive reserves keeps it so, and
/// adds the new reserve to the content.
proof fn lemma_insert_sorted(s: Seq<Balance>, x: Balance)
    requires
        ascending(s),
        forall|i: int| 0 <= i < s.len() ==> s[i] > 0,
        x > 0,
    ensures
        ascending(insert_sorted(s, x)),
        insert_sorted(s, x).len() == s.len() + 1,
        forall|i: int| 0 <= i < s.len() + 1 ==> insert_sorted(s, x)[i] > 0,
        insert_sorted(s, x).to_multiset() == s.to_multiset().insert(x),
        total(insert_sorted(s, x)) == total(s) + x,
    decreases s.len(),
{
    let r = insert_sorted(s, x);
    if s.len() == 0 || x <= s[0] {
        assert(r == seq![x] + s);
        assert forall|i: int, j: int| 0 <= i <= j < r.len() implies r[i] <= r[j] by {
            if i > 0 {
                assert(r[i] == s[i - 1] && r[j] == s[j - 1]);
            } else if j > 0 {
                assert(r[j] == s[j - 1]);
                assert(s[0] <= s[j - 1]);
            }
        }
        assert(r =~= s.insert(0, x));
        vstd::seq_lib::to_multiset_insert(s, 0, x);
        lemma_total_insert(s, 0, x);
    } else {
        let t = s.drop_first();
        assert(ascending(t)) by {
            assert forall|i: int, j: int| 0 <= i <= j < t.len() implies t[i] <= t[j] by {
                assert(t[i] == s[i + 1] && t[j] == s[j + 1]);
            }
        }
        assert forall|i: int| 0 <= i < t.len() implies t[i] > 0 by {
            assert(t[i] == s[i + 1]);
        }
        lemma_insert_sorted(t, x);
        let u = insert_sorted(t, x);
        assert(r == seq![s[0]] + u);
        // every element of `u` is `x` or an element of `t`, hence not below `s[0]`
        assert forall|i: int| 0 <= i < u.len() implies s[0] <= u[i] by {
            assert(u.to_multiset().count(u[i]) > 0) by {
                u.to_multiset_ensures();
                assert(u.contains(u[i]));
            }
            if u[i] != x {
                assert(t.to_multiset().count(u[i]) > 0);
                t.to_multiset_ensures();
                assert(t.contains(u[i]));
                let k = choose|k: int| 0 <= k < t.len() && t[k] == u[i];
                assert(t[k] == s[k + 1]);
            }
        }
        assert forall|i: int, j: int| 0 <= i <= j < r.len() implies r[i] <= r[j] by {
            if i > 0 {
                assert(r[i] == u[i - 1] && r[j] == u[j - 1]);
            } else if j > 0 {
                assert(r[j] == u[j - 1]);
            }
        }
        assert forall|i: int| 0 <= i < s.len() + 1 implies r[i] > 0 by {
            if i > 0 {
                assert(r[i] == u[i - 1]);
            }
        }
        assert(r =~= u.insert(0, s[0]));
        vstd::seq_lib::to_multiset_insert(u, 0, s[0]);
        assert(s =~= t.insert(0, s[0]));
        vstd::seq_lib::to_multiset_insert(t, 0, s[0]);
        assert(r.to_multiset() =~= s.to_multiset().insert(x));
        lemma_total_insert(u, 0, s[0]);
        lemma_total_insert(t, 0, s[0]);
    }
}

/// An element inserted anywhere adds itself to the sum.
proof fn lemma_total_insert(s: Seq<Balance>, j: int, x: Balance)
    requires
        0 <= j <= s.len(),
    ensures
        total(s.insert(j, x)) == total(s) + x,
    decreases s.len(),
{
    let r = s.insert(j, x);
    if j == s.len() {
        assert(r.drop_last() =~= s);
    } else {
        assert(r.drop_last() =~= s.drop_last().insert(j, x));
        lemma_total_insert(s.drop_last(), j, x);
    }
}

/// The reserves that are not zero, as a multiset.
pub open spec fn nonzero_content(xp: Seq<Balance>) -> Multiset<Balance> {
    xp.to_multiset().filter(|x: Balance| x != 0)
}

/// `sorted_nonzero` gives the non-zero reserves, each as often as it occurs,
/// in ascending order. Its sum is that of all the reserves.
pub proof fn lemma_sorted_nonzero(xp: Seq<Balance>)
    ensures
        ascending(sorted_nonzero(xp)),
        forall|i: int| 0 <= i < sorted_nonzero(xp).len() ==> sorted_nonzero(xp)[i] > 0,
        sorted_nonzero(xp).to_multiset() == nonzero_content(xp),
        sorted_nonzero(xp).len() <= xp.len(),
        total(sorted_nonzero(xp)) == total(xp),
    decreases xp.len(),
{
    let f = |x: Balance| x != 0;
    if xp.len() == 0 {
        assert(xp.to_multiset() =~= Multiset::empty()) by {
            xp.to_multiset_ensures();
        }
        assert(sorted_nonzero(xp).to_multiset() =~= Multiset::empty()) by {
            sorted_nonzero(xp).to_multiset_ensures();
        }
        assert(nonzero_content(xp) =~= Multiset::empty());
    } else {
        let rest = xp.drop_last();
        lemma_sorted_nonzero(rest);
        assert(xp =~= rest.push(xp.last()));
        rest.to_multiset_ensures();
        assert(xp.to_multiset() == rest.to_multiset().insert(xp.last()));
        if xp.last() == 0 {
            assert(nonzero_content(xp) =~= nonzero_content(rest));
        } else {
            lemma_insert_sorted(sorted_nonzero(rest), xp.last());
            assert(nonzero_content(xp) =~= nonzero_content(rest).insert(xp.last()));
        }
    }
}

/// Reserves that differ only in their order, or in reserves of zero, sort to
/// the same sequence.
pub proof fn lemma_sorted_nonzero_of_same_content(xp: Seq<Balance>, yp: Seq<Balance>)
    requires
        nonzero_content(xp) == nonzero_content(yp),
    ensures
        sorted_nonzero(xp) == sorted_nonzero(yp),
{
    let leq = |a: Balance, b: Balance| a <= b;
    let x = sorted_nonzero(xp);
    let y = sorted_nonzero(yp);
    lemma_sorted_nonzero(xp);
    lemma_sorted_nonzero(yp);
    assert(vstd::relations::total_ordering(leq));
    assert(vstd::relations::sorted_by(x, leq));
    assert(vstd::relations::sorted_by(y, leq));
    vstd::seq_lib::lemma_sorted_unique(x, y, leq);
}

/// The sum of reserves is less than their number times 2^128.
proof fn lemma_total_bound(xs: Seq<Balance>)
    ensures
        0 <= total(xs) <= xs.len() * (pow2_128() - 1),
    decreases xs.len(),
{
    if xs.len() > 0 {
        lemma_total_bound(xs.drop_last());
        assert(xs.len() * (pow2_128() - 1) == (xs.len() - 1) * (pow2_128() - 1) + (pow2_128() - 1))
            by (nonlinear_arith);
    } else {
        assert(xs.len() * (pow2_128() - 1) == 0) by (nonlinear_arith)
            requires
                xs.len() == 0,
        ;
    }
}

/// The non-zero reserves in ascending order.
fn sort_nonzero(xp: &[Balance]) -> (r: Vec<Balance>)
    ensures
        r@ == sorted_nonzero(xp@),
{
    let mut v: Vec<Balance> = Vec::new();
    let mut i: usize = 0;
    assert(xp@.take(0) =~= Seq::empty());
    while i < xp.len()
        invariant
            i <= xp.len(),
            v@ == sorted_nonzero(xp@.take(i as int)),
        decreases xp.len() - i,
    {
        let x = xp[i];
        proof {
            assert(xp@.take(i + 1).drop_last() =~= xp@.take(i as int));
            assert(xp@.take(i + 1).last() == x);
        }
        if x != 0 {
            let mut j: usize = 0;
            while j < v.len() && v[j] < x
                invariant
                    j <= v.len(),
                    forall|k: int| 0 <= k < j ==> v@[k] < x,
                decreases v.len() - j,
            {
                j += 1;
            }
            proof {
                lemma_insert_at(v@, x, j as int);
            }
            v.insert(j, x);
        }
        i += 1;
    }
    assert(xp@.take(xp.len() as int) =~= xp@);
    v
}

/// The amplification times `n^n`, for `n` assets: `None` when it does not
/// fit in 128 bits.
pub open spec fn amplified(len: nat, amplification: Balance) -> Option<int> {
    if amplification * pow(len as int, len) <= u128::MAX {
        Some(amplification * pow(len as int, len))
    } else {
        None
    }
}

/// amplification * n^n where n is number of assets in pool.
pub(crate) fn calculate_ann(len: usize, amplification: Balance) -> (r: Option<Balance>)
    ensures
        r.is_some() == amplified(len as nat, amplification).is_some(),
        r.is_some() ==> r.unwrap() == amplified(len as nat, amplification).unwrap(),
{
    let mut acc: Balance = amplification;
    let mut i: usize = 0;
    proof {
        vstd::arithmetic::power::lemma_pow0(len as int);
    }
    while i < len
        invariant
            i <= len,
            acc == amplification * pow(len as int, i as nat),
        decreases len - i,
    {
        proof {
            // the next product, and that it does not exceed the last one
            vstd::arithmetic::power::lemma_pow_adds(len as int, i as nat, 1);
            vstd::arithmetic::power::lemma_pow1(len as int);
            vstd::arithmetic::power::lemma_pow_increases(len as nat, (i + 1) as nat, len as nat);
            vstd::arithmetic::power::lemma_pow_positive(len as int, (i + 1) as nat);
            assert(amplification * pow(len as int, (i + 1) as nat) == acc * len) by {
                vstd::arithmetic::mul::lemma_mul_is_associative(
                    amplification as int,
                    pow(len as int, i as nat),
                    len as int,
                );
            }
            lemma_mul_le(
                amplification as int,
                pow(len as int, (i + 1) as nat),
                amplification as int,
                pow(len as int, len as nat),
            );
        }
        acc = acc.checked_mul(len as u128)?;
        i += 1;
    }
    Some(acc)
}

/// Whether an iteration that went from `v0` to `v1` has come to rest: a step
/// down by less than `precision`, or a step up by no more than it.
pub open spec fn converged(v0: int, v1: int, precision: int) -> bool {
    (v1 <= v0 && v0 - v1 < precision) || (v1 > v0 && v1 - v0 <= precision)
}

/// Whether the step from `v0` to `v1` is within the precision.
fn has_converged(v0: U256, v1: U256, precision: U256) -> (r: bool)
    ensures
        r == converged(v0@, v1@, precision@),
{
    let diff = abs_diff(v0, v1);

    (v1.le(v0) && diff.lt(precision)) || (v0.lt(v1) && diff.le(precision))
}

/// The distance between two numbers.
fn abs_diff(d0: U256, d1: U256) -> (r: U256)
    ensures
        r@ == (if d1@ >= d0@ {
            d1@ - d0@
        } else {
            d0@ - d1@
        }),
{
    if d0.le(d1) {
        d1.saturating_sub(d0)
    } else {
        d0.saturating_sub(d1)
    }
}

/// One reserve's part in `D_p`: `acc * d / (x * n)`.
pub open spec fn share_step(acc: Option<int>, d: int, x: int, n: int) -> Option<int> {
    quot_256(prod_256(acc, Some(d)), prod_256(Some(x), Some(n)))
}

/// `D_p`: starting from `d`, for each reserve `x` in turn, times `d` and
/// divided by `x * n`.
pub open spec fn shares_product(xs: Seq<Balance>, d: int, n: int) -> Option<int>
    decreases xs.len(),
{
    if xs.len() == 0 {
        Some(d)
    } else {
        share_step(shares_product(xs.drop_last(), d, n), d, xs.last() as int, n)
    }
}

/// One Newton step for `D`:
/// `((ann * s + n * D_p) * d) / ((ann - 1) * d + (n + 1) * D_p) + 2`.
pub open spec fn d_next(xs: Seq<Balance>, ann: int, s: int, d: int) -> Option<int> {
    let n = xs.len() as int;
    let d_p = shares_product(xs, d, n);
    sum_256(
        quot_256(
            prod_256(sum_256(prod_256(Some(ann), Some(s)), prod_256(d_p, Some(n))), Some(d)),
            sum_256(
                prod_256(diff_256(Some(ann), Some(1)), Some(d)),
                prod_256(sum_256(Some(n), Some(1)), d_p),
            ),
        ),
        Some(2),
    )
}

/// Newton's iteration for `D` from `d`, for at most `steps` steps.
pub open spec fn d_newton(
    xs: Seq<Balance>,
    ann: int,
    s: int,
    d: int,
    steps: nat,
    precision: int,
) -> Option<int>
    decreases steps,
{
    if steps == 0 {
        narrow_128(Some(d))
    } else {
        let next = d_next(xs, ann, s, d);
        if next.is_none() {
            None
        } else if converged(d, next.unwrap(), precision) {
            narrow_128(next)
        } else {
            d_newton(xs, ann, s, next.unwrap(), (steps - 1) as nat, precision)
        }
    }
}

/// The invariant `D` of the reserves `xp`: see [`calculate_d`].
pub open spec fn d_invariant(
    xp: Seq<Balance>,
    amplification: Balance,
    precision: Balance,
    steps: nat,
) -> Option<int> {
    let xs = sorted_nonzero(xp);
    let ann = amplified(xs.len(), amplification);
    if ann.is_none() {
        None
    } else if total(xs) == 0 {
        Some(0)
    } else {
        d_newton(xs, ann.unwrap(), total(xs), total(xs), steps, precision as int)
    }
}

/// The invariant does not depend on the order of the reserves, nor on
/// reserves of zero.
pub proof fn lemma_d_of_same_content(
    xp: Seq<Balance>,
    yp: Seq<Balance>,
    amplification: Balance,
    precision: Balance,
    steps: nat,
)
    requires
        nonzero_content(xp) == nonzero_content(yp),
    ensures
        d_invariant(xp, amplification, precision, steps) == d_invariant(
            yp,
            amplification,
            precision,
            steps,
        ),
{
    lemma_sorted_nonzero_of_same_content(xp, yp);
}

/// An empty pool has the invariant zero, whatever the amplification.
pub proof fn lemma_d_of_nothing(
    xp: Seq<Balance>,
    amplification: Balance,
    precision: Balance,
    steps: nat,
)
    requires
        forall|i: int| 0 <= i < xp.len() ==> xp[i] == 0,
    ensures
        d_invariant(xp, amplification, precision, steps) == Some(0int),
{
    lemma_all_zero(xp);
    vstd::arithmetic::power::lemma_pow0(0);
}

/// Reserves that are all zero leave nothing after sorting.
proof fn lemma_all_zero(xp: Seq<Balance>)
    requires
        forall|i: int| 0 <= i < xp.len() ==> xp[i] == 0,
    ensures
        sorted_nonzero(xp) == Seq::<Balance>::empty(),
    decreases xp.len(),
{
    if xp.len() > 0 {
        lemma_all_zero(xp.drop_last());
    }
}

/// The sum of `xs` in 256 bits.
fn sum_reserves(xs: &Vec<Balance>) -> (r: U256)
    ensures
        r@ == total(xs@),
{
    let mut s_hp = U256::zero();
    let mut i: usize = 0;
    assert(xs@.take(0) =~= Seq::empty());
    while i < xs.len()
        invariant
            i <= xs.len(),
            s_hp@ == total(xs@.take(i as int)),
        decreases xs.len() - i,
    {
        proof {
            assert(xs@.take(i + 1).drop_last() =~= xs@.take(i as int));
            assert(xs@.take(i + 1).last() == xs@[i as int]);
            lemma_total_bound(xs@.take(i + 1));
            lemma_mul_le((i + 1) as int, pow2_128() - 1, pow2_64(), pow2_128() - 1);
        }
        let next = s_hp.checked_add(U256::from_u128(xs[i]));
        s_hp = next.unwrap();
        i += 1;
    }
    assert(xs@.take(xs.len() as int) =~= xs@);
    s_hp
}

/// `D_p` for the reserves `xs`, or for `n - 1` of `n` reserves.
fn calculate_shares_product(xs: &Vec<Balance>, d: U256, n: U256) -> (r: Option<U256>)
    requires
        n@ < pow2_128(),
    ensures
        r.is_some() == shares_product(xs@, d@, n@).is_some(),
        r.is_some() ==> r.unwrap()@ == shares_product(xs@, d@, n@).unwrap(),
{
    let mut acc = d;
    let mut i: usize = 0;
    assert(xs@.take(0) =~= Seq::empty());
    while i < xs.len()
        invariant
            i <= xs.len(),
            n@ < pow2_128(),
            shares_product(xs@.take(i as int), d@, n@) == Some(acc@),
        decreases xs.len() - i,
    {
        proof {
            assert(xs@.take(i + 1).drop_last() =~= xs@.take(i as int));
            assert(xs@.take(i + 1).last() == xs@[i as int]);
            lemma_mul_fits_256(xs@[i as int] as int, n@);
        }
        let divisor = U256::from_u128(xs[i]).checked_mul(n)?;
        let quotient = match acc.checked_mul(d) {
            Some(product) => product.checked_div(divisor),
            None => None,
        };
        match quotient {
            Some(q) => {
                acc = q;
            },
            None => {
                proof {
                    lemma_shares_product_none(xs@, d@, n@, i + 1);
                }
                return None;
            },
        }
        i += 1;
    }
    assert(xs@.take(xs.len() as int) =~= xs@);
    Some(acc)
}

/// Once `D_p` has failed on some of the reserves, it fails on all of them.
proof fn lemma_shares_product_none(xs: Seq<Balance>, d: int, n: int, k: int)
    requires
        0 <= k <= xs.len(),
        shares_product(xs.take(k), d, n).is_none(),
    ensures
        shares_product(xs, d, n).is_none(),
    decreases xs.len() - k,
{
    if k < xs.len() {
        assert(xs.take(k + 1).drop_last() =~= xs.take(k));
        lemma_shares_product_none(xs, d, n, k + 1);
    } else {
        assert(xs.take(k) =~= xs);
    }
}

/// One Newton step for `D`.
fn calculate_d_next(xs: &Vec<Balance>, ann: U256, s: U256, d: U256) -> (r: Option<U256>)
    ensures
        r.is_some() == d_next(xs@, ann@, s@, d@).is_some(),
        r.is_some() ==> r.unwrap()@ == d_next(xs@, ann@, s@, d@).unwrap(),
{
    let n_coins = U256::from_u128(xs.len() as u128);
    let d_p = calculate_shares_product(xs, d, n_coins)?;
    ann.checked_mul(s)?.checked_add(d_p.checked_mul(n_coins)?)?.checked_mul(d)?.checked_div(
        ann.checked_sub(U256::one())?.checked_mul(d)?.checked_add(
            n_coins.checked_add(U256::one())?.checked_mul(d_p)?,
        )?,
    )?.checked_add(U256::from_u128(2))
}

/// The invariant `D` of a pool with the reserves `xp`.
///
/// `D` solves `A n^n sum(x) + D = A n^n D + D^(n+1) / (n^n prod(x))`. Zero
/// reserves are left out. The iteration starts from the sum of the
/// reserves and takes at most `N` steps; `None` on any overflow.
pub fn calculate_d<const N: u8>(xp: &[Balance], amplification: Balance, precision: Balance) -> (r:
    Option<Balance>)
    ensures
        r.is_some() == d_invariant(xp@, amplification, precision, N as nat).is_some(),
        r.is_some() ==> r.unwrap() == d_invariant(xp@, amplification, precision, N as nat).unwrap(),
{
    let xs = sort_nonzero(xp);

    let ann = calculate_ann(xs.len(), amplification)?;

    let s_hp = sum_reserves(&xs);

    if s_hp.is_zero() {
        return Some(0);
    }
    let mut d = s_hp;

    let ann_hp = U256::from_u128(ann);
    let precision_hp = U256::from_u128(precision);

    let mut i: u8 = 0;
    while i < N
        invariant
            i <= N,
            xs@ == sorted_nonzero(xp@),
            amplified(xs@.len(), amplification) == Some(ann_hp@),
            s_hp@ == total(xs@),
            s_hp@ != 0,
            precision_hp@ == precision,
            d_newton(xs@, ann_hp@, s_hp@, d@, (N - i) as nat, precision_hp@) == d_newton(
                xs@,
                ann_hp@,
                s_hp@,
                s_hp@,
                N as nat,
                precision_hp@,
            ),
        decreases N - i,
    {
        let d_prev = d;
        d = calculate_d_next(&xs, ann_hp, s_hp, d)?;

        if has_converged(d_prev, d, precision_hp) {
            return d.to_u128();
        }
        i += 1;
    }
    d.to_u128()
}

/// One Newton step for `Y`: `(y^2 + c) / (2 y + b - d) + 2`.
pub open spec fn y_next(y: int, b: int, c: int, d: int) -> Option<int> {
    sum_256(
        quot_256(
            sum_256(prod_256(Some(y), Some(y)), Some(c)),
            diff_256(sum_256(prod_256(Some(2), Some(y)), Some(b)), Some(d)),
        ),
        Some(2),
    )
}

/// Newton's iteration for `Y` from `y`, for at most `steps` steps.
pub open spec fn y_newton(y: int, b: int, c: int, d: int, steps: nat, precision: int) -> Option<
    int,
>
    decreases steps,
{
    if steps == 0 {
        narrow_128(Some(y))
    } else {
        let next = y_next(y, b, c, d);
        if next.is_none() {
            None
        } else if converged(y, next.unwrap(), precision) {
            narrow_128(next)
        } else {
            y_newton(next.unwrap(), b, c, d, (steps - 1) as nat, precision)
        }
    }
}

/// The reserve `Y` that, with the reserves `xp` of the other assets, gives
/// the invariant `d`: see [`calculate_y`].
pub open spec fn y_reserve(
    xp: Seq<Balance>,
    d: Balance,
    amplification: Balance,
    precision: Balance,
    steps: nat,
) -> Option<int> {
    let xs = sorted_nonzero(xp);
    let n = xs.len() + 1;
    if n > usize::MAX {
        None
    } else {
        let ann = amplified(n, amplification);
        let c = quot_256(
            prod_256(shares_product(xs, d as int, n as int), Some(d as int)),
            prod_256(ann, Some(n as int)),
        );
        let b = sum_256(Some(total(xs)), quot_256(Some(d as int), ann));
        if c.is_none() || b.is_none() {
            None
        } else {
            y_newton(d as int, b.unwrap(), c.unwrap(), d as int, steps, precision as int)
        }
    }
}

/// One Newton step for `Y`.
fn calculate_y_next(y: U256, b: U256, c: U256, d: U256) -> (r: Option<U256>)
    ensures
        r.is_some() == y_next(y@, b@, c@, d@).is_some(),
        r.is_some() ==> r.unwrap()@ == y_next(y@, b@, c@, d@).unwrap(),
{
    let two_hp = U256::from_u128(2);
    y.checked_mul(y)?.checked_add(c)?.checked_div(
        two_hp.checked_mul(y)?.checked_add(b)?.checked_sub(d)?,
    )?.checked_add(two_hp)
}

/// The reserve of one asset that keeps the invariant at `d`, given the
/// reserves `xp` of all the others.
///
/// `Y` solves the invariant's equation for the one reserve left out, with
/// `b = sum(xp) + d / ann` and `c = d^(n+1) / (n^n prod(xp) ann)`. The
/// iteration starts from `d` and takes at most `N` steps; `None` on any
/// overflow.
#[verifier::loop_isolation(false)]
pub(crate) fn calculate_y<const N: u8>(
    xp: &[Balance],
    d: Balance,
    amplification: Balance,
    precision: Balance,
) -> (r: Option<Balance>)
    ensures
        r.is_some() == y_reserve(xp@, d, amplification, precision, N as nat).is_some(),
        r.is_some() ==> r.unwrap() == y_reserve(xp@, d, amplification, precision, N as nat).unwrap(),
{
    let xs = sort_nonzero(xp);

    let n = xs.len().checked_add(1)?;
    let ann = calculate_ann(n, amplification)?;

    let d_hp = U256::from_u128(d);
    let n_coins_hp = U256::from_u128(n as u128);
    let ann_hp = U256::from_u128(ann);
    let precision_hp = U256::from_u128(precision);

    let s_hp = sum_reserves(&xs);
    let mut c = calculate_shares_product(&xs, d_hp, n_coins_hp)?;

    proof {
        lemma_mul_fits_256(ann as int, n as int);
    }
    c = c.checked_mul(d_hp)?.checked_div(ann_hp.checked_mul(n_coins_hp)?)?;

    let b = s_hp.checked_add(d_hp.checked_div(ann_hp)?)?;
    let mut y = d_hp;

    let mut i: u8 = 0;
    while i < N
        invariant
            i <= N,
            precision_hp@ == precision,
            d_hp@ == d,
            y_newton(y@, b@, c@, d_hp@, (N - i) as nat, precision_hp@) == y_newton(
                d_hp@,
                b@,
                c@,
                d_hp@,
                N as nat,
                precision_hp@,
            ),
        decreases N - i,
    {
        let y_prev = y;
        y = calculate_y_next(y, b, c, d_hp)?;

        if has_converged(y_prev, y, precision_hp) {
            return y.to_u128();
        }
        i += 1;
    }
    y.to_u128()
}

/// `s` without its element at `j`; all of `s` if there is none.
pub open spec fn without(s: Seq<Balance>, j: int) -> Seq<Balance> {
    if 0 <= j < s.len() {
        s.remove(j)
    } else {
        s
    }
}

/// The reserves but the one at `skip`.
fn skip_index(reserves: &[Balance], skip: usize) -> (r: Vec<Balance>)
    ensures
        r@ == without(reserves@, skip as int),
{
    let mut v: Vec<Balance> = Vec::new();
    let mut i: usize = 0;
    while i < reserves.len()
        invariant
            i <= reserves.len(),
            v@ == without(reserves@.take(i as int), skip as int),
        decreases reserves.len() - i,
    {
        if i != skip {
            v.push(reserves[i]);
        }
        proof {
            let next = reserves@.take(i + 1);
            if i < skip {
                assert(next =~= reserves@.take(i as int).push(reserves@[i as int]));
            } else if i == skip {
                assert(next.remove(skip as int) =~= reserves@.take(i as int));
            } else {
                assert(next.remove(skip as int) =~= reserves@.take(i as int).remove(
                    skip as int,
                ).push(reserves@[i as int]));
            }
        }
        i += 1;
    }
    assert(reserves@.take(reserves.len() as int) =~= reserves@);
    v
}

/// The reserves with the one at `at` replaced by `value`.
fn with_replaced(reserves: &[Balance], at: usize, value: Balance) -> (r: Vec<Balance>)
    requires
        at < reserves.len(),
    ensures
        r@ == reserves@.update(at as int, value),
{
    let mut v: Vec<Balance> = Vec::new();
    let mut i: usize = 0;
    while i < reserves.len()
        invariant
            i <= reserves.len(),
            at < reserves.len(),
            v.len() == i,
            forall|k: int| 0 <= k < i ==> v@[k] == reserves@.update(at as int, value)[k],
        decreases reserves.len() - i,
    {
        v.push(
            if i == at {
                value
            } else {
                reserves[i]
            },
        );
        i += 1;
    }
    assert(v@ =~= reserves@.update(at as int, value));
    v
}

/// The reserve of the asset at `idx_out` after `amount` of the asset at
/// `idx_in` has come in: see [`calculate_y_given_in`].
pub open spec fn y_given_in(
    amount: Balance,
    idx_in: int,
    idx_out: int,
    balances: Seq<Balance>,
    amplification: Balance,
    precision: Balance,
    steps_d: nat,
    steps_y: nat,
) -> Option<int> {
    let d = d_invariant(balances, amplification, precision, steps_d);
    if idx_in > balances.len() || idx_out > balances.len() || balances[idx_in] + amount > u128::MAX
        || d.is_none() {
        None
    } else {
        y_reserve(
            without(balances.update(idx_in, (balances[idx_in] + amount) as u128), idx_out),
            d.unwrap() as u128,
            amplification,
            precision,
            steps_y,
        )
    }
}

/// The new reserve of the asset at `idx_out` that keeps the invariant when
/// `amount` is added to the reserve at `idx_in`. An index beyond the number
/// of assets gives `None`.
pub(crate) fn calculate_y_given_in<const N: u8, const N_Y: u8>(
    amount: Balance,
    idx_in: usize,
    idx_out: usize,
    balances: &[Balance],
    amplification: Balance,
    precision: Balance,
) -> (r: Option<Balance>)
    requires
        idx_in != balances.len(),
    ensures
        r.is_some() == y_given_in(
            amount,
            idx_in as int,
            idx_out as int,
            balances@,
            amplification,
            precision,
            N as nat,
            N_Y as nat,
        ).is_some(),
        r.is_some() ==> r.unwrap() == y_given_in(
            amount,
            idx_in as int,
            idx_out as int,
            balances@,
            amplification,
            precision,
            N as nat,
            N_Y as nat,
        ).unwrap(),
{
    if idx_in > balances.len() || idx_out > balances.len() {
        return None;
    }
    let new_reserve_in = balances[idx_in].checked_add(amount)?;

    let d = calculate_d::<N>(balances, amplification, precision)?;

    let replaced = with_replaced(balances, idx_in, new_reserve_in);
    let xp = skip_index(replaced.as_slice(), idx_out);

    calculate_y::<N_Y>(xp.as_slice(), d, amplification, precision)
}

/// The reserve of the asset at `idx_in` after `amount` of the asset at
/// `idx_out` has gone out: see [`calculate_y_given_out`].
pub open spec fn y_given_out(
    amount: Balance,
    idx_in: int,
    idx_out: int,
    balances: Seq<Balance>,
    amplification: Balance,
    precision: Balance,
    steps_d: nat,
    steps_y: nat,
) -> Option<int> {
    let d = d_invariant(balances, amplification, precision, steps_d);
    if idx_in > balances.len() || idx_out > balances.len() || balances[idx_out] < amount
        || d.is_none() {
        None
    } else {
        y_reserve(
            without(balances.update(idx_out, (balances[idx_out] - amount) as u128), idx_in),
            d.unwrap() as u128,
            amplification,
            precision,
            steps_y,
        )
    }
}

/// Calculate new amount of reserve IN given amount to be withdrawn from the pool
pub(crate) fn calculate_y_given_out<const N: u8, const N_Y: u8>(
    amount: Balance,
    idx_in: usize,
    idx_out: usize,
    balances: &[Balance],
    amplification: Balance,
    precision: Balance,
) -> (r: Option<Balance>)
    requires
        idx_out != balances.len(),
    ensures
        r.is_some() == y_given_out(
            amount,
            idx_in as int,
            idx_out as int,
            balances@,
            amplification,
            precision,
            N as nat,
            N_Y as nat,
        ).is_some(),
        r.is_some() ==> r.unwrap() == y_given_out(
            amount,
            idx_in as int,
            idx_out as int,
            balances@,
            amplification,
            precision,
            N as nat,
            N_Y as nat,
        ).unwrap(),
{
    if idx_in > balances.len() || idx_out > balances.len() {
        return None;
    }
    let new_reserve_out = balances[idx_out].checked_sub(amount)?;

    let d = calculate_d::<N>(balances, amplification, precision)?;
    let replaced = with_replaced(balances, idx_out, new_reserve_out);
    let xp = skip_index(replaced.as_slice(), idx_in);

    calculate_y::<N_Y>(xp.as_slice(), d, amplification, precision)
}

/// What a trader receives for `amount_in`: see [`calculate_out_given_in`].
pub open spec fn out_given_in(
    balances: Seq<Balance>,
    idx_in: int,
    idx_out: int,
    amount_in: Balance,
    amplification: Balance,
    precision: Balance,
    steps_d: nat,
    steps_y: nat,
) -> Option<int> {
    let y = y_given_in(
        amount_in,
        idx_in,
        idx_out,
        balances,
        amplification,
        precision,
        steps_d,
        steps_y,
    );
    if y.is_none() || balances[idx_out] < y.unwrap() {
        None
    } else {
        Some(balances[idx_out] - y.unwrap())
    }
}

/// Calculating amount to be received from the pool given the amount to be sent to the pool and both reserves.
/// N - number of iterations to use for Newton's formula to calculate parameter D ( it should be >=1 otherwise it wont converge at all and will always fail
/// N_Y - number of iterations to use for Newton's formula to calculate reserve Y ( it should be >=1 otherwise it wont converge at all and will always fail
///
/// The amount is what the reserve at `idx_out` exceeds the reserve that
/// keeps the invariant once `amount_in` has been added at `idx_in`.
pub fn calculate_out_given_in<const N: u8, const N_Y: u8>(
    balances: &[Balance],
    idx_in: usize,
    idx_out: usize,
    amount_in: Balance,
    amplification: Balance,
    precision: Balance,
) -> (r: Option<Balance>)
    requires
        idx_in != balances.len(),
        idx_out != balances.len(),
    ensures
        r.is_some() == out_given_in(
            balances@,
            idx_in as int,
            idx_out as int,
            amount_in,
            amplification,
            precision,
            N as nat,
            N_Y as nat,
        ).is_some(),
        r.is_some() ==> r.unwrap() == out_given_in(
            balances@,
            idx_in as int,
            idx_out as int,
            amount_in,
            amplification,
            precision,
            N as nat,
            N_Y as nat,
        ).unwrap(),
        r.is_some() ==> idx_out < balances.len() && r.unwrap() <= balances[idx_out as int],
{
    let new_reserve_out = calculate_y_given_in::<N, N_Y>(
        amount_in,
        idx_in,
        idx_out,
        balances,
        amplification,
        precision,
    )?;
    balances[idx_out].checked_sub(new_reserve_out)
}

/// What a trader pays for `amount_out`: see [`calculate_in_given_out`].
pub open spec fn in_given_out(
    balances: Seq<Balance>,
    idx_in: int,
    idx_out: int,
    amount_out: Balance,
    amplification: Balance,
    precision: Balance,
    steps_d: nat,
    steps_y: nat,
) -> Option<int> {
    let y = y_given_out(
        amount_out,
        idx_in,
        idx_out,
        balances,
        amplification,
        precision,
        steps_d,
        steps_y,
    );
    if y.is_none() || y.unwrap() < balances[idx_in] {
        None
    } else {
        Some(y.unwrap() - balances[idx_in])
    }
}

/// Calculating amount to be sent to the pool given the amount to be received from the pool and both reserves.
/// N - number of iterations to use for Newton's formula ( it should be >=1 otherwise it wont converge at all and will always fail
/// N_Y - number of iterations to use for Newton's formula to calculate reserve Y ( it should be >=1 otherwise it wont converge at all and will always fail
///
/// The amount is what the reserve that keeps the invariant, once
/// `amount_out` has been taken at `idx_out`, exceeds the reserve at `idx_in`.
pub fn calculate_in_given_out<const N: u8, const N_Y: u8>(
    balances: &[Balance],
    idx_in: usize,
    idx_out: usize,
    amount_out: Balance,
    amplification: Balance,
    precision: Balance,
) -> (r: Option<Balance>)
    requires
        idx_in != balances.len(),
        idx_out != balances.len(),
    ensures
        r.is_some() == in_given_out(
            balances@,
            idx_in as int,
            idx_out as int,
            amount_out,
            amplification,
            precision,
            N as nat,
            N_Y as nat,
        ).is_some(),
        r.is_some() ==> r.unwrap() == in_given_out(
            balances@,
            idx_in as int,
            idx_out as int,
            amount_out,
            amplification,
            precision,
            N as nat,
            N_Y as nat,
        ).unwrap(),
{
    let new_reserve_in = calculate_y_given_out::<N, N_Y>(
        amount_out,
        idx_in,
        idx_out,
        balances,
        amplification,
        precision,
    )?;
    new_reserve_in.checked_sub(balances[idx_in])
}

/// The shares issued when the reserves go from `initial` to `updated`: see
/// [`calculate_shares`].
pub open spec fn shares_for(
    initial_reserves: Seq<Balance>,
    updated_reserves: Seq<Balance>,
    amplification: Balance,
    precision: Balance,
    share_issuance: Balance,
    steps: nat,
) -> Option<int> {
    let initial_d = d_invariant(initial_reserves, amplification, precision, steps);
    let updated = d_invariant(updated_reserves, amplification, precision, steps);
    if initial_d.is_none() || updated.is_none() || updated.unwrap() - 2 < initial_d.unwrap()
        || updated.unwrap() < 2 {
        None
    } else if share_issuance == 0 {
        Some(updated.unwrap() - 2)
    } else {
        narrow_128(
            quot_256(
                Some(share_issuance * (updated.unwrap() - 2 - initial_d.unwrap())),
                initial_d,
            ),
        )
    }
}

/// Calculate amount of shares to be given to LP after LP provided liquidity of some assets to the pool.
///
/// With `D0` the invariant before and `D1` the invariant after, less two so
/// that it is not above the true value: `D1` itself for the first liquidity,
/// else `issuance * (D1 - D0) / D0`. `None` if `D1` is below `D0`.
pub fn calculate_shares<const N: u8>(
    initial_reserves: &[Balance],
    updated_reserves: &[Balance],
    amplification: Balance,
    precision: Balance,
    share_issuance: Balance,
) -> (r: Option<Balance>)
    ensures
        r.is_some() == shares_for(
            initial_reserves@,
            updated_reserves@,
            amplification,
            precision,
            share_issuance,
            N as nat,
        ).is_some(),
        r.is_some() ==> r.unwrap() == shares_for(
            initial_reserves@,
            updated_reserves@,
            amplification,
            precision,
            share_issuance,
            N as nat,
        ).unwrap(),
{
    let initial_d = calculate_d::<N>(initial_reserves, amplification, precision)?;

    // We must make sure the updated_d is rounded *down* so that we are not giving the new position too many shares.
    // calculate_d can return a D value that is above the correct D value by up to 2, so we subtract 2.
    let updated_d = calculate_d::<N>(updated_reserves, amplification, precision)?.checked_sub(
        2_u128,
    )?;

    if updated_d < initial_d {
        return None;
    }
    if share_issuance == 0 {
        // if first liquidity added
        Some(updated_d)
    } else {
        proof {
            lemma_mul_fits_256(share_issuance as int, updated_d - initial_d);
        }
        let issuance_hp = U256::from_u128(share_issuance);
        let d_diff = U256::from_u128(updated_d - initial_d);
        let d0 = U256::from_u128(initial_d);
        let share_amount = issuance_hp.checked_mul(d_diff)?.checked_div(d0)?;
        share_amount.to_u128()
    }
}

/// A reserve less the fee on the part of it that a withdrawal of one asset
/// moves. With `d0` the invariant before and `d1` after, that part is
/// `reserve * d1 / d0 - y` for the asset withdrawn and
/// `reserve - reserve * d1 / d0` for every other.
pub open spec fn reduced_reserve(
    reserve: Balance,
    withdrawn: bool,
    d0: int,
    d1: int,
    y: int,
    fee: Permill,
) -> Option<int> {
    let scaled = quot_256(prod_256(Some(reserve as int), Some(d1)), Some(d0));
    let expected = narrow_128(
        if withdrawn {
            diff_256(scaled, Some(y))
        } else {
            diff_256(Some(reserve as int), scaled)
        },
    );
    if expected.is_none() || expected.unwrap() * fee@ / (PERMILL_DIV as int) > reserve {
        None
    } else {
        Some(reserve - expected.unwrap() * fee@ / (PERMILL_DIV as int))
    }
}

/// The first `k` reserves, each reduced by its fee.
pub open spec fn reduced_reserves(
    reserves: Seq<Balance>,
    asset_index: int,
    d0: int,
    d1: int,
    y: int,
    fee: Permill,
    k: nat,
) -> Option<Seq<Balance>>
    decreases k,
{
    if k == 0 {
        Some(Seq::empty())
    } else {
        let before = reduced_reserves(reserves, asset_index, d0, d1, y, fee, (k - 1) as nat);
        let this = reduced_reserve(reserves[k - 1], k - 1 == asset_index, d0, d1, y, fee);
        if before.is_none() || this.is_none() {
            None
        } else {
            Some(before.unwrap().push(this.unwrap() as u128))
        }
    }
}

/// Once reducing the reserves has failed on some of them, it fails on all.
proof fn lemma_reduced_reserves_none(
    reserves: Seq<Balance>,
    asset_index: int,
    d0: int,
    d1: int,
    y: int,
    fee: Permill,
    k: nat,
    n: nat,
)
    requires
        k <= n,
        reduced_reserves(reserves, asset_index, d0, d1, y, fee, k).is_none(),
    ensures
        reduced_reserves(reserves, asset_index, d0, d1, y, fee, n).is_none(),
    decreases n - k,
{
    if k < n {
        lemma_reduced_reserves_none(reserves, asset_index, d0, d1, y, fee, k + 1, n);
    }
}

/// What a withdrawal of one asset pays out, and the fee on it: see
/// [`calculate_withdraw_one_asset`].
pub open spec fn withdraw_one_asset(
    reserves: Seq<Balance>,
    shares: Balance,
    asset_index: int,
    share_asset_issuance: Balance,
    amplification: Balance,
    precision: Balance,
    fee: Permill,
    steps_d: nat,
    steps_y: nat,
) -> Option<(Balance, Balance)> {
    let d0 = d_invariant(reserves, amplification, precision, steps_d);
    let d1 = diff_256(
        d0,
        quot_256(prod_256(Some(shares as int), d0), Some(share_asset_issuance as int)),
    );
    if share_asset_issuance == 0 || asset_index >= reserves.len() || d1.is_none() {
        None
    } else {
        let y = y_reserve(
            without(reserves, asset_index),
            d1.unwrap() as u128,
            amplification,
            precision,
            steps_y,
        );
        if y.is_none() {
            None
        } else {
            let reduced = reduced_reserves(
                reserves,
                asset_index,
                d0.unwrap(),
                d1.unwrap(),
                y.unwrap(),
                fee,
                reserves.len(),
            );
            if reduced.is_none() {
                None
            } else {
                let y1 = y_reserve(
                    without(reduced.unwrap(), asset_index),
                    d1.unwrap() as u128,
                    amplification,
                    precision,
                    steps_y,
                );
                if y1.is_none() {
                    None
                } else {
                    let dy = reduced.unwrap()[asset_index] - y1.unwrap();
                    let dy_0 = reserves[asset_index] - y.unwrap();
                    if dy < 0 || dy_0 < dy {
                        None
                    } else {
                        Some((dy as u128, (dy_0 - dy) as u128))
                    }
                }
            }
        }
    }
}

/// One reserve less the fee on the part of it that the withdrawal moves.
fn reduce_reserve(reserve: Balance, withdrawn: bool, d0: U256, d1: U256, y: U256, fee: Permill) -> (r:
    Option<Balance>)
    requires
        fee.wf(),
    ensures
        r.is_some() == reduced_reserve(reserve, withdrawn, d0@, d1@, y@, fee).is_some(),
        r.is_some() ==> r.unwrap() == reduced_reserve(reserve, withdrawn, d0@, d1@, y@, fee).unwrap(),
{
    let reserve_hp = U256::from_u128(reserve);
    let scaled = reserve_hp.checked_mul(d1)?.checked_div(d0)?;
    let dx_expected = if withdrawn {
        // dx_expected = xp[j] * d1 / d0 - new_y
        scaled.checked_sub(y)?
    } else {
        // dx_expected = xp[j] - xp[j] * d1 / d0
        reserve_hp.checked_sub(scaled)?
    };
    let expected = dx_expected.to_u128()?;
    reserve.checked_sub(fee.mul_floor(expected))
}

/// Given amount of shares and asset reserves, calculate corresponding amount of selected asset to be withdrawn.
///
/// The shares are burnt for one asset alone. The invariant falls in the
/// proportion of the shares to the issuance; the asset's reserve that keeps
/// the lower invariant gives the payout before fees. The fee is charged on
/// what each reserve moves by, and the payout is found again on the reserves
/// so reduced. Returns the payout and the fee kept, which together are no
/// more than the pool holds of the asset. `None` where no shares are in
/// issue, where the index is not that of an asset of the pool, and on any
/// overflow.
#[verifier::loop_isolation(false)]
pub fn calculate_withdraw_one_asset<const N: u8, const N_Y: u8>(
    reserves: &[Balance],
    shares: Balance,
    asset_index: usize,
    share_asset_issuance: Balance,
    amplification: Balance,
    precision: Balance,
    fee: Permill,
) -> (r: Option<(Balance, Balance)>)
    requires
        fee.wf(),
    ensures
        r == withdraw_one_asset(
            reserves@,
            shares,
            asset_index as int,
            share_asset_issuance,
            amplification,
            precision,
            fee,
            N as nat,
            N_Y as nat,
        ),
        share_asset_issuance == 0 ==> r.is_none(),
        asset_index >= reserves.len() ==> r.is_none(),
        r.is_some() ==> r.unwrap().0 + r.unwrap().1 <= reserves[asset_index as int],
{
    if share_asset_issuance == 0 {
        return None;
    }
    if asset_index >= reserves.len() {
        return None;
    }
    let initial_d = calculate_d::<N>(reserves, amplification, precision)?;

    let shares_hp = U256::from_u128(shares);
    let issuance_hp = U256::from_u128(share_asset_issuance);
    let d_hp = U256::from_u128(initial_d);

    proof {
        lemma_mul_fits_256(shares as int, initial_d as int);
    }
    let d1 = d_hp.checked_sub(shares_hp.checked_mul(d_hp)?.checked_div(issuance_hp)?)?;
    let d1_balance = d1.to_u128()?;

    let xp = skip_index(reserves, asset_index);

    let y = calculate_y::<N_Y>(xp.as_slice(), d1_balance, amplification, precision)?;

    let y_hp = U256::from_u128(y);

    let mut reduced: Vec<Balance> = Vec::new();
    let mut idx: usize = 0;
    while idx < reserves.len()
        invariant
            idx <= reserves.len(),
            reduced_reserves(
                reserves@,
                asset_index as int,
                d_hp@,
                d1@,
                y_hp@,
                fee,
                idx as nat,
            ) == Some(reduced@),
        decreases reserves.len() - idx,
    {
        match reduce_reserve(reserves[idx], idx == asset_index, d_hp, d1, y_hp, fee) {
            Some(v) => {
                reduced.push(v);
            },
            None => {
                proof {
                    lemma_reduced_reserves_none(
                        reserves@,
                        asset_index as int,
                        d_hp@,
                        d1@,
                        y_hp@,
                        fee,
                        (idx + 1) as nat,
                        reserves@.len(),
                    );
                }
                return None;
            },
        }
        idx += 1;
    }
    proof {
        lemma_reduced_reserves_len(
            reserves@,
            asset_index as int,
            d_hp@,
            d1@,
            y_hp@,
            fee,
            reserves@.len(),
        );
    }
    let reserves_reduced = skip_index(reduced.as_slice(), asset_index);
    let asset_reserve = reduced[asset_index];

    let y1 = calculate_y::<N_Y>(reserves_reduced.as_slice(), d1_balance, amplification, precision)?;

    let dy = asset_reserve.checked_sub(y1)?;

    let dy_0 = reserves[asset_index].checked_sub(y)?;

    let fee = dy_0.checked_sub(dy)?;

    Some((dy, fee))
}

/// There are as many reduced reserves as reserves.
proof fn lemma_reduced_reserves_len(
    reserves: Seq<Balance>,
    asset_index: int,
    d0: int,
    d1: int,
    y: int,
    fee: Permill,
    k: nat,
)
    requires
        reduced_reserves(reserves, asset_index, d0, d1, y, fee, k).is_some(),
    ensures
        reduced_reserves(reserves, asset_index, d0, d1, y, fee, k).unwrap().len() == k,
    decreases k,
{
    if k > 0 {
        lemma_reduced_reserves_len(reserves, asset_index, d0, d1, y, fee, (k - 1) as nat);
    }
}

} // verus!
