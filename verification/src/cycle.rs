//! Positions that go round and round.

use vstd::prelude::*;

verus! {

/// The remainder of `k` by `n`, from zero up to `n`.
pub fn wrap(k: i128, n: usize) -> (r: usize)
    requires
        n > 0,
        k > i128::MIN,
    ensures
        r == (k as int) % (n as int),
        r < n,
{
    let l: i128 = n as i128;
    if k >= 0 {
        (k % l) as usize
    } else {
        let m: i128 = (-k) % l;
        proof {
            let q = (-k) / (l as int);
            vstd::arithmetic::div_mod::lemma_fundamental_div_mod(-k as int, l as int);
            if m == 0 {
                assert(k == (-q) * l) by (nonlinear_arith)
                    requires
                        -k == l * q,
                ;
                vstd::arithmetic::div_mod::lemma_fundamental_div_mod_converse(
                    k as int,
                    l as int,
                    -q,
                    0,
                );
            } else {
                assert(k == (-q - 1) * l + (l - m)) by (nonlinear_arith)
                    requires
                        -k == l * q + m,
                ;
                vstd::arithmetic::div_mod::lemma_fundamental_div_mod_converse(
                    k as int,
                    l as int,
                    -q - 1,
                    l - m,
                );
            }
        }
        if m == 0 {
            0
        } else {
            (l - m) as usize
        }
    }
}

/// One step along a cycle of `n` positions leads to the neighbour, and from
/// either end to the other; `n` steps lead back.
pub proof fn lemma_steps(i: int, n: int)
    requires
        0 <= i < n,
    ensures
        (i + 1) % n == (if i == n - 1 {
            0
        } else {
            i + 1
        }),
        (i - 1) % n == (if i == 0 {
            n - 1
        } else {
            i - 1
        }),
        (i + n) % n == i,
{
    vstd::arithmetic::div_mod::lemma_fundamental_div_mod_converse(i + n, n, 1, i);
    if i == n - 1 {
        vstd::arithmetic::div_mod::lemma_fundamental_div_mod_converse(n, n, 1, 0);
    } else {
        vstd::arithmetic::div_mod::lemma_fundamental_div_mod_converse(i + 1, n, 0, i + 1);
    }
    if i == 0 {
        vstd::arithmetic::div_mod::lemma_fundamental_div_mod_converse(-1, n, -1, n - 1);
    } else {
        vstd::arithmetic::div_mod::lemma_fundamental_div_mod_converse(i - 1, n, 0, i - 1);
    }
}

/// Going `step` positions along a cycle of `n` and `step` back leads to the
/// position that one started from.
pub proof fn lemma_back(i: int, step: int, n: int)
    requires
        0 <= i < n,
    ensures
        0 <= (i + step) % n < n,
        ((i + step) % n - step) % n == i,
{
    let q = (i + step) / n;
    let r = (i + step) % n;
    vstd::arithmetic::div_mod::lemma_fundamental_div_mod(i + step, n);
    assert(r - step == (-q) * n + i) by (nonlinear_arith)
        requires
            i + step == n * q + r,
    ;
    vstd::arithmetic::div_mod::lemma_fundamental_div_mod_converse(r - step, n, -q, i);
}

/// One step further along a cycle, from wherever earlier steps led.
pub proof fn lemma_one_more(i: int, steps: int, n: int)
    requires
        0 < n,
    ensures
        0 <= (i + steps) % n < n,
        ((i + steps) % n + 1) % n == (i + (steps + 1)) % n,
{
    let q = (i + steps) / n;
    let r = (i + steps) % n;
    vstd::arithmetic::div_mod::lemma_fundamental_div_mod(i + steps, n);
    lemma_steps(r, n);
    if r == n - 1 {
        assert(i + steps + 1 == (q + 1) * n + 0) by (nonlinear_arith)
            requires
                i + steps == n * q + r,
                r == n - 1,
        ;
        vstd::arithmetic::div_mod::lemma_fundamental_div_mod_converse(i + steps + 1, n, q + 1, 0);
    } else {
        assert(i + steps + 1 == q * n + (r + 1)) by (nonlinear_arith)
            requires
                i + steps == n * q + r,
        ;
        vstd::arithmetic::div_mod::lemma_fundamental_div_mod_converse(i + steps + 1, n, q, r + 1);
    }
}

} // verus!
