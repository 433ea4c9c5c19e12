//! View state of the terminal screens: what is selected and how keys move it.

pub mod file_types;
pub mod flow;
pub mod fx;
pub mod help;
pub mod highlight;
pub mod home;
pub mod keys;
pub mod search;
pub mod result;
pub mod settings;
pub mod splash;
pub mod stats;
pub mod tree;
pub mod typing;

use vstd::prelude::*;

verus! {

/// The index `delta` steps from `selected` in a list of `len` entries,
/// wrapping around at both ends (`rem_euclid`).
pub fn wrap_move(selected: usize, delta: isize, len: usize) -> (next: usize)
    requires
        len > 0,
    ensures
        next == (selected + delta) % (len as int),
        next < len,
{
    let n = len as u128;
    let s0 = (selected as u128) % n;
    let ghost qs = selected as int / len as int;
    proof {
        vstd::arithmetic::div_mod::lemma_fundamental_div_mod(selected as int, len as int);
    }
    let next: u128;
    let ghost q: int;
    if delta >= 0 {
        let du = delta as u128;
        let d = du % n;
        let t = s0 + d;
        next = t % n;
        proof {
            let qd = du as int / len as int;
            let q2 = t as int / len as int;
            vstd::arithmetic::div_mod::lemma_fundamental_div_mod(du as int, len as int);
            vstd::arithmetic::div_mod::lemma_fundamental_div_mod(t as int, len as int);
            q = qs + qd + q2;
            assert(selected + delta == q * len + next) by (nonlinear_arith)
                requires
                    selected as int == len * qs + s0,
                    du as int == len * qd + d,
                    t as int == len * q2 + next,
                    t == s0 + d,
                    du == delta,
                    q == qs + qd + q2,
            ;
        }
    } else {
        let k = (-(delta + 1)) as u128;
        let m = k % n;
        let t = s0 + 2 * n - 1 - m;
        next = t % n;
        proof {
            let qk = k as int / len as int;
            let q2 = t as int / len as int;
            vstd::arithmetic::div_mod::lemma_fundamental_div_mod(k as int, len as int);
            vstd::arithmetic::div_mod::lemma_fundamental_div_mod(t as int, len as int);
            q = qs - qk + q2 - 2;
            assert(selected + delta == q * len + next) by (nonlinear_arith)
                requires
                    selected as int == len * qs + s0,
                    k as int == len * qk + m,
                    t as int == len * q2 + next,
                    t == s0 + 2 * len - 1 - m,
                    k == -(delta + 1),
                    q == qs - qk + q2 - 2,
            ;
        }
    }
    proof {
        vstd::arithmetic::div_mod::lemma_fundamental_div_mod_converse(
            selected + delta,
            len as int,
            q,
            next as int,
        );
    }
    next as usize
}

} // verus!
