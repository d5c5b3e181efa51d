//! When the analyser has a full window to transform: the sample bookkeeping around the FFT.
use vstd::prelude::*;

verus! {

/// What taking one more sample does to a window of `filled` samples: the window grows by one,
/// and once it holds `fft_size` samples it is analysed and the oldest `hop` samples leave it.
pub open spec fn step(filled: nat, fft_size: nat, hop: nat) -> (nat, bool) {
    if filled + 1 < fft_size {
        ((filled + 1) as nat, false)
    } else {
        ((filled + 1 - hop) as nat, true)
    }
}

/// How many samples the window holds after `k` samples, starting empty.
pub open spec fn filled_after(k: nat, fft_size: nat, hop: nat) -> nat
    decreases k,
{
    if k == 0 {
        0
    } else {
        step(filled_after((k - 1) as nat, fft_size, hop), fft_size, hop).0
    }
}

/// Whether the `k`-th sample (counting from 1) completes a window that is analysed.
pub open spec fn analysed_at(k: nat, fft_size: nat, hop: nat) -> bool {
    k >= 1 && step(filled_after((k - 1) as nat, fft_size, hop), fft_size, hop).1
}

/// Takes one sample into a window of `filled` samples: the new fill, and whether the window is
/// analysed now (after which `hop` samples have left it).
pub fn window_step(filled: usize, fft_size: usize, hop: usize) -> (r: (usize, bool))
    requires
        1 <= hop <= fft_size,
        filled < fft_size,
    ensures
        r.0 as nat == step(filled as nat, fft_size as nat, hop as nat).0,
        r.1 == step(filled as nat, fft_size as nat, hop as nat).1,
        r.0 < fft_size,
{
    if filled + 1 < fft_size {
        (filled + 1, false)
    } else {
        (filled + 1 - hop, true)
    }
}

proof fn lemma_mod_next(x: int, d: int)
    requires
        x >= 0,
        d >= 1,
    ensures
        x % d + 1 < d ==> (x + 1) % d == x % d + 1,
        x % d + 1 >= d ==> (x + 1) % d == 0,
{
    vstd::arithmetic::div_mod::lemma_fundamental_div_mod(x, d);
    let q = x / d;
    let r = x % d;
    assert(d * q == q * d) by (nonlinear_arith);
    if r + 1 < d {
        vstd::arithmetic::div_mod::lemma_fundamental_div_mod_converse(x + 1, d, q, r + 1);
    } else {
        assert((q + 1) * d == q * d + d) by (nonlinear_arith);
        vstd::arithmetic::div_mod::lemma_fundamental_div_mod_converse(x + 1, d, q + 1, 0);
    }
}

proof fn lemma_filled_after(k: nat, fft_size: nat, hop: nat)
    requires
        1 <= hop <= fft_size,
    ensures
        filled_after(k, fft_size, hop) == (if k < fft_size {
            k as int
        } else {
            fft_size - hop + (k - fft_size) % (hop as int)
        }),
    decreases k,
{
    if k > 0 {
        let j = (k - 1) as nat;
        lemma_filled_after(j, fft_size, hop);
        if j >= fft_size {
            lemma_mod_next(j - fft_size, hop as int);
        } else {
            vstd::arithmetic::div_mod::lemma_small_mod(0, hop);
        }
    }
}

/// Starting from an empty window, the `k`-th sample is analysed exactly when `k` is the FFT size
/// or lies a whole number of hops beyond it: a hop equal to the FFT size analyses each window
/// once, half of it twice as often.
pub proof fn lemma_analysed_every_hop(k: nat, fft_size: nat, hop: nat)
    requires
        1 <= hop <= fft_size,
        k >= 1,
    ensures
        filled_after((k - 1) as nat, fft_size, hop) < fft_size,
        analysed_at(k, fft_size, hop) <==> (k >= fft_size && (k - fft_size) % (hop as int) == 0),
{
    let j = (k - 1) as nat;
    lemma_filled_after(j, fft_size, hop);
    if j >= fft_size {
        lemma_mod_next(j - fft_size, hop as int);
    } else {
        vstd::arithmetic::div_mod::lemma_small_mod(0, hop);
    }
}

} // verus!
