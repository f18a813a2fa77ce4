//! The read cursor of the analysis window.
//!
//! Each tick reads a window of `fft_size` samples and moves the cursor on by
//! the hop. Before reading, a cursor whose window would reach the end of the
//! signal goes back to the start: a hard wrap.

use vstd::prelude::*;
use vstd::arithmetic::div_mod::{lemma_fundamental_div_mod, lemma_small_mod,
    lemma_fundamental_div_mod_converse};

verus! {

/// The window fits the signal and the hop is shorter than the window.
pub open spec fn geometry_ok(fft_size: int, hop: int, len: int) -> bool {
    0 <= hop < fft_size <= len
}

/// Where the window of the next tick starts: at the cursor, or at the start
/// of the signal if the window would reach its end.
pub open spec fn window_start(position: int, fft_size: int, len: int) -> int {
    if position + fft_size >= len {
        0
    } else {
        position
    }
}

/// The cursor after one tick.
pub open spec fn next_position(position: int, fft_size: int, hop: int, len: int) -> int {
    window_start(position, fft_size, len) + hop
}

/// The cursor after `ticks` ticks.
pub open spec fn position_after(position: int, fft_size: int, hop: int, len: int, ticks: nat) -> int
    decreases ticks,
{
    if ticks == 0 {
        position
    } else {
        next_position(position_after(position, fft_size, hop, len, (ticks - 1) as nat), fft_size, hop, len)
    }
}

/// The number of distinct window starts: the cursor visits the multiples of
/// the hop whose window ends before the end of the signal, then wraps.
pub open spec fn wrap_period(fft_size: int, hop: int, len: int) -> int {
    if hop > 0 && len > fft_size {
        (len - fft_size - 1) / hop + 1
    } else {
        1
    }
}

/// A window never leaves the signal, and the cursor stays inside it: the
/// window starts at most `len - fft_size` samples in, and the cursor after
/// the tick is below `len`.
pub proof fn lemma_window_in_bounds(position: int, fft_size: int, hop: int, len: int)
    requires
        geometry_ok(fft_size, hop, len),
        0 <= position,
    ensures
        0 <= window_start(position, fft_size, len) <= len - fft_size,
        window_start(position, fft_size, len) == 0 || window_start(position, fft_size, len)
            + fft_size < len,
        0 <= next_position(position, fft_size, hop, len) < len,
{
}

/// The cursor stays inside the signal over any number of ticks, and the
/// window of every tick lies inside the signal: the cursor never passes
/// `len - fft_size` without going back to the start before the next read.
pub proof fn lemma_cursor_stays_in_signal(position: int, fft_size: int, hop: int, len: int, ticks: nat)
    requires
        geometry_ok(fft_size, hop, len),
        0 <= position < len,
    ensures
        0 <= position_after(position, fft_size, hop, len, ticks) < len,
        0 <= window_start(position_after(position, fft_size, hop, len, ticks), fft_size, len) <= len
            - fft_size,
    decreases ticks,
{
    if ticks > 0 {
        lemma_cursor_stays_in_signal(position, fft_size, hop, len, (ticks - 1) as nat);
        lemma_window_in_bounds(
            position_after(position, fft_size, hop, len, (ticks - 1) as nat),
            fft_size,
            hop,
            len,
        );
    }
}

/// The wrap period is positive, its last window start still has its window
/// end before the end of the signal, and one hop more would not.
pub proof fn lemma_wrap_period(fft_size: int, hop: int, len: int)
    requires
        geometry_ok(fft_size, hop, len),
    ensures
        wrap_period(fft_size, hop, len) >= 1,
        len > fft_size ==> (wrap_period(fft_size, hop, len) - 1) * hop + fft_size < len,
        hop > 0 ==> wrap_period(fft_size, hop, len) * hop + fft_size >= len,
{
    if hop > 0 && len > fft_size {
        let room = len - fft_size - 1;
        let q = room / hop;
        assert(0 <= q && q * hop <= room < (q + 1) * hop) by (nonlinear_arith)
            requires
                q == room / hop,
                hop > 0,
                room >= 0,
        ;
    } else if hop > 0 {
        assert(1 * hop + fft_size >= len);
    } else {
        assert((1 - 1) * hop == 0);
    }
}

/// Starting from the beginning of the signal, the cursor after `ticks >= 1`
/// ticks is `((ticks - 1) mod period + 1) * hop`: it walks the multiples of
/// the hop and goes back to the first after `period` ticks.
pub proof fn lemma_cursor_closed_form(fft_size: int, hop: int, len: int, ticks: nat)
    requires
        geometry_ok(fft_size, hop, len),
        ticks >= 1,
    ensures
        position_after(0, fft_size, hop, len, ticks) == ((ticks - 1) % wrap_period(
            fft_size,
            hop,
            len,
        ) + 1) * hop,
    decreases ticks,
{
    let m = wrap_period(fft_size, hop, len);
    lemma_wrap_period(fft_size, hop, len);
    if ticks == 1 {
        reveal_with_fuel(position_after, 2);
        lemma_small_mod(0, m as nat);
        assert((0 + 1) * hop == hop) by (nonlinear_arith);
    } else {
        let before = (ticks - 1) as nat;
        lemma_cursor_closed_form(fft_size, hop, len, before);
        let j = (before - 1) % m;
        let p = position_after(0, fft_size, hop, len, before);
        assert(p == (j + 1) * hop);
        lemma_fundamental_div_mod(before - 1, m);
        let q = (before - 1) / m;
        assert(0 <= j < m);
        if hop == 0 {
            assert((j + 1) * hop == 0) by (nonlinear_arith)
                requires
                    hop == 0,
            ;
            assert((((ticks - 1) % m) + 1) * hop == 0) by (nonlinear_arith)
                requires
                    hop == 0,
            ;
        } else if j + 1 < m {
            // no wrap: the window of the next tick starts at the cursor
            assert((j + 1) * hop <= (m - 1) * hop) by (nonlinear_arith)
                requires
                    j + 1 <= m - 1,
                    hop > 0,
            ;
            assert(len > fft_size);
            assert(p + fft_size < len);
            assert(before == q * m + (j + 1)) by (nonlinear_arith)
                requires
                    before - 1 == m * q + j,
            ;
            lemma_fundamental_div_mod_converse(before as int, m, q, j + 1);
            assert((ticks - 1) % m == j + 1);
            assert((j + 1) * hop + hop == (j + 2) * hop) by (nonlinear_arith);
        } else {
            // wrap: the cursor has reached the last window start of the period
            assert(j + 1 == m);
            assert(p + fft_size >= len);
            assert(before == (q + 1) * m + 0) by (nonlinear_arith)
                requires
                    before - 1 == m * q + j,
                    j + 1 == m,
            ;
            lemma_fundamental_div_mod_converse(before as int, m, q + 1, 0);
            assert((ticks - 1) % m == 0);
            assert((0 + 1) * hop == hop) by (nonlinear_arith);
        }
    }
}

} // verus!
