//! Elo ratings in whole numbers.
//!
//! With K = 32 and `E(x, y) = 1 / (1 + 10^((y - x) / 400))`, a winner rated
//! `w` beating a loser rated `l` moves both by `32 * E(w, l)`: the winner
//! gains it, the loser loses it, and each new rating is truncated toward
//! zero. `32 * E(w, l)` depends only on the gap `d = l - w`, and is at least
//! `n` exactly when `d <= 400 * log10(32 / n - 1)`. The tables below are those
//! bounds for `n = 1..31`, so the truncated ratings come out of integer
//! comparisons alone.

use vstd::prelude::*;

verus! {

/// The largest gap `d` at which `floor(32 * E)` is still at least `n`, for
/// `n = 1..31`.
pub open spec fn floor_bounds() -> Seq<int> {
    seq![
        596int, 470, 394, 338, 292, 254, 221, 190, 162, 136, 112, 88, 65, 43, 21, 0, -22, -44, -66,
        -89, -113, -137, -163, -191, -222, -255, -293, -339, -395, -471, -597,
    ]
}

/// The largest gap `d` at which `32 * E` still exceeds `n`, for `n = 1..31`.
/// It differs from `floor_bounds` only where `32 * E` is a whole number: at
/// `d = 0`, where it is exactly 16.
pub open spec fn ceil_bounds() -> Seq<int> {
    floor_bounds().update(15, -1)
}

/// How many of the bounds are at least `d`.
pub open spec fn count_at_least(t: Seq<int>, d: int) -> nat
    decreases t.len(),
{
    if t.len() == 0 {
        0
    } else {
        count_at_least(t.drop_last(), d) + if d <= t.last() {
            1nat
        } else {
            0nat
        }
    }
}

/// `floor(32 * E(w, l))` for the gap `d = l - w`.
pub open spec fn gain_floor(d: int) -> nat {
    count_at_least(floor_bounds(), d)
}

/// `ceil(32 * E(w, l))` for the gap `d = l - w`; never 0, as `E` is positive.
pub open spec fn gain_ceil(d: int) -> nat {
    1 + count_at_least(ceil_bounds(), d)
}

/// The winner's new rating: it gains `floor(32 * E)`, up to the largest
/// `usize`.
pub open spec fn elo_winner(w: nat, l: nat) -> nat {
    let g = w + gain_floor(l - w);
    if g > usize::MAX {
        usize::MAX as nat
    } else {
        g
    }
}

/// The loser's new rating: `l - 32 * E` truncated toward zero, and never
/// below 0.
pub open spec fn elo_loser(w: nat, l: nat) -> nat {
    let c = gain_ceil(l - w);
    if l >= c {
        (l - c) as nat
    } else {
        0
    }
}

/// The winner's win probability `E(winner, loser)` exceeds 0.6: the winner
/// leads by more than `400 * log10(1.5)`, about 70.4 points.
pub open spec fn exceeds_six_tenths(winner: int, loser: int) -> bool {
    winner - loser >= 71
}

/// The winner's win probability `E(winner, loser)` exceeds 0.4: the winner
/// trails by less than about 70.4 points.
pub open spec fn exceeds_four_tenths(winner: int, loser: int) -> bool {
    loser - winner <= 70
}

fn count_bounds(t: &[i128; 31], d: i128) -> (r: u64)
    requires
        forall|i: int| 0 <= i < 31 ==> -1000 <= #[trigger] t@[i] <= 1000,
    ensures
        r == count_at_least(Seq::new(31, |i: int| t@[i] as int), d as int),
        r <= 31,
{
    let ghost ts = Seq::new(31, |i: int| t@[i] as int);
    let mut acc: u64 = 0;
    let mut i: usize = 0;
    while i < 31
        invariant
            i <= 31,
            acc <= i,
            acc == count_at_least(ts.subrange(0, i as int), d as int),
            ts == Seq::new(31, |i: int| t@[i] as int),
        decreases 31 - i,
    {
        assert(ts.subrange(0, (i + 1) as int).drop_last() =~= ts.subrange(0, i as int));
        if d <= t[i] {
            acc = acc + 1;
        }
        i = i + 1;
    }
    assert(ts.subrange(0, 31) =~= ts);
    acc
}

/// The ratings of winner and loser after one game, truncated toward zero.
pub fn calculate_new_elo(winner_rating: usize, loser_rating: usize) -> (r: (usize, usize))
    ensures
        r.0 == elo_winner(winner_rating as nat, loser_rating as nat),
        r.1 == elo_loser(winner_rating as nat, loser_rating as nat),
{
    let floors: [i128; 31] = [
        596, 470, 394, 338, 292, 254, 221, 190, 162, 136, 112, 88, 65, 43, 21, 0, -22, -44, -66,
        -89, -113, -137, -163, -191, -222, -255, -293, -339, -395, -471, -597,
    ];
    let ceils: [i128; 31] = [
        596, 470, 394, 338, 292, 254, 221, 190, 162, 136, 112, 88, 65, 43, 21, -1, -22, -44, -66,
        -89, -113, -137, -163, -191, -222, -255, -293, -339, -395, -471, -597,
    ];
    assert(Seq::new(31, |i: int| floors@[i] as int) =~= floor_bounds());
    assert(Seq::new(31, |i: int| ceils@[i] as int) =~= ceil_bounds());
    let d: i128 = loser_rating as i128 - winner_rating as i128;
    let g = count_bounds(&floors, d) as usize;
    let c = 1 + count_bounds(&ceils, d) as usize;
    let w = if winner_rating > usize::MAX - g {
        usize::MAX
    } else {
        winner_rating + g
    };
    let l = if loser_rating >= c {
        loser_rating - c
    } else {
        0
    };
    (w, l)
}

/// Whether `E(winner, loser)` exceeds 0.6.
pub fn p_win_exceeds_six_tenths(winner: usize, loser: usize) -> (r: bool)
    ensures
        r == exceeds_six_tenths(winner as int, loser as int),
{
    winner >= loser && winner - loser >= 71
}

/// Whether `E(winner, loser)` exceeds 0.4.
pub fn p_win_exceeds_four_tenths(winner: usize, loser: usize) -> (r: bool)
    ensures
        r == exceeds_four_tenths(winner as int, loser as int),
{
    winner >= loser || loser - winner <= 70
}

} // verus!
