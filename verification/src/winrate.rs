use vstd::prelude::*;

verus! {

/// One period's results for a hero: matches won and matches played.
pub struct HeroWinCount {
    pub win_count: u32,
    pub match_count: u32,
}

/// The payload of the weekly win-count query: one sample per week,
/// most recent first.
pub struct HeroStats {
    pub win_week: Vec<HeroWinCount>,
}

/// The whole decoded weekly win-count response.
pub struct DataGL {
    pub hero_stats: HeroStats,
}

/// Aggregation failure: the chosen window holds no matches at all, so a
/// win rate would be a division by zero.
#[derive(PartialEq, Eq, Structural, Clone, Copy, Debug)]
pub enum AggregateError {
    NoData,
}

/// How many most-recent periods the win-rate aggregation looks at.
pub const WIN_RATE_WINDOW: usize = 4;

/// Total wins over a sample window.
pub open spec fn sum_wins(s: Seq<HeroWinCount>) -> int
    decreases s.len(),
{
    if s.len() == 0 {
        0
    } else {
        sum_wins(s.drop_last()) + s.last().win_count
    }
}

/// Total matches over a sample window.
pub open spec fn sum_matches(s: Seq<HeroWinCount>) -> int
    decreases s.len(),
{
    if s.len() == 0 {
        0
    } else {
        sum_matches(s.drop_last()) + s.last().match_count
    }
}

/// The window the aggregation works on: the first `WIN_RATE_WINDOW`
/// samples, or all of them when fewer are available.
pub open spec fn window_of(s: Seq<HeroWinCount>) -> Seq<HeroWinCount> {
    s.take(if s.len() < WIN_RATE_WINDOW as int {
        s.len() as int
    } else {
        WIN_RATE_WINDOW as int
    })
}

/// Sums wins and matches over the most recent periods and reports the win
/// rate in hundredths of a percent, rounded down. A window without any
/// matches is an explicit no-data outcome, never a numeric artifact.
pub fn window_win_rate(samples: &Vec<HeroWinCount>) -> (r: Result<u64, AggregateError>)
    ensures
        match r {
            Ok(rate) => {
                &&& sum_matches(window_of(samples@)) > 0
                &&& rate == 10000 * sum_wins(window_of(samples@)) / sum_matches(
                    window_of(samples@),
                )
            },
            Err(e) => sum_matches(window_of(samples@)) == 0 && e == AggregateError::NoData,
        },
{
    let ghost s = samples@;
    let n: usize = if samples.len() < WIN_RATE_WINDOW {
        samples.len()
    } else {
        WIN_RATE_WINDOW
    };
    let mut wins: u64 = 0;
    let mut total: u64 = 0;
    let mut i: usize = 0;
    while i < n
        invariant
            samples@ == s,
            n <= s.len(),
            n <= WIN_RATE_WINDOW,
            i <= n,
            wins == sum_wins(s.take(i as int)),
            total == sum_matches(s.take(i as int)),
            wins <= i * 0xffff_ffff,
            total <= i * 0xffff_ffff,
        decreases n - i,
    {
        proof {
            assert(s.take(i + 1).drop_last() =~= s.take(i as int));
            assert(s.take(i + 1).last() == s[i as int]);
        }
        wins = wins + samples[i].win_count as u64;
        total = total + samples[i].match_count as u64;
        i += 1;
    }
    proof {
        assert(s.take(n as int) == window_of(s));
    }
    if total == 0 {
        Err(AggregateError::NoData)
    } else {
        Ok(10000 * wins / total)
    }
}

} // verus!
