use cantix::winrate::{window_win_rate, AggregateError, HeroWinCount};

fn sample(win: u32, total: u32) -> HeroWinCount {
    HeroWinCount { win_count: win, match_count: total }
}

#[test]
fn four_most_recent_periods_are_summed() {
    // 100 * (10 + 8 + 12 + 5) / (20 + 16 + 24 + 10) = 50.00 percent;
    // the fifth period must be excluded.
    let samples = vec![
        sample(10, 20),
        sample(8, 16),
        sample(12, 24),
        sample(5, 10),
        sample(100, 100),
    ];
    assert_eq!(window_win_rate(&samples), Ok(5000));
}

#[test]
fn zero_sample_window_is_explicit_no_data() {
    let samples = vec![sample(0, 0), sample(0, 0), sample(0, 0), sample(0, 0)];
    assert_eq!(window_win_rate(&samples), Err(AggregateError::NoData));
}

#[test]
fn empty_history_is_no_data() {
    let samples: Vec<HeroWinCount> = Vec::new();
    assert_eq!(window_win_rate(&samples), Err(AggregateError::NoData));
}

#[test]
fn short_history_uses_what_is_there() {
    let samples = vec![sample(1, 2)];
    assert_eq!(window_win_rate(&samples), Ok(5000));
    let samples = vec![sample(3, 4), sample(0, 4)];
    // 100 * 3 / 8 = 37.50 percent.
    assert_eq!(window_win_rate(&samples), Ok(3750));
}

#[test]
fn rate_rounds_down_in_hundredths_of_a_percent() {
    // 100 * 1 / 3 = 33.33... percent, reported as 3333.
    let samples = vec![sample(1, 3)];
    assert_eq!(window_win_rate(&samples), Ok(3333));
}
