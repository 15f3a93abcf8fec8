use ieee738::day_of_year;

const MONTH_LENGTHS: [i32; 12] = [31, 28, 31, 30, 31, 30, 31, 31, 30, 31, 30, 31];

#[test]
fn first_day_of_the_year_is_one() {
    assert_eq!(day_of_year(1, 1), 1);
}

#[test]
fn last_day_of_the_year_is_365() {
    assert_eq!(day_of_year(12, 31), 365);
}

#[test]
fn march_first_counts_a_non_leap_february() {
    assert_eq!(day_of_year(3, 1), 60);
    assert_eq!(day_of_year(2, 28), 59);
}

#[test]
fn june_tenth_is_day_161() {
    assert_eq!(day_of_year(6, 10), 161);
}

#[test]
fn months_below_january_add_nothing() {
    assert_eq!(day_of_year(0, 7), 7);
    assert_eq!(day_of_year(-3, 5), 5);
    assert_eq!(day_of_year(1, 0), 0);
}

#[test]
fn month_thirteen_adds_the_whole_year() {
    assert_eq!(day_of_year(13, 1), 366);
    assert_eq!(day_of_year(13, 0), 365);
}

#[test]
fn days_past_the_month_end_run_on() {
    assert_eq!(day_of_year(1, 40), 40);
    assert_eq!(day_of_year(2, 31), 62);
}

#[test]
fn largest_day_that_fits() {
    assert_eq!(day_of_year(13, i32::MAX - 365), i32::MAX);
    assert_eq!(day_of_year(1, i32::MAX), i32::MAX);
}

#[test]
fn dates_in_calendar_order_have_increasing_day_numbers() {
    let mut previous = 0;
    for month in 1..=12 {
        for day in 1..=MONTH_LENGTHS[(month - 1) as usize] {
            let n = day_of_year(month, day);
            assert!(n > previous);
            previous = n;
        }
    }
}

#[test]
fn every_date_lies_in_the_year_and_every_day_number_is_hit() {
    let mut seen = [false; 366];
    for month in 1..=12 {
        for day in 1..=MONTH_LENGTHS[(month - 1) as usize] {
            let n = day_of_year(month, day);
            assert!(1 <= n && n <= 365);
            seen[n as usize] = true;
        }
    }
    for n in 1..=365 {
        assert!(seen[n]);
    }
}

#[test]
fn next_month_starts_after_the_last_day() {
    for month in 1..=11 {
        let last = MONTH_LENGTHS[(month - 1) as usize];
        assert_eq!(day_of_year(month + 1, 1), day_of_year(month, last) + 1);
    }
}
