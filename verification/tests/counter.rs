use digitcount::count::{Count, Number};
use digitcount::digits::num_digits;
use digitcount::error::CoreError;

fn value_of(digits: &[u8]) -> u128 {
    let mut total: u128 = 0;
    let mut weight: u128 = 1;
    for d in digits {
        total += (*d as u128) * weight;
        weight *= 10;
    }
    total
}

fn seven_slots() -> Vec<usize> {
    vec![340, 290, 240, 180, 130, 80, 20]
}

fn counter_at(value: usize) -> Count {
    let mut count = Count::new(seven_slots());
    count.set(value);
    count
}

#[test]
fn digits_of_zero_is_a_single_zero() {
    assert_eq!(Count::digits(0), vec![0]);
}

#[test]
fn digits_are_least_significant_first() {
    assert_eq!(Count::digits(7), vec![7]);
    assert_eq!(Count::digits(10), vec![0, 1]);
    assert_eq!(Count::digits(120), vec![0, 2, 1]);
    assert_eq!(Count::digits(1000), vec![0, 0, 0, 1]);
    assert_eq!(Count::digits(9_876_543), vec![3, 4, 5, 6, 7, 8, 9]);
}

#[test]
fn digits_round_trip() {
    let samples: [usize; 12] =
        [0, 1, 9, 10, 11, 99, 100, 999, 1000, 123_456, 9_999_999, usize::MAX];
    for n in samples {
        let digits = Count::digits(n);
        assert_eq!(value_of(&digits), n as u128);
        assert!(digits.iter().all(|d| *d < 10));
        assert!(digits.len() == 1 || *digits.last().unwrap() != 0);
    }
    for n in 0..5000usize {
        assert_eq!(value_of(&Count::digits(n)), n as u128);
    }
}

#[test]
fn num_digits_counts_decimal_digits() {
    assert_eq!(num_digits(0), 1);
    assert_eq!(num_digits(9), 1);
    assert_eq!(num_digits(10), 2);
    assert_eq!(num_digits(99), 2);
    assert_eq!(num_digits(100), 3);
    assert_eq!(num_digits(999), 3);
    assert_eq!(num_digits(1000), 4);
    assert_eq!(num_digits(999_999), 6);
    assert_eq!(num_digits(1_000_000), 7);
    assert_eq!(num_digits(9_999_999), 7);
    for n in 0..3000usize {
        assert_eq!(num_digits(n), Count::digits(n).len());
    }
}

#[test]
fn new_counter_shows_zero() {
    let count = Count::new(seven_slots());
    assert_eq!(count.current, 0);
    assert_eq!(count.digits, vec![0]);
    assert_eq!(count.positions, seven_slots());
}

#[test]
fn first_advance_from_zero_reports_the_ones_place() {
    let mut count = Count::new(seven_slots());
    let events = count.next().unwrap();
    assert_eq!(events, vec![Number { number: 1, position: 340 }]);
    assert_eq!(count.current, 1);
    assert_eq!(count.digits, vec![1]);
}

#[test]
fn every_advance_reports_the_ones_place_first() {
    let mut count = Count::new(seven_slots());
    for n in 0..2500usize {
        let events = count.next().unwrap();
        assert!(!events.is_empty());
        assert_eq!(events[0].position, 340);
        assert_eq!(events[0].number as usize, (n + 1) % 10);
    }
}

#[test]
fn carry_from_999_changes_four_slots() {
    let mut count = counter_at(999);
    let events = count.next().unwrap();
    assert_eq!(
        events,
        vec![
            Number { number: 0, position: 340 },
            Number { number: 0, position: 290 },
            Number { number: 0, position: 240 },
            Number { number: 1, position: 180 },
        ]
    );
    assert_eq!(count.current, 1000);
    assert_eq!(count.digits, vec![0, 0, 0, 1]);
}

#[test]
fn no_spurious_events_from_120_to_121() {
    let mut count = counter_at(120);
    let events = count.next().unwrap();
    assert_eq!(events, vec![Number { number: 1, position: 340 }]);
    assert_eq!(count.digits, vec![1, 2, 1]);
}

#[test]
fn nine_to_ten_introduces_the_tens_slot() {
    let mut count = counter_at(9);
    let events = count.next().unwrap();
    assert_eq!(
        events,
        vec![Number { number: 0, position: 340 }, Number { number: 1, position: 290 }]
    );
}

#[test]
fn carry_skips_unchanged_middle_digits() {
    let mut count = counter_at(1099);
    let events = count.next().unwrap();
    assert_eq!(
        events,
        vec![
            Number { number: 0, position: 340 },
            Number { number: 0, position: 290 },
            Number { number: 1, position: 240 },
        ]
    );
}

#[test]
fn carry_to_a_million_changes_seven_slots() {
    let mut count = counter_at(999_999);
    let events = count.next().unwrap();
    let numbers: Vec<u8> = events.iter().map(|e| e.number).collect();
    let positions: Vec<usize> = events.iter().map(|e| e.position).collect();
    assert_eq!(numbers, vec![0, 0, 0, 0, 0, 0, 1]);
    assert_eq!(positions, seven_slots());
}

#[test]
fn set_seeds_without_events() {
    let mut count = Count::new(seven_slots());
    count.set(10_000);
    assert_eq!(count.current, 10_000);
    assert_eq!(count.digits, vec![0, 0, 0, 0, 1]);
    assert_eq!(count.positions, seven_slots());
    let events = count.next().unwrap();
    assert_eq!(events, vec![Number { number: 1, position: 340 }]);
    assert_eq!(count.current, 10_001);
}

#[test]
fn event_count_never_exceeds_the_digits_of_the_new_number() {
    let mut count = Count::new(seven_slots());
    for n in 0..12_000usize {
        let events = count.next().unwrap();
        assert!(events.len() <= num_digits(n + 1));
        assert!(num_digits(n) <= num_digits(n + 1));
    }
}

#[test]
fn events_match_an_index_wise_comparison() {
    let mut count = counter_at(98_990);
    for n in 98_990..99_020usize {
        let before = Count::digits(n);
        let after = Count::digits(n + 1);
        let mut expected = Vec::new();
        for (i, d) in after.iter().enumerate() {
            if i >= before.len() || before[i] != *d {
                expected.push(Number { number: *d, position: seven_slots()[i] });
            }
        }
        assert_eq!(count.next().unwrap(), expected);
    }
}

#[test]
fn advance_at_the_largest_integer_is_an_overflow() {
    let mut count = Count::new(vec![0; 40]);
    count.set(usize::MAX);
    let digits = count.digits.clone();
    assert_eq!(count.next(), Err(CoreError::ArithmeticOverflow));
    assert_eq!(count.current, usize::MAX);
    assert_eq!(count.digits, digits);
}

#[test]
fn advance_beyond_the_laid_out_slots_is_a_layout_error() {
    let mut count = Count::new(vec![50, 10]);
    count.set(98);
    assert_eq!(count.next().unwrap(), vec![Number { number: 9, position: 50 }]);
    assert_eq!(count.next(), Err(CoreError::LayoutInconsistency));
    assert_eq!(count.current, 99);
    assert_eq!(count.digits, vec![9, 9]);
    assert_eq!(count.positions, vec![50, 10]);
}

#[test]
fn advance_without_positions_is_a_layout_error() {
    let mut count = Count::new(Vec::new());
    assert_eq!(count.next(), Err(CoreError::LayoutInconsistency));
    assert_eq!(count.current, 0);
}

#[test]
fn errors_describe_themselves() {
    assert_eq!(CoreError::ArithmeticOverflow.describe(), "arithmetic overflow");
    assert_eq!(CoreError::LayoutInconsistency.describe(), "layout inconsistency");
    assert_eq!(CoreError::GlyphCacheMiss.describe(), "glyph cache miss");
}
