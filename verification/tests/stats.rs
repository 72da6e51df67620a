use awc::options::CliOptions;
use awc::stats::Stats;

fn all() -> CliOptions {
    CliOptions {
        bytes: true,
        chars: true,
        words: true,
        lines: true,
        max_line: true,
        min_line: true,
        zipped: false,
    }
}

fn stats(bytes: u64, chars: u64, words: u64, lines: u64, max_line: u64, min_line: u64) -> Stats {
    Stats { bytes, chars, words, lines, max_line, min_line }
}

#[test]
fn add_assign() {
    let mut stats1 = Stats::default();
    stats1.bytes = 1;
    stats1.chars = 1;
    stats1.words = 1;
    stats1.lines = 1;
    stats1.max_line = 1;
    stats1.min_line = 1;

    let mut stats2 = Stats::default();
    stats1.bytes = 2;
    stats1.chars = 2;
    stats1.words = 2;
    stats1.lines = 2;
    stats1.max_line = 2;
    stats1.min_line = 2;

    assert!(stats2.can_add(&stats1));
    stats2.add_assign(stats1);

    assert_eq!(stats2.bytes, 2);
    assert_eq!(stats2.chars, 2);
    assert_eq!(stats2.words, 2);
    assert_eq!(stats2.lines, 2);
    assert_eq!(stats2.max_line, 2);
    assert_eq!(stats2.min_line, 2);
}

#[test]
fn default_is_zero() {
    assert_eq!(Stats::default(), stats(0, 0, 0, 0, 0, 0));
}

#[test]
fn adding_zero_changes_nothing() {
    let a = stats(12, 11, 2, 1, 11, 10);
    let mut left = Stats::default();
    left.add_assign(a);
    assert_eq!(left, a);
    let mut right = a;
    right.add_assign(Stats::default());
    assert_eq!(right, a);
}

#[test]
fn adding_is_commutative_and_associative() {
    let a = stats(1, 2, 3, 4, 5, 6);
    let b = stats(10, 20, 30, 40, 50, 60);
    let c = stats(100, 200, 300, 400, 500, 600);

    let mut ab = a;
    ab.add_assign(b);
    let mut ba = b;
    ba.add_assign(a);
    assert_eq!(ab, ba);
    assert_eq!(ab, stats(11, 22, 33, 44, 55, 66));

    let mut ab_c = ab;
    ab_c.add_assign(c);
    let mut bc = b;
    bc.add_assign(c);
    let mut a_bc = a;
    a_bc.add_assign(bc);
    assert_eq!(ab_c, a_bc);
    assert_eq!(ab_c, stats(111, 222, 333, 444, 555, 666));
}

#[test]
fn total_of_three_files_in_any_order() {
    let a = stats(12, 12, 2, 1, 11, 11);
    let b = stats(6, 6, 2, 2, 2, 2);
    let c = stats(3776, 1935, 304, 44, 50, 1);
    let expected = stats(3794, 1953, 308, 47, 63, 14);
    let orders = [[a, b, c], [a, c, b], [b, a, c], [b, c, a], [c, a, b], [c, b, a]];
    for order in orders {
        assert_eq!(Stats::sum(&order), Some(expected));
        let mut total = Stats::default();
        for item in order {
            assert!(total.can_add(&item));
            total.add_assign(item);
        }
        assert_eq!(total, expected);
    }
}

#[test]
fn sum_of_nothing_is_zero() {
    assert_eq!(Stats::sum(&[]), Some(Stats::default()));
}

#[test]
fn sum_that_does_not_fit_is_none() {
    let big = stats(u64::MAX, 0, 0, 0, 0, 0);
    let one = stats(1, 0, 0, 0, 0, 0);
    assert_eq!(Stats::sum(&[big, one]), None);
    assert_eq!(Stats::sum(&[big, Stats::default()]), Some(big));
    assert!(!big.can_add(&one));
    assert!(big.can_add(&Stats::default()));
    let wide = stats(0, 0, 0, 0, 0, u64::MAX);
    assert!(!wide.can_add(&stats(0, 0, 0, 0, 0, 1)));
}

#[test]
fn results_line_pads_each_field() {
    let s = stats(12, 12, 2, 1, 11, 10);
    assert_eq!(
        s.results_line(&all(), "poe.txt"),
        "      12       12        2        1       10       11 poe.txt"
    );
    assert_eq!(s.results_line(&all(), "poe.txt"), format!(
        "{:8} {:8} {:8} {:8} {:8} {:8} {}",
        12, 12, 2, 1, 10, 11, "poe.txt"
    ));
}

#[test]
fn results_line_shows_only_what_is_requested() {
    let s = stats(12, 13, 2, 1, 11, 10);
    let only_words = CliOptions { words: true, ..CliOptions::default() };
    assert_eq!(s.results_line(&only_words, "total"), "       2 total");
    assert_eq!(s.results_line(&CliOptions::default(), ""), "");
    assert_eq!(s.results_line(&CliOptions::default(), "x"), "x");
    let two = CliOptions { chars: true, lines: true, ..CliOptions::default() };
    assert_eq!(s.results_line(&two, ""), "      13        1 ");
}

#[test]
fn results_line_keeps_wide_numbers_whole() {
    let s = stats(123456789, 0, 0, 0, u64::MAX, 12345678);
    let opt = CliOptions { bytes: true, max_line: true, min_line: true, ..CliOptions::default() };
    assert_eq!(
        s.results_line(&opt, "f"),
        "123456789 12345678 18446744073709551615 f"
    );
}

#[test]
fn results_line_is_the_same_each_time() {
    let s = stats(25260, 25258, 3969, 887, 73, 0);
    let first = s.results_line(&all(), "poe.unix");
    let second = s.results_line(&all(), "poe.unix");
    assert_eq!(first, second);
    assert_eq!(
        first,
        "   25260    25258     3969      887        0       73 poe.unix"
    );
}
