use wavethumb::range::clamp_scale;
use wavethumb::range::scale_to_range;
use wavethumb::range::Ratio;

#[test]
fn scale_meets_both_ends_of_the_output_range() {
    let low = scale_to_range(-7, -7, 13, 100, 260).unwrap();
    assert_eq!(low.den, 20);
    assert_eq!(low.num, 100 * 20);
    let high = scale_to_range(13, -7, 13, 100, 260).unwrap();
    assert_eq!(high.den, 20);
    assert_eq!(high.num, 260 * 20);
}

#[test]
fn scale_is_linear_in_between() {
    let r = scale_to_range(5, 0, 10, 100, 200).unwrap();
    assert_eq!((r.num, r.den), (1500, 10));
    let q = scale_to_range(1, 0, 3, 0, 10).unwrap();
    assert_eq!((q.num, q.den), (10, 3));
}

#[test]
fn scale_takes_a_reversed_input_range() {
    let r = scale_to_range(2, 10, 0, 0, 100).unwrap();
    assert_eq!((r.num, r.den), (800, 10));
    let begin = scale_to_range(10, 10, 0, 0, 100).unwrap();
    assert_eq!((begin.num, begin.den), (0, 10));
    let end = scale_to_range(0, 10, 0, 0, 100).unwrap();
    assert_eq!((end.num, end.den), (1000, 10));
}

#[test]
fn scale_goes_past_the_output_range_unclamped() {
    let r = scale_to_range(50, 0, 10, 100, 200).unwrap();
    assert_eq!((r.num, r.den), (6000, 10));
    let s = scale_to_range(-50, 0, 10, 100, 200).unwrap();
    assert_eq!((s.num, s.den), (-4000, 10));
}

#[test]
fn scale_is_exact_over_the_whole_of_i64() {
    let den = u64::MAX as i128;
    let high = scale_to_range(i64::MAX, i64::MIN, i64::MAX, i64::MIN, i64::MAX).unwrap();
    assert_eq!((high.num, high.den), (i64::MAX as i128 * den, den));
    let low = scale_to_range(i64::MIN, i64::MIN, i64::MAX, i64::MIN, i64::MAX).unwrap();
    assert_eq!((low.num, low.den), (i64::MIN as i128 * den, den));
    let middle = scale_to_range(0, i64::MIN, i64::MAX, i64::MIN, i64::MAX).unwrap();
    assert_eq!((middle.num, middle.den), (0, den));
}

#[test]
fn scale_meets_the_ends_of_the_widest_reversed_ranges() {
    let den = u64::MAX as i128;
    let begin = scale_to_range(i64::MAX, i64::MAX, i64::MIN, i64::MAX, i64::MIN).unwrap();
    assert_eq!((begin.num, begin.den), (i64::MAX as i128 * den, den));
    let end = scale_to_range(i64::MIN, i64::MAX, i64::MIN, i64::MAX, i64::MIN).unwrap();
    assert_eq!((end.num, end.den), (i64::MIN as i128 * den, den));
}

#[test]
fn scale_gives_the_largest_numerator_that_fits() {
    let r = scale_to_range(i64::MAX, i64::MIN, i64::MIN + 1, 0, i64::MAX).unwrap();
    assert_eq!((r.num, r.den), (170141183460469231704017187605319778305, 1));
}

#[test]
fn scale_gives_nothing_where_the_numerator_does_not_fit() {
    assert!(scale_to_range(i64::MAX, i64::MIN, i64::MIN + 1, i64::MIN, i64::MAX).is_none());
    assert!(scale_to_range(i64::MIN, i64::MAX - 1, i64::MAX, i64::MIN, i64::MAX).is_none());
    assert!(scale_to_range(i64::MAX, 0, i64::MIN, i64::MAX, i64::MIN).is_none());
}

#[test]
fn clamp_scale_holds_at_the_end_what_does_not_fit() {
    let above = clamp_scale(i64::MAX, i64::MIN, i64::MIN + 1, i64::MIN, i64::MAX);
    assert_eq!((above.num, above.den), (i64::MAX as i128, 1));
    let below = clamp_scale(i64::MIN, i64::MAX - 1, i64::MAX, i64::MIN, i64::MAX);
    assert_eq!((below.num, below.den), (i64::MIN as i128, 1));
}

#[test]
fn clamp_scale_is_exact_over_the_whole_of_i64() {
    let den = u64::MAX as i128;
    let high = clamp_scale(i64::MAX, i64::MIN, i64::MAX, i64::MIN, i64::MAX);
    assert_eq!((high.num, high.den), (i64::MAX as i128 * den, den));
    let low = clamp_scale(i64::MIN, i64::MIN, i64::MAX, i64::MIN, i64::MAX);
    assert_eq!((low.num, low.den), (i64::MIN as i128 * den, den));
}

#[test]
fn clamp_scale_takes_a_reversed_input_range() {
    let r = clamp_scale(2, 10, 0, 0, 100);
    assert_eq!((r.num, r.den), (800, 10));
    let past_begin = clamp_scale(50, 10, 0, 0, 100);
    assert_eq!((past_begin.num, past_begin.den), (0, 10));
    let past_end = clamp_scale(-50, 10, 0, 0, 100);
    assert_eq!((past_end.num, past_end.den), (1000, 10));
}

#[test]
fn clamp_scale_stays_inside_for_values_far_outside() {
    let above = clamp_scale(1_000_000_000, 0, 10, 100, 200);
    assert_eq!((above.num, above.den), (2000, 10));
    let below = clamp_scale(-1_000_000_000, 0, 10, 100, 200);
    assert_eq!((below.num, below.den), (1000, 10));
}

#[test]
fn clamp_scale_leaves_values_inside_alone() {
    let r = clamp_scale(3, 0, 10, 100, 200);
    assert_eq!((r.num, r.den), (1300, 10));
}

#[test]
fn clamp_scale_with_a_single_point_output_range() {
    let r = clamp_scale(7, 0, 10, 5, 5);
    assert_eq!((r.num, r.den), (50, 10));
}

#[test]
fn round_sends_a_tie_away_from_zero() {
    assert_eq!(Ratio { num: 5, den: 2 }.round(), 3);
    assert_eq!(Ratio { num: -5, den: 2 }.round(), -3);
    assert_eq!(Ratio { num: 1, den: 2 }.round(), 1);
    assert_eq!(Ratio { num: -1, den: 2 }.round(), -1);
}

#[test]
fn round_goes_to_the_nearest_integer() {
    assert_eq!(Ratio { num: 7, den: 3 }.round(), 2);
    assert_eq!(Ratio { num: 8, den: 3 }.round(), 3);
    assert_eq!(Ratio { num: -7, den: 3 }.round(), -2);
    assert_eq!(Ratio { num: -8, den: 3 }.round(), -3);
    assert_eq!(Ratio { num: 0, den: 9 }.round(), 0);
    assert_eq!(Ratio { num: 12, den: 4 }.round(), 3);
}

#[test]
fn round_at_the_ends_of_the_integer_range() {
    assert_eq!(Ratio { num: i128::MAX, den: 1 }.round(), i128::MAX);
    assert_eq!(Ratio { num: i128::MIN, den: 1 }.round(), i128::MIN);
    assert_eq!(Ratio { num: i128::MIN, den: 2 }.round(), i128::MIN / 2);
    assert_eq!(Ratio { num: i128::MAX, den: i128::MAX }.round(), 1);
}

#[test]
fn halved_doubles_the_denominator() {
    let r = Ratio { num: 5, den: 3 }.halved();
    assert_eq!((r.num, r.den), (5, 6));
}
