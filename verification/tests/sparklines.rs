use sparklines::{
    spark, BuildAlgorithmicIndexer, BuildRangeMapIndexer, Rational, StringSpark, Value, TICKS,
};

fn v(n: i32) -> Value {
    Value::from_int(n)
}

fn ints(ns: &[i32]) -> Vec<Value> {
    ns.iter().map(|&n| v(n)).collect()
}

#[test]
fn test_default() {
    let spark = StringSpark::default();
    assert_eq!(spark.spark(&ints(&[1, 2, 3])), "▁▅█");
}

#[test]
fn test_non_default() {
    let spark = StringSpark::new(&['a', 'b', 'c']);
    assert_eq!(spark.spark(&ints(&[1, 2, 3])), "abc");
}

#[test]
fn test_nan() {
    let spark = StringSpark::default();
    assert_eq!(
        spark.spark(&[Value::NaN, v(1), v(2), Value::NaN, v(3)]),
        "▁▅█"
    );
}

#[test]
fn test_spark_fn() {
    assert_eq!(spark(&ints(&[1, 2, 3])), "▁▅█");
}

#[test]
fn eight_steps_up() {
    assert_eq!(spark(&ints(&[1, 2, 3, 4, 5, 6, 7, 8])), "▁▂▃▄▅▆▇█");
}

#[test]
fn sixteen_steps_up() {
    let data = ints(&[1, 2, 3, 4, 5, 6, 7, 8, 9, 10, 11, 12, 13, 14, 15, 16]);
    assert_eq!(spark(&data), "▁▁▂▂▃▃▄▄▅▅▆▆▇▇██");
}

#[test]
fn all_equal_gives_middle() {
    assert_eq!(spark(&ints(&[1, 1, 1, 1])), "▅▅▅▅");
}

#[test]
fn single_sample_gives_middle() {
    assert_eq!(spark(&ints(&[1])), "▅");
}

#[test]
fn empty_input_gives_empty_output() {
    assert_eq!(spark(&[]), "");
}

#[test]
fn nans_are_dropped() {
    assert_eq!(spark(&[Value::NaN, v(1), v(2), Value::NaN, v(3)]), "▁▅█");
}

#[test]
fn fixed_range_clamps_outliers() {
    let spark = StringSpark::new_with_min_max(&TICKS, Rational::from_int(2), Rational::from_int(3));
    assert_eq!(spark.spark(&ints(&[1, 2, 3, 4])), "▁▁██");
}

#[test]
fn fixed_range_wide_outlier() {
    let spark = StringSpark::new_with_min_max(&TICKS, Rational::from_int(1), Rational::from_int(3));
    assert_eq!(spark.spark(&ints(&[0, 2, 300])), "▁▅█");
}

#[test]
fn output_length_counts_valid_samples() {
    let data = [Value::NaN, Value::NegInf, v(1), v(7), Value::PosInf, Value::NaN];
    let out = spark(&data);
    assert_eq!(out.chars().count(), 4);
}

#[test]
fn boundaries_map_to_outermost_symbols() {
    let spark = StringSpark::new_with_min_max(&TICKS, Rational::from_int(5), Rational::from_int(9));
    let out = spark.spark(&ints(&[5, 9]));
    assert_eq!(out, "▁█");
}

#[test]
fn equal_fractions_give_middle() {
    let data = [
        Value::Fin(Rational::new(2, 4)),
        Value::Fin(Rational::new(1, 2)),
        Value::Fin(Rational::new(3, 6)),
    ];
    assert_eq!(spark(&data), "▅▅▅");
}

#[test]
fn fractional_samples() {
    let data = [
        Value::Fin(Rational::new(1, 2)),
        Value::Fin(Rational::new(1, 1)),
        Value::Fin(Rational::new(3, 2)),
    ];
    assert_eq!(spark(&data), "▁▅█");
}

#[test]
fn infinities_clamp_to_extremes() {
    let data = [Value::NegInf, v(1), v(2), Value::PosInf];
    assert_eq!(spark(&data), "▁▁██");
}

#[test]
fn strategies_agree_on_integers() {
    let data = ints(&[3, 1, 4, 1, 5, 9, 2, 6, 5, 3, 5, 8, 9, 7]);
    let algorithmic = StringSpark::with_indexer(&TICKS, BuildAlgorithmicIndexer);
    let table = StringSpark::with_indexer(&TICKS, BuildRangeMapIndexer);
    assert_eq!(algorithmic.spark(&data), table.spark(&data));
}

#[test]
fn strategies_agree_on_fractions_and_extremes() {
    let data = [
        Value::Fin(Rational::new(7, 3)),
        Value::NegInf,
        Value::Fin(Rational::new(-5, 4)),
        Value::Fin(Rational::new(22, 7)),
        Value::PosInf,
        Value::NaN,
        Value::Fin(Rational::new(0, 9)),
    ];
    let algorithmic = StringSpark::with_indexer(&TICKS, BuildAlgorithmicIndexer);
    let table = StringSpark::with_indexer(&TICKS, BuildRangeMapIndexer);
    assert_eq!(algorithmic.spark(&data), table.spark(&data));
}

#[test]
fn range_table_renders_the_ramp() {
    let spark = StringSpark::with_indexer(&TICKS, BuildRangeMapIndexer);
    assert_eq!(spark.spark(&ints(&[1, 2, 3, 4, 5, 6, 7, 8])), "▁▂▃▄▅▆▇█");
}

#[test]
fn range_table_with_fixed_range() {
    let spark = StringSpark::with_indexer_min_max(
        &TICKS,
        Rational::from_int(2),
        Rational::from_int(3),
        BuildRangeMapIndexer,
    );
    assert_eq!(spark.spark(&ints(&[1, 2, 3, 4])), "▁▁██");
}

#[test]
fn single_symbol_ramp() {
    let spark = StringSpark::new(&['x']);
    assert_eq!(spark.spark(&ints(&[1, 2])), "xx");
}

#[test]
fn all_nan_gives_empty_output() {
    assert_eq!(spark(&[Value::NaN, Value::NaN]), "");
}

#[test]
fn degenerate_fixed_range_gives_middle() {
    let spark = StringSpark::new_with_min_max(&TICKS, Rational::from_int(2), Rational::from_int(2));
    assert_eq!(spark.spark(&ints(&[1, 2, 3])), "▅▅▅");
}

#[test]
fn negative_samples() {
    assert_eq!(spark(&ints(&[-3, -2, -1])), "▁▅█");
}
