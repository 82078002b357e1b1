use column_infer::classify::{first_phase, StageOne};
use column_infer::infer::resolve_float;
use column_infer::numeric::{parse_i128, parse_i32, parse_i64, resolve_int, IntegerTypes};
use column_infer::rank::Codes;

#[test]
fn integer_shapes() {
    assert_eq!(first_phase("5"), StageOne::Int("5"));
    assert_eq!(first_phase("-3"), StageOne::Int("-3"));
    assert_eq!(first_phase("007"), StageOne::Int("007"));
}

#[test]
fn float_shapes() {
    assert_eq!(first_phase("1.5"), StageOne::Float("1.5"));
    assert_eq!(first_phase(".5"), StageOne::Float(".5"));
    assert_eq!(first_phase("-.5"), StageOne::Float("-.5"));
    assert_eq!(first_phase("-12.75"), StageOne::Float("-12.75"));
}

#[test]
fn boolean_shapes() {
    assert_eq!(first_phase("true"), StageOne::Boolean("true"));
    assert_eq!(first_phase("FALSE"), StageOne::Boolean("FALSE"));
    assert_eq!(first_phase("tRuE"), StageOne::Boolean("tRuE"));
}

#[test]
fn fallthrough_shapes() {
    // No fractional digits: not a float, and the dot spoils the integer
    // shape.
    assert_eq!(first_phase("5."), StageOne::Any("5."));
    // A leading plus is not part of the classifier's sign grammar.
    assert_eq!(first_phase("+5"), StageOne::Any("+5"));
    assert_eq!(first_phase(""), StageOne::Any(""));
    assert_eq!(first_phase("1.2.3"), StageOne::Any("1.2.3"));
    assert_eq!(first_phase("truth"), StageOne::Any("truth"));
    assert_eq!(first_phase(" 5"), StageOne::Any(" 5"));
}

#[test]
fn classification_is_deterministic() {
    assert_eq!(first_phase("42"), first_phase("42"));
    assert_eq!(first_phase("x"), first_phase("x"));
}

#[test]
fn stage_one_converts_to_transient_ranks() {
    assert_eq!(Codes::from(StageOne::Int("1")), Codes::TmpInt);
    assert_eq!(Codes::from(StageOne::Float("1.0")), Codes::TmpFloat);
    assert_eq!(Codes::from(StageOne::Boolean("true")), Codes::Boolean);
    assert_eq!(Codes::from(StageOne::Any("x")), Codes::Any);
}

#[test]
fn width_ladder_picks_the_narrowest_width() {
    assert!(matches!(resolve_int("2147483647"), Ok(IntegerTypes::Int32(2147483647))));
    assert!(matches!(resolve_int("-2147483648"), Ok(IntegerTypes::Int32(-2147483648))));
    assert!(matches!(resolve_int("2147483648"), Ok(IntegerTypes::Int64(2147483648))));
    assert!(matches!(resolve_int("-2147483649"), Ok(IntegerTypes::Int64(-2147483649))));
    assert!(matches!(
        resolve_int("9223372036854775807"),
        Ok(IntegerTypes::Int64(9223372036854775807))
    ));
    assert!(matches!(
        resolve_int("9223372036854775808"),
        Ok(IntegerTypes::Int128(9223372036854775808))
    ));
    assert!(resolve_int("170141183460469231731687303715884105728").is_err());
}

#[test]
fn integer_rank_matches_the_resolved_width() {
    assert_eq!(Codes::from(resolve_int("12").unwrap()), Codes::Int32);
    assert_eq!(Codes::from(resolve_int("3000000000").unwrap()), Codes::Int64);
    assert_eq!(
        Codes::from(resolve_int("9223372036854775808").unwrap()),
        Codes::Int128
    );
}

#[test]
fn widest_parser_reads_exact_bounds() {
    assert_eq!(
        parse_i128("170141183460469231731687303715884105727"),
        Some(i128::MAX)
    );
    assert_eq!(
        parse_i128("-170141183460469231731687303715884105728"),
        Some(i128::MIN)
    );
    assert_eq!(parse_i128("170141183460469231731687303715884105728"), None);
    assert_eq!(parse_i128("-170141183460469231731687303715884105729"), None);
    // The parse grammar, unlike the classifier's shape, accepts a plus.
    assert_eq!(parse_i128("+5"), Some(5));
    assert_eq!(parse_i128("00042"), Some(42));
    assert_eq!(parse_i128(""), None);
    assert_eq!(parse_i128("-"), None);
    assert_eq!(parse_i128("12a"), None);
    assert_eq!(parse_i128(" 5"), None);
}

#[test]
fn narrow_parsers_reject_what_does_not_fit() {
    assert_eq!(parse_i32("2147483647"), Some(i32::MAX));
    assert_eq!(parse_i32("2147483648"), None);
    assert_eq!(parse_i32("-2147483648"), Some(i32::MIN));
    assert_eq!(parse_i32("-2147483649"), None);
    assert_eq!(parse_i64("9223372036854775807"), Some(i64::MAX));
    assert_eq!(parse_i64("9223372036854775808"), None);
}

#[test]
fn float_resolution_stays_at_the_first_rung() {
    assert_eq!(resolve_float("1.5"), Codes::Float32);
    // A magnitude far beyond 32-bit float range still resolves at the
    // first rung: parsing rounds, it does not fail.
    assert_eq!(resolve_float("999999999999999999999999999999999999999.9"), Codes::Float32);
}
