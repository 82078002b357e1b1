use column_infer::buffer::{TypedBuffer, Writable};
use column_infer::column::{parse_bool, parse_type, parse_utf8, Column};
use column_infer::rank::Codes;

fn column(tokens: &[&str]) -> Vec<String> {
    tokens.iter().map(|t| t.to_string()).collect()
}

#[test]
fn single_and_array_writes_advance_the_cursor() {
    let mut buffer: TypedBuffer<String> = TypedBuffer::new();
    assert!(buffer.is_empty());
    buffer.write(Writable::Single("a".to_string()));
    assert_eq!(buffer.get_offset(), 1);
    buffer.write(Writable::Arr(column(&["b", "c"])));
    assert_eq!(buffer.get_offset(), 3);
    assert_eq!(buffer.get(0).as_str(), "a");
    assert_eq!(buffer.get(1).as_str(), "b");
    assert_eq!(buffer.get(2).as_str(), "c");
}

#[test]
fn windows_are_clamped_to_the_written_portion() {
    let mut buffer: TypedBuffer<String> = TypedBuffer::new();
    buffer.write(Writable::Arr(column(&["a", "b", "c"])));
    assert_eq!(buffer.window(0, 10).len(), 3);
    assert_eq!(buffer.window(1, 1).len(), 1);
    assert_eq!(buffer.window(1, 1)[0].as_str(), "b");
    assert_eq!(buffer.window(5, 2).len(), 0);
    assert_eq!(buffer.window(2, 0).len(), 0);
}

#[test]
fn materialized_buffer_has_one_cell_per_token() {
    let mut buffer = TypedBuffer::new();
    buffer.write(Writable::Arr(column(&["10", "x", "-3", ""])));
    let parsed = parse_type::<i64>(buffer);
    assert_eq!(parsed.get_offset(), 4);
    assert_eq!(parsed.get(0), &Some(10));
    assert_eq!(parsed.get(1), &None);
    assert_eq!(parsed.get(2), &Some(-3));
    assert_eq!(parsed.get(3), &None);
}

#[test]
fn unparsable_cells_become_absent_not_errors() {
    let mut buffer = TypedBuffer::new();
    buffer.write(Writable::Arr(column(&["true", "FALSE", "TRUE"])));
    // Boolean parsing at materialization is exact lower-case, so the
    // upper-case outliers of the sample become absent values.
    let parsed = parse_type::<bool>(buffer);
    assert_eq!(parsed.get_offset(), 3);
    assert_eq!(parsed.get(0), &Some(true));
    assert_eq!(parsed.get(1), &None);
    assert_eq!(parsed.get(2), &None);
}

#[test]
fn boolean_cells_parse_exactly() {
    assert_eq!(parse_bool("true"), Some(true));
    assert_eq!(parse_bool("false"), Some(false));
    assert_eq!(parse_bool("TRUE"), None);
    assert_eq!(parse_bool("truth"), None);
    assert_eq!(parse_bool(""), None);
}

#[test]
fn text_cells_keep_only_empty_tokens() {
    let mut buffer = TypedBuffer::new();
    buffer.write(Writable::Arr(column(&["", "5", "x"])));
    let parsed = parse_utf8(buffer);
    assert_eq!(parsed.get_offset(), 3);
    assert_eq!(parsed.get(0), &Some("".to_string()));
    assert_eq!(parsed.get(1), &None);
    assert_eq!(parsed.get(2), &None);
}

#[test]
fn columns_expose_length_and_emptiness_uniformly() {
    let mut ints = TypedBuffer::new();
    ints.write(Writable::Arr(column(&["1", "2"])));
    let c = Column::new::<i32>(parse_type::<i32>(ints));
    assert_eq!(c.len(), 2);
    assert!(!c.is_empty());

    let mut bools = TypedBuffer::new();
    bools.write(Writable::Single("true".to_string()));
    let c = Column::new::<bool>(parse_type::<bool>(bools));
    assert_eq!(c.len(), 1);

    let mut wide = TypedBuffer::new();
    wide.write(Writable::Single("9223372036854775808".to_string()));
    let c = Column::new::<i128>(parse_type::<i128>(wide));
    assert_eq!(c.len(), 1);

    let text = TypedBuffer::new();
    let c = Column::from_any(parse_utf8(text));
    assert_eq!(c.len(), 0);
    assert!(c.is_empty());
}

#[test]
fn rank_order_is_total_and_max_is_a_sample_rank() {
    let ranks = [
        Codes::Null,
        Codes::Boolean,
        Codes::Int32,
        Codes::Int64,
        Codes::Int128,
        Codes::Float32,
        Codes::Float64,
        Codes::Any,
        Codes::TmpInt,
        Codes::TmpFloat,
    ];
    for i in 0..ranks.len() {
        for j in 0..ranks.len() {
            let m = ranks[i].max_code(ranks[j]);
            // The maximum is one of the two operands and dominates both.
            assert!(m == ranks[i] || m == ranks[j]);
            assert!(ranks[i].rank_value() <= m.rank_value());
            assert!(ranks[j].rank_value() <= m.rank_value());
            // Comparability and antisymmetry of the order.
            let le = ranks[i].rank_value() <= ranks[j].rank_value();
            let ge = ranks[j].rank_value() <= ranks[i].rank_value();
            assert!(le || ge);
            if le && ge {
                assert_eq!(ranks[i], ranks[j]);
            }
        }
    }
    assert_eq!(Codes::Int32.max_code(Codes::Float32), Codes::Float32);
    assert_eq!(Codes::Null.max_code(Codes::Boolean), Codes::Boolean);
    assert_eq!(Codes::Any.max_code(Codes::Int64), Codes::Any);
}
