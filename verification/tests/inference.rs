use column_infer::buffer::{TypedBuffer, Writable};
use column_infer::column::parse_type;
use column_infer::infer::{InferError, ParsedWords};
use column_infer::rank::Codes;

fn column(tokens: &[&str]) -> Vec<String> {
    tokens.iter().map(|t| t.to_string()).collect()
}

fn infer_single(tokens: &[&str]) -> Result<Vec<Codes>, InferError> {
    let mut words = ParsedWords::default();
    words.write_words(vec![column(tokens)]);
    words.generate_codes()
}

#[test]
fn parse() {
    let mut buffer = TypedBuffer::new();
    buffer.write(Writable::Arr(column(&["1", "2", "3"])));
    assert_eq!(buffer.get_offset(), 3);

    let parsed_buffer = parse_type::<i32>(buffer);
    assert_eq!(parsed_buffer.get_offset(), 3);
}

#[test]
fn small_integers_resolve_to_int32() {
    let codes = infer_single(&["1", "2", "3"]).unwrap();
    assert_eq!(codes, vec![Codes::Int32]);

    let mut buffer = TypedBuffer::new();
    buffer.write(Writable::Arr(column(&["1", "2", "3"])));
    let parsed = parse_type::<i32>(buffer);
    assert_eq!(parsed.get_offset(), 3);
    assert_eq!(parsed.get(0), &Some(1));
    assert_eq!(parsed.get(1), &Some(2));
    assert_eq!(parsed.get(2), &Some(3));
}

#[test]
fn overflow_of_int32_escalates_to_int64() {
    let codes = infer_single(&["1", "2147483648"]).unwrap();
    assert_eq!(codes, vec![Codes::Int64]);
}

#[test]
fn float_candidate_dominates_integers() {
    let codes = infer_single(&["1.5", "2"]).unwrap();
    assert_eq!(codes, vec![Codes::Float32]);
}

#[test]
fn booleans_classify_case_insensitively() {
    let codes = infer_single(&["true", "FALSE", "TRUE"]).unwrap();
    assert_eq!(codes, vec![Codes::Boolean]);
}

#[test]
fn mixed_column_resolves_to_any() {
    let codes = infer_single(&["", "5", "x"]).unwrap();
    assert_eq!(codes, vec![Codes::Any]);
}

#[test]
fn magnitude_beyond_widest_width_fails_fatally() {
    // One above the largest 128-bit signed value: classification must
    // fail the pass, not silently downgrade the column.
    let r = infer_single(&["170141183460469231731687303715884105728"]);
    assert_eq!(r, Err(InferError::IntegerOverflow));

    let r = infer_single(&["-170141183460469231731687303715884105729"]);
    assert_eq!(r, Err(InferError::IntegerOverflow));
}

#[test]
fn empty_column_is_a_configuration_error() {
    let mut words = ParsedWords::default();
    words.write_words(vec![Vec::new()]);
    assert_eq!(words.generate_codes(), Err(InferError::EmptyColumn));
}

#[test]
fn first_failing_column_decides_the_error() {
    let mut words = ParsedWords::default();
    words.write_words(vec![
        column(&["1", "2"]),
        Vec::new(),
        column(&["170141183460469231731687303715884105728"]),
    ]);
    assert_eq!(words.generate_codes(), Err(InferError::EmptyColumn));
}

#[test]
fn inference_is_idempotent_across_runs() {
    let mut words = ParsedWords::default();
    words.write_words(vec![column(&["1.5", "2"]), column(&["true", "x"])]);
    let first = words.generate_codes().unwrap();
    let second = words.generate_codes().unwrap();
    assert_eq!(first, second);
    assert_eq!(first, vec![Codes::Float32, Codes::Any]);
}

#[test]
fn columns_are_inferred_independently() {
    let mut words = ParsedWords::default();
    words.write_words(vec![
        column(&["1", "2", "3"]),
        column(&["1.5"]),
        column(&["true"]),
        column(&[""]),
    ]);
    let codes = words.generate_codes().unwrap();
    assert_eq!(
        codes,
        vec![Codes::Int32, Codes::Float32, Codes::Boolean, Codes::Null]
    );
}

#[test]
fn iter_with_code_pairs_each_buffer_with_its_rank() {
    let mut words = ParsedWords::default();
    words.write_words(vec![column(&["1", "2"]), column(&["x"])]);
    let pairs = words.iter_with_code().unwrap();
    assert_eq!(pairs.len(), 2);
    assert_eq!(pairs[0].0, Codes::Int32);
    assert_eq!(pairs[0].1.get_offset(), 2);
    assert_eq!(pairs[0].1.get(0).as_str(), "1");
    assert_eq!(pairs[0].1.get(1).as_str(), "2");
    assert_eq!(pairs[1].0, Codes::Any);
    assert_eq!(pairs[1].1.get_offset(), 1);
}

#[test]
fn write_words_keeps_column_and_token_order() {
    let mut words = ParsedWords::default();
    words.write_words(vec![column(&["a", "b"]), column(&["c"])]);
    words.write_words(vec![column(&["d"])]);
    assert_eq!(words.buffers.len(), 3);
    assert_eq!(words.buffers[0].get_offset(), 2);
    assert_eq!(words.buffers[0].get(0).as_str(), "a");
    assert_eq!(words.buffers[0].get(1).as_str(), "b");
    assert_eq!(words.buffers[1].get(0).as_str(), "c");
    assert_eq!(words.buffers[2].get(0).as_str(), "d");
}
