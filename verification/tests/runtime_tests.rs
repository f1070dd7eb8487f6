use diamondback::runtime::{error_message, heap_kind, parse_arg, read_arg, value_kind, ArgError, HeapKind, ValueKind};

fn args(ws: &[&str]) -> Vec<String> {
    ws.iter().map(|w| w.to_string()).collect()
}

#[test]
fn missing_argument_is_false() {
    assert_eq!(parse_arg(&args(&["prog"])), 1);
    assert_eq!(parse_arg(&args(&[])), 1);
}

#[test]
fn boolean_arguments() {
    assert_eq!(parse_arg(&args(&["prog", "true"])), 3);
    assert_eq!(parse_arg(&args(&["prog", "false"])), 1);
}

#[test]
fn number_arguments_are_tagged() {
    assert_eq!(parse_arg(&args(&["prog", "21"])), 42);
    assert_eq!(parse_arg(&args(&["prog", "-21"])), -42);
    assert_eq!(parse_arg(&args(&["prog", "+4"])), 8);
    assert_eq!(parse_arg(&args(&["prog", "4611686018427387904"])), i64::MIN);
}

#[test]
fn bad_arguments() {
    assert_eq!(read_arg(&args(&["prog", "x"])), Err(ArgError::NotANumber));
    assert_eq!(read_arg(&args(&["prog", ""])), Err(ArgError::NotANumber));
    assert_eq!(read_arg(&args(&["prog", "-"])), Err(ArgError::NotANumber));
    assert_eq!(read_arg(&args(&["prog", " 1"])), Err(ArgError::NotANumber));
    assert_eq!(read_arg(&args(&["prog", "9223372036854775808"])), Err(ArgError::NotANumber));
}

#[test]
fn classifies_words() {
    assert_eq!(value_kind(3), ValueKind::True);
    assert_eq!(value_kind(1), ValueKind::False);
    assert_eq!(value_kind(42), ValueKind::Number(21));
    assert_eq!(value_kind(-42), ValueKind::Number(-21));
    assert_eq!(value_kind(0), ValueKind::Number(0));
    assert_eq!(value_kind(5), ValueKind::Pointer);
    assert_eq!(value_kind(13), ValueKind::Pointer);
    assert_eq!(value_kind(9), ValueKind::Unknown);
    assert_eq!(value_kind(-1), ValueKind::Pointer);
    assert_eq!(value_kind(-3), ValueKind::Pointer);
    assert_eq!(value_kind(-5), ValueKind::Unknown);
}

#[test]
fn number_round_trip_through_parser_and_runtime() {
    for n in [0i64, 1, -1, 123456, -4611686018427387904, 4611686018427387903] {
        let text = n.to_string();
        let e = diamondback::parser::parse_text(&text).unwrap();
        match e {
            diamondback::types::Expr::EZeroOp(diamondback::types::ZeroOp::Number(w)) => {
                assert_eq!(value_kind(w), ValueKind::Number(n));
            }
            _ => panic!("not a number"),
        }
        assert_eq!(value_kind(parse_arg(&args(&["prog", &text]))), ValueKind::Number(n));
    }
}

#[test]
fn classifies_heap_objects() {
    assert_eq!(heap_kind(19), HeapKind::Array);
    assert_eq!(heap_kind(11), HeapKind::Link);
    assert_eq!(heap_kind(3), HeapKind::Scalar);
}

#[test]
fn error_messages() {
    assert_eq!(error_message(1), "Failed to set up runtime");
    assert_eq!(error_message(2), "Ran out of memory");
    assert_eq!(error_message(3), "Type mismatch");
    assert_eq!(error_message(4), "Bad memory access");
    assert_eq!(error_message(5), "Truth value expected (invalid argument)");
    assert_eq!(error_message(6), "Numeric value expected (invalid argument)");
    assert_eq!(error_message(7), "Arithmetic error (overflow)");
    assert_eq!(error_message(0), "An unspecified error occurred");
    assert_eq!(error_message(99), "An unspecified error occurred");
}
