use cairo_codec::args::{process_args, process_array, FuncArg};
use cairo_codec::bytearray::{decode_byte_array, ByteArrayError, ZeroWordPolicy};
use cairo_codec::codec::{encode_memory, encode_trace, TraceEntry};
use cairo_codec::error::{CodecError, OutputField};
use cairo_codec::felt::Felt;
use cairo_codec::output::{DeserializableHyleOutput, Event, HyleOutput};

fn felt_of(s: &str) -> Felt {
    Felt::from_dec_str(s).expect("a felt in range")
}

fn le_bytes_of_u64(n: u64) -> Vec<u8> {
    let mut out = vec![0u8; 32];
    let le = n.to_le_bytes();
    out[..8].copy_from_slice(&le);
    out
}

#[test]
fn encodes_scalars_and_array_in_order() {
    let args = process_args("5 [1 2 3] 7").expect("well-formed line");
    assert_eq!(args.0.len(), 3);
    match &args.0[0] {
        FuncArg::Single(f) => assert_eq!(f.to_bytes_le(), le_bytes_of_u64(5)),
        FuncArg::Array(_) => panic!("first argument should be a scalar"),
    }
    match &args.0[1] {
        FuncArg::Array(v) => {
            assert_eq!(v.len(), 3);
            assert_eq!(v[0].to_bytes_le(), le_bytes_of_u64(1));
            assert_eq!(v[1].to_bytes_le(), le_bytes_of_u64(2));
            assert_eq!(v[2].to_bytes_le(), le_bytes_of_u64(3));
        },
        FuncArg::Single(_) => panic!("second argument should be an array"),
    }
    match &args.0[2] {
        FuncArg::Single(f) => assert_eq!(f.to_bytes_le(), le_bytes_of_u64(7)),
        FuncArg::Array(_) => panic!("third argument should be a scalar"),
    }
}

#[test]
fn encodes_empty_array_with_space() {
    let args = process_args("[ ]").expect("well-formed line");
    assert_eq!(args.0.len(), 1);
    match &args.0[0] {
        FuncArg::Array(v) => assert_eq!(v.len(), 0),
        FuncArg::Single(_) => panic!("should be an array"),
    }
}

#[test]
fn encodes_empty_array_adjacent_brackets() {
    let args = process_args("[]").expect("well-formed line");
    assert_eq!(args.0.len(), 1);
    match &args.0[0] {
        FuncArg::Array(v) => assert_eq!(v.len(), 0),
        FuncArg::Single(_) => panic!("should be an array"),
    }
}

#[test]
fn rejects_non_numeric_token() {
    match process_args("abc") {
        Err(CodecError::InvalidArgument(t)) => assert_eq!(t, "abc"),
        other => panic!("expected InvalidArgument, got {:?}", other),
    }
}

#[test]
fn rejects_value_at_modulus() {
    let prime = "3618502788666131213697322783095070105623107215331596699973092056135872020481";
    assert!(matches!(process_args(prime), Err(CodecError::InvalidArgument(_))));
    assert!(Felt::from_dec_str(prime).is_none());
}

#[test]
fn accepts_value_just_below_modulus() {
    let below = "3618502788666131213697322783095070105623107215331596699973092056135872020480";
    let f = Felt::from_dec_str(below).expect("in range");
    let bytes = f.to_bytes_le();
    let mut expected = vec![0u8; 32];
    expected[24] = 0x11;
    expected[31] = 0x08;
    assert_eq!(bytes, expected);
}

#[test]
fn collects_array_elements_up_to_closing_bracket() {
    let tokens = vec!["1", "2", "]", "7"];
    let mut pos = 0usize;
    let arg = process_array(&tokens, &mut pos).expect("closed array");
    assert_eq!(pos, 3);
    match arg {
        FuncArg::Array(v) => {
            assert_eq!(v.len(), 2);
            assert_eq!(v[0].to_bytes_le(), le_bytes_of_u64(1));
            assert_eq!(v[1].to_bytes_le(), le_bytes_of_u64(2));
        },
        FuncArg::Single(_) => panic!("should be an array"),
    }
}

#[test]
fn failed_array_scan_leaves_cursor_at_the_offence() {
    let tokens = vec!["1", "x", "]"];
    let mut pos = 0usize;
    let r = process_array(&tokens, &mut pos);
    assert!(matches!(r, Err(CodecError::InvalidArgument(t)) if t == "x"));
    assert_eq!(pos, 1);
    let exhausted = vec!["1", "2"];
    let mut pos2 = 0usize;
    let r2 = process_array(&exhausted, &mut pos2);
    assert!(matches!(r2, Err(CodecError::UnbalancedBrackets)));
    assert_eq!(pos2, 2);
}

#[test]
fn rejects_unclosed_bracket() {
    assert!(matches!(process_args("[1 2"), Err(CodecError::UnbalancedBrackets)));
}

#[test]
fn rejects_stray_closing_bracket() {
    assert!(matches!(process_args("1 ] 2"), Err(CodecError::UnbalancedBrackets)));
}

#[test]
fn rejects_nested_bracket() {
    assert!(matches!(process_args("[1 [2] 3]"), Err(CodecError::UnbalancedBrackets)));
}

#[test]
fn byte_array_decodes_hello_and_advances_cursor() {
    // "hello" as the pending word: no full words, pending length five.
    let mut data = vec!["0", "448378203247", "5", "tail"];
    let s = <HyleOutput<Event> as DeserializableHyleOutput>::deserialize_cairo_bytesarray(
        &mut data,
    )
    .expect("well-formed byte array");
    assert_eq!(s, "hello");
    assert_eq!(data, vec!["tail"]);
}

#[test]
fn zero_word_contributes_no_text_in_any_position() {
    // zero as a full word, before the text
    let mut front = vec!["1", "0", "448378203247", "5"];
    let s = <HyleOutput<Event> as DeserializableHyleOutput>::deserialize_cairo_bytesarray(
        &mut front,
    )
    .expect("well-formed byte array");
    assert_eq!(s, "hello");
    // zero as the pending word, after the text
    let mut back = vec!["1", "448378203247", "0", "5"];
    let s2 = <HyleOutput<Event> as DeserializableHyleOutput>::deserialize_cairo_bytesarray(
        &mut back,
    )
    .expect("well-formed byte array");
    assert_eq!(s2, "hello");
}

#[test]
fn zero_word_policy_is_the_callers_choice() {
    let mut skipped = vec!["1", "0", "448378203247", "5"];
    let s = decode_byte_array(&mut skipped, ZeroWordPolicy::SkipZero).expect("padding skipped");
    assert_eq!(s, "hello");
    let mut decoded = vec!["1", "0", "448378203247", "5"];
    let r = decode_byte_array(&mut decoded, ZeroWordPolicy::DecodeAll);
    assert!(matches!(r, Err(ByteArrayError::Word)));
}

#[test]
fn i_to_w_decodes_integer_to_text() {
    let s = <HyleOutput<Event> as DeserializableHyleOutput>::i_to_w(String::from("448378203247"))
        .expect("decodable word");
    assert_eq!(s, "hello");
}

#[test]
fn i_to_w_rejects_odd_hex_word() {
    // three has the one-digit hex form "3"
    let r = <HyleOutput<Event> as DeserializableHyleOutput>::i_to_w(String::from("3"));
    assert!(matches!(r, Err(CodecError::InvalidEncoding)));
}

#[test]
fn i_to_w_rejects_zero_word() {
    let r = <HyleOutput<Event> as DeserializableHyleOutput>::i_to_w(String::from("0"));
    assert!(matches!(r, Err(CodecError::InvalidEncoding)));
}

#[test]
fn i_to_w_rejects_invalid_utf8_word() {
    // 65320 is 0xff28; 0xff starts no UTF-8 sequence
    let r = <HyleOutput<Event> as DeserializableHyleOutput>::i_to_w(String::from("65320"));
    assert!(matches!(r, Err(CodecError::InvalidEncoding)));
}

#[test]
fn byte_array_rejects_truncated_words() {
    let mut data = vec!["5", "1"];
    let r = <HyleOutput<Event> as DeserializableHyleOutput>::deserialize_cairo_bytesarray(
        &mut data,
    );
    assert!(matches!(r, Err(CodecError::InvalidEncoding)));
}

#[test]
fn byte_array_validates_pending_length_token() {
    let mut data = vec!["0", "448378203247", "abc"];
    let r = <HyleOutput<Event> as DeserializableHyleOutput>::deserialize_cairo_bytesarray(
        &mut data,
    );
    assert!(matches!(r, Err(CodecError::InvalidEncoding)));
}

#[test]
fn decodes_minimal_output_record() {
    // version, two literal state tokens, empty origin and caller, a literal
    // transaction hash, empty from and to, and the amount
    let input = "[1 100 200 0 0 0 0 0 0 999 0 0 0 0 0 0 1000]";
    let out = <HyleOutput<Event> as DeserializableHyleOutput>::deserialize(input)
        .expect("well-formed output stream");
    assert_eq!(out.version, 1);
    assert_eq!(out.initial_state, b"100".to_vec());
    assert_eq!(out.next_state, b"200".to_vec());
    assert_eq!(out.origin, "");
    assert_eq!(out.caller, "");
    assert_eq!(out.block_number, 0);
    assert_eq!(out.block_time, 0);
    assert_eq!(out.tx_hash, b"999".to_vec());
    assert_eq!(out.program_outputs.from, "");
    assert_eq!(out.program_outputs.to, "");
    assert_eq!(out.program_outputs.amount, 1000);
}

#[test]
fn decodes_output_record_with_text_fields() {
    // origin and caller carry "hello" as their pending word
    let input = "[7 a b 0 448378203247 5 0 448378203247 5 h 0 448378203247 5 0 448378203247 5 42]";
    let out = <HyleOutput<Event> as DeserializableHyleOutput>::deserialize(input)
        .expect("well-formed output stream");
    assert_eq!(out.version, 7);
    assert_eq!(out.origin, "hello");
    assert_eq!(out.caller, "hello");
    assert_eq!(out.tx_hash, b"h".to_vec());
    assert_eq!(out.program_outputs.from, "hello");
    assert_eq!(out.program_outputs.to, "hello");
    assert_eq!(out.program_outputs.amount, 42);
}

#[test]
fn truncated_output_fails_with_field_name() {
    let r = <HyleOutput<Event> as DeserializableHyleOutput>::deserialize("[1 100]");
    assert!(matches!(
        r,
        Err(CodecError::InvalidOutputFormat(OutputField::NextState))
    ));
}

#[test]
fn empty_output_fails_at_version() {
    let r = <HyleOutput<Event> as DeserializableHyleOutput>::deserialize("");
    assert!(matches!(
        r,
        Err(CodecError::InvalidOutputFormat(OutputField::Version))
    ));
}

#[test]
fn non_numeric_version_fails() {
    let r = <HyleOutput<Event> as DeserializableHyleOutput>::deserialize("[abc 1 2]");
    assert!(matches!(
        r,
        Err(CodecError::InvalidOutputFormat(OutputField::Version))
    ));
}

#[test]
fn stream_ending_before_origin_names_the_field() {
    let r = <HyleOutput<Event> as DeserializableHyleOutput>::deserialize("[1 100 200]");
    assert!(matches!(
        r,
        Err(CodecError::InvalidOutputFormat(OutputField::Origin))
    ));
}

#[test]
fn stream_truncated_inside_caller_names_the_field() {
    // origin decodes; the caller byte-array announces a word count the
    // stream does not hold
    let r = <HyleOutput<Event> as DeserializableHyleOutput>::deserialize("[1 100 200 0 0 0 5 1]");
    assert!(matches!(
        r,
        Err(CodecError::InvalidOutputFormat(OutputField::Caller))
    ));
}

#[test]
fn stream_ending_before_payload_from_names_the_field() {
    let r = <HyleOutput<Event> as DeserializableHyleOutput>::deserialize(
        "[1 100 200 0 0 0 0 0 0 999]",
    );
    assert!(matches!(
        r,
        Err(CodecError::InvalidOutputFormat(OutputField::PayloadFrom))
    ));
}

#[test]
fn stream_truncated_inside_payload_to_names_the_field() {
    let r = <HyleOutput<Event> as DeserializableHyleOutput>::deserialize(
        "[1 100 200 0 0 0 0 0 0 999 0 0 0 2 1]",
    );
    assert!(matches!(
        r,
        Err(CodecError::InvalidOutputFormat(OutputField::PayloadTo))
    ));
}

#[test]
fn word_failure_inside_origin_stays_an_encoding_error() {
    // the origin's pending word is three, whose hex form has odd length
    let r = <HyleOutput<Event> as DeserializableHyleOutput>::deserialize(
        "[1 100 200 0 3 5 0 0 0 999 0 0 0 0 0 0 1]",
    );
    assert!(matches!(r, Err(CodecError::InvalidEncoding)));
}

#[test]
fn truncated_payload_fails_with_amount_field() {
    let r = <HyleOutput<Event> as DeserializableHyleOutput>::deserialize(
        "[1 100 200 0 0 0 0 0 0 999 0 0 0 0 0 0]",
    );
    assert!(matches!(
        r,
        Err(CodecError::InvalidOutputFormat(OutputField::PayloadAmount))
    ));
}

#[test]
fn empty_trace_encodes_to_no_bytes() {
    let encoded = encode_trace(&Vec::new());
    assert_eq!(encoded.len(), 0);
}

#[test]
fn single_trace_entry_encodes_to_24_bytes_in_field_order() {
    let trace = vec![TraceEntry { pc: 3, ap: 1, fp: 2 }];
    let encoded = encode_trace(&trace);
    assert_eq!(encoded.len(), 24);
    let ap = u64::from_le_bytes(encoded[0..8].try_into().unwrap());
    let fp = u64::from_le_bytes(encoded[8..16].try_into().unwrap());
    let pc = u64::from_le_bytes(encoded[16..24].try_into().unwrap());
    assert_eq!((ap, fp, pc), (1, 2, 3));
}

#[test]
fn sparse_memory_encodes_only_occupied_addresses() {
    let memory = vec![
        Some(felt_of("7")),
        None,
        None,
        None,
        None,
        Some(felt_of("9")),
    ];
    let encoded = encode_memory(&memory);
    assert_eq!(encoded.len(), 80);
    assert_eq!(u64::from_le_bytes(encoded[0..8].try_into().unwrap()), 0);
    assert_eq!(&encoded[8..40], le_bytes_of_u64(7).as_slice());
    assert_eq!(u64::from_le_bytes(encoded[40..48].try_into().unwrap()), 5);
    assert_eq!(&encoded[48..80], le_bytes_of_u64(9).as_slice());
}

#[test]
fn felt_round_trips_through_bytes() {
    let f = felt_of("123456789012345678901234567890");
    let bytes = f.to_bytes_le();
    let g = Felt::from_bytes_le(bytes.clone()).expect("in range");
    assert_eq!(g.to_bytes_le(), bytes);
}

#[test]
fn errors_describe_their_class() {
    let e = process_args("abc").unwrap_err();
    assert_eq!(e.describe(), "invalid argument");
    let u = process_args("[1").unwrap_err();
    assert_eq!(u.describe(), "unbalanced brackets");
}

#[test]
fn felt_rejects_malformed_tokens() {
    assert!(Felt::from_dec_str("").is_none());
    assert!(Felt::from_dec_str("12a").is_none());
    assert!(Felt::from_dec_str("-5").is_none());
    assert!(Felt::from_dec_str(" 5").is_none());
}
