use fizzy::{parse, validate, Trap, Value};

fn decode_hex(text: &str) -> Vec<u8> {
    let digits: Vec<u8> = text
        .bytes()
        .map(|c| match c {
            b'0'..=b'9' => c - b'0',
            b'a'..=b'f' => c - b'a' + 10,
            _ => panic!("not a hex digit"),
        })
        .collect();
    digits.chunks(2).map(|pair| pair[0] * 16 + pair[1]).collect()
}

const FOUR_FUNCTIONS: &str = "0061736d01000000010e036000006000017f60027f7f017f030504000102000a150402000b0400412a0b0700200020016e0b0300000b";

#[test]
fn validate_wasm() {
    // Empty
    assert_eq!(validate(&[]), false);
    // Too short
    assert_eq!(validate(&[0x00]), false);
    // Valid
    assert_eq!(
        validate(&[0x00, 0x61, 0x73, 0x6d, 0x01, 0x00, 0x00, 0x00]),
        true
    );
    // Invalid version
    assert_eq!(
        validate(&[0x00, 0x61, 0x73, 0x6d, 0x01, 0x00, 0x00, 0x01]),
        false
    );
}

#[test]
fn parse_wasm() {
    assert!(parse(&[0x00, 0x61, 0x73, 0x6d, 0x01, 0x00, 0x00, 0x00]).is_some());
    assert!(parse(&[0x00, 0x61, 0x73, 0x6d, 0x01, 0x00, 0x00, 0x01]).is_none());
}

#[test]
fn instantiate_wasm() {
    let module = parse(&[0x00, 0x61, 0x73, 0x6d, 0x01, 0x00, 0x00, 0x00]);
    assert!(module.is_some());
    let instance = module.unwrap().instantiate();
    assert!(instance.is_some());
}

#[test]
fn execute_wasm() {
    let input = decode_hex(FOUR_FUNCTIONS);
    let module = parse(&input);
    assert!(module.is_some());
    let instance = module.unwrap().instantiate();
    assert!(instance.is_some());
    let mut instance = instance.unwrap();

    let result = instance.execute(0, &[]);
    assert!(!result.trapped);
    assert!(!result.has_value);

    let result = instance.execute(1, &[]);
    assert!(!result.trapped);
    assert!(result.has_value);
    assert_eq!(result.value.as_i32(), 42);

    // Explicit type specification
    let result = instance.execute(2, &[(42 as i32).into(), (2 as i32).into()]);
    assert!(!result.trapped);
    assert!(result.has_value);
    assert_eq!(result.value.as_i32(), 21);

    // Implicit i64 types (even though the code expects i32)
    let result = instance.execute(2, &[42.into(), 2.into()]);
    assert!(!result.trapped);
    assert!(result.has_value);
    assert_eq!(result.value.as_i32(), 21);

    let result = instance.execute(3, &[]);
    assert!(result.trapped);
    assert!(!result.has_value);
}

#[test]
fn validate_agrees_with_parse() {
    let good = decode_hex(FOUR_FUNCTIONS);
    assert_eq!(validate(&good), parse(&good).is_some());
    let mut bad = good.clone();
    bad.push(0);
    assert_eq!(validate(&bad), false);
    assert_eq!(validate(&bad), parse(&bad).is_some());
    let short = &good[..good.len() - 1];
    assert_eq!(validate(short), false);
    assert!(parse(short).is_none());
}

#[test]
fn short_or_wrong_preamble_is_rejected() {
    let good = [0x00u8, 0x61, 0x73, 0x6d, 0x01, 0x00, 0x00, 0x00];
    for n in 0..8 {
        assert!(!validate(&good[..n]));
        assert!(parse(&good[..n]).is_none());
    }
    for i in 0..8 {
        let mut bad = good;
        bad[i] ^= 0x10;
        assert!(!validate(&bad));
        assert!(parse(&bad).is_none());
    }
}

#[test]
fn same_call_twice_gives_same_result() {
    let input = decode_hex(FOUR_FUNCTIONS);
    let mut instance = parse(&input).unwrap().instantiate().unwrap();
    let first = instance.execute(2, &[Value::from(1000i32), Value::from(7i32)]);
    let second = instance.execute(2, &[Value::from(1000i32), Value::from(7i32)]);
    assert_eq!(first, second);
    assert_eq!(first.value.as_i32(), 142);
}

#[test]
fn division_by_zero_traps() {
    let input = decode_hex(FOUR_FUNCTIONS);
    let mut instance = parse(&input).unwrap().instantiate().unwrap();
    let result = instance.execute(2, &[Value::from(42i32), Value::from(0i32)]);
    assert!(result.trapped);
    assert!(!result.has_value);
    assert_eq!(result.trap, Some(Trap::DivisionByZero));
    assert_eq!(Trap::DivisionByZero.message(), "integer divide by zero");
    // The instance stays usable.
    let result = instance.execute(2, &[Value::from(42i32), Value::from(6i32)]);
    assert_eq!(result.value.as_i32(), 7);
}

#[test]
fn unreachable_traps_with_its_cause() {
    let input = decode_hex(FOUR_FUNCTIONS);
    let mut instance = parse(&input).unwrap().instantiate().unwrap();
    let result = instance.execute(3, &[]);
    assert_eq!(result.trap, Some(Trap::Unreachable));
    assert_eq!(result.value.as_u64(), 0);
}

#[test]
fn value_conversions() {
    assert_eq!(Value::from(-1i32).as_u64(), 0xffff_ffff_ffff_ffff);
    assert_eq!(Value::from(-1i32).as_i32(), -1);
    assert_eq!(Value::from(-1i32).as_u32(), 0xffff_ffff);
    assert_eq!(Value::from(0xffff_ffffu32).as_u64(), 0xffff_ffff);
    assert_eq!(Value::from(0xffff_ffffu32).as_i32(), -1);
    assert_eq!(Value::from(-2i64).as_i64(), -2);
    assert_eq!(Value::from(-2i64).as_u64(), 0xffff_ffff_ffff_fffe);
    assert_eq!(Value::from(0x1_0000_0005u64).as_u32(), 5);
    assert_eq!(Value::from(0x1_0000_0005u64).as_i64(), 0x1_0000_0005);
}

#[test]
fn module_answers_what_it_accepts() {
    let input = decode_hex(FOUR_FUNCTIONS);
    let module = parse(&input).unwrap();
    assert_eq!(module.function_count(), 4);
    assert!(module.accepts(0, 0));
    assert!(!module.accepts(0, 1));
    assert!(module.accepts(2, 2));
    assert!(!module.accepts(2, 1));
    assert!(!module.accepts(4, 0));
}

#[test]
fn exported_function_is_found_by_name() {
    // A module that exports its second function as "answer" and its memory as "memory".
    let bytes = [
        0x00, 0x61, 0x73, 0x6d, 0x01, 0x00, 0x00, 0x00, 0x01, 0x08, 0x02, 0x60, 0x00, 0x00, 0x60,
        0x00, 0x01, 0x7f, 0x03, 0x03, 0x02, 0x00, 0x01, 0x05, 0x03, 0x01, 0x00, 0x01, 0x07, 0x13,
        0x02, 0x06, b'a', b'n', b's', b'w', b'e', b'r', 0x00, 0x01, 0x06, b'm', b'e', b'm', b'o',
        b'r', b'y', 0x02, 0x00, 0x0a, 0x09, 0x02, 0x02, 0x00, 0x0b, 0x04, 0x00, 0x41, 0x2a, 0x0b,
    ];
    let module = parse(&bytes).unwrap();
    assert_eq!(module.exported_function(b"answer"), Some(1));
    assert_eq!(module.exported_function(b"memory"), None);
    assert_eq!(module.exported_function(b"answe"), None);
    assert_eq!(module.exported_function(b""), None);
    let mut instance = module.instantiate().unwrap();
    let f = instance.module().exported_function("answer".as_bytes()).unwrap();
    assert_eq!(instance.execute(f, &[]).value.as_i32(), 42);
}
