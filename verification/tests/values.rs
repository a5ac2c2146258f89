//! Unit tests for the value model, the decimal text of numbers, and the
//! persisted byte form of chunks.

use vietarion::chunk::{deserialize_chunk, serialize_chunk, Chunk, OpCode};
use vietarion::num::{num_add, num_div, num_eq, num_gt, num_mul, num_sub, Num};
use vietarion::text::{num_to_string, parse_num};
use vietarion::value::{value_add, value_eq, value_gt, Value};
use vietarion::vm::{HaltReason, Step, VM};

fn fin(units: i64) -> Num {
    Num::Finite(units)
}

fn whole(n: i64) -> Num {
    Num::Finite(n * 1_000_000)
}

#[test]
fn rendering_whole_and_fractional() {
    assert_eq!(num_to_string(whole(3)), "3");
    assert_eq!(num_to_string(whole(0)), "0");
    assert_eq!(num_to_string(whole(-7)), "-7");
    assert_eq!(num_to_string(fin(3_500_000)), "3.5");
    assert_eq!(num_to_string(fin(-1_250_000)), "-1.25");
    assert_eq!(num_to_string(fin(123)), "0.000123");
    assert_eq!(num_to_string(Num::PosInf), "inf");
    assert_eq!(num_to_string(Num::NegInf), "-inf");
    assert_eq!(num_to_string(Num::NaN), "NaN");
}

#[test]
fn parsing_decimal_text() {
    assert_eq!(parse_num("3"), whole(3));
    assert_eq!(parse_num("3.5"), fin(3_500_000));
    assert_eq!(parse_num("-2"), whole(-2));
    assert_eq!(parse_num("-0.25"), fin(-250_000));
    assert_eq!(parse_num("0.0001234"), fin(123));  // truncated past six places
    // Text that is not a signed decimal number reads as zero.
    assert_eq!(parse_num(""), fin(0));
    assert_eq!(parse_num("abc"), fin(0));
    assert_eq!(parse_num("3x"), fin(0));
    assert_eq!(parse_num("3."), fin(0));
    assert_eq!(parse_num("-"), fin(0));
    assert_eq!(parse_num(" 3"), fin(0));
    // A magnitude past the finite range saturates.
    assert_eq!(parse_num("99999999999999999999"), Num::PosInf);
    assert_eq!(parse_num("-99999999999999999999"), Num::NegInf);
}

#[test]
fn parse_then_render_round_trip() {
    for s in ["3", "3.5", "-2", "0", "123.456789"] {
        let n = parse_num(s);
        let t = num_to_string(n);
        assert_eq!(parse_num(&t), n);
    }
}

#[test]
fn arithmetic_basics() {
    assert_eq!(num_add(whole(2), whole(3)), whole(5));
    assert_eq!(num_sub(whole(2), whole(3)), whole(-1));
    assert_eq!(num_mul(fin(2_500_000), whole(4)), whole(10));
    assert_eq!(num_div(whole(7), whole(2)), fin(3_500_000));
    assert_eq!(num_div(whole(1), whole(0)), Num::PosInf);
    assert_eq!(num_div(whole(-1), whole(0)), Num::NegInf);
    assert_eq!(num_div(whole(0), whole(0)), Num::NaN);
    // A zero divisor never yields a finite quotient.
    for a in [whole(5), whole(-5), whole(0)] {
        assert!(!num_div(a, whole(0)).is_finite());
    }
    // Saturation at the edge of the finite range.
    assert_eq!(num_add(fin(i64::MAX - 1), whole(1)), Num::PosInf);
    assert_eq!(num_sub(fin(-(i64::MAX - 1)), whole(1)), Num::NegInf);
}

#[test]
fn non_finite_propagation() {
    assert_eq!(num_add(Num::PosInf, Num::NegInf), Num::NaN);
    assert_eq!(num_add(Num::PosInf, whole(5)), Num::PosInf);
    assert_eq!(num_mul(Num::PosInf, whole(0)), Num::NaN);
    assert_eq!(num_mul(Num::PosInf, whole(-2)), Num::NegInf);
    assert_eq!(num_div(whole(5), Num::PosInf), whole(0));
    assert_eq!(num_add(Num::NaN, whole(1)), Num::NaN);
}

#[test]
fn nan_compares_false_with_everything() {
    assert!(!num_eq(Num::NaN, Num::NaN));
    assert!(!num_gt(Num::NaN, whole(0)));
    assert!(!num_gt(whole(1), Num::NaN));
    assert!(num_gt(Num::PosInf, whole(1)));
    assert!(num_gt(whole(1), Num::NegInf));
}

#[test]
fn coercion_of_values() {
    assert_eq!(Value::Str("3.5".to_string()).as_number(), fin(3_500_000));
    assert_eq!(Value::Str("xin chao".to_string()).as_number(), fin(0));
    assert_eq!(Value::Nil.as_number(), fin(0));
    assert!(Value::Number(whole(1)).is_truthy());
    assert!(!Value::Number(whole(0)).is_truthy());
    assert!(!Value::Number(whole(-1)).is_truthy());
    assert!(Value::Number(Num::PosInf).is_truthy());
    assert!(!Value::Number(Num::NaN).is_truthy());
    assert!(Value::Str("x".to_string()).is_truthy());
    assert!(!Value::Str("".to_string()).is_truthy());
    assert!(!Value::Nil.is_truthy());
}

#[test]
fn concatenation_is_left_biased_and_total() {
    let a = value_add(Value::Number(whole(3)), Value::Str("x".to_string()));
    match a {
        Value::Str(s) => assert_eq!(s, "3x"),
        _ => panic!("expected text"),
    }
    let b = value_add(Value::Str("x".to_string()), Value::Number(whole(3)));
    match b {
        Value::Str(s) => assert_eq!(s, "x3"),
        _ => panic!("expected text"),
    }
    let c = value_add(Value::Nil, Value::Str("t".to_string()));
    match c {
        Value::Str(s) => assert_eq!(s, "t"),
        _ => panic!("expected text"),
    }
    let d = value_add(Value::Number(whole(2)), Value::Number(whole(2)));
    match d {
        Value::Number(n) => assert_eq!(n, whole(4)),
        _ => panic!("expected a number"),
    }
}

#[test]
fn value_comparisons() {
    assert!(value_eq(
        &Value::Str("a".to_string()),
        &Value::Str("a".to_string()),
    ));
    assert!(!value_eq(
        &Value::Str("a".to_string()),
        &Value::Str("b".to_string()),
    ));
    // Mixed kinds compare numerically.
    assert!(value_eq(
        &Value::Str("2".to_string()),
        &Value::Number(whole(2)),
    ));
    assert!(value_gt(
        &Value::Number(whole(3)),
        &Value::Str("2".to_string()),
    ));
}

#[test]
fn opcode_bytes_round_trip() {
    let all = [
        OpCode::Halt,
        OpCode::LoadConst,
        OpCode::Add,
        OpCode::Sub,
        OpCode::Mul,
        OpCode::Div,
        OpCode::StoreGlobal,
        OpCode::LoadGlobal,
        OpCode::Print,
        OpCode::Eq,
        OpCode::JumpIfFalse,
        OpCode::Jump,
        OpCode::Gt,
        OpCode::Lt,
        OpCode::Pop,
        OpCode::Random,
        OpCode::Return,
        OpCode::Call,
        OpCode::ReadFile,
        OpCode::Sleep,
        OpCode::Clear,
        OpCode::ReadLine,
        OpCode::WriteFile,
        OpCode::PrintRaw,
    ];
    for op in all {
        assert_eq!(OpCode::decode(op.byte()), Some(op));
    }
    assert_eq!(OpCode::decode(16), None);
    assert_eq!(OpCode::decode(200), None);
}

#[test]
fn serialize_then_deserialize_is_identity_on_code_and_numbers() {
    let chunk = Chunk {
        code: vec![1, 0, 1, 1, 2, 8, 0],
        constants: vec![
            Value::Number(whole(42)),
            Value::Number(fin(-3_500_000)),
            Value::Number(Num::PosInf),
            Value::Number(Num::NegInf),
            Value::Number(Num::NaN),
            Value::Str("7.5".to_string()),
        ],
        names: vec!["x".to_string()],
    };
    let bytes = serialize_chunk(&chunk);
    let back = deserialize_chunk(&bytes).expect("round trip failed");
    // The instruction stream comes back byte for byte.
    assert_eq!(back.code, chunk.code);
    // Each constant comes back as the numeric reading of the original;
    // only numbers survive the persisted form, so the text constant
    // returns as its parsed number.
    assert_eq!(back.constants.len(), chunk.constants.len());
    for (orig, got) in chunk.constants.iter().zip(back.constants.iter()) {
        match got {
            Value::Number(n) => assert_eq!(*n, orig.as_number()),
            _ => panic!("a persisted constant must be a number"),
        }
    }
    // The name pool does not survive the persisted form.
    assert!(back.names.is_empty());
}

#[test]
fn truncated_bytecode_is_rejected() {
    // Too short for the header.
    assert!(deserialize_chunk(&vec![1, 0]).is_err());
    // Declares two constants but holds none.
    assert!(deserialize_chunk(&vec![2, 0, 0, 0]).is_err());
    // Declares one constant and holds exactly it, plus no code: fine.
    let mut ok = vec![1, 0, 0, 0];
    ok.extend_from_slice(&[0u8; 8]);
    let c = deserialize_chunk(&ok).expect("valid header rejected");
    assert_eq!(c.constants.len(), 1);
    assert!(c.code.is_empty());
}

#[test]
fn unknown_opcode_is_a_fault() {
    let chunk = Chunk { code: vec![16], constants: vec![], names: vec![] };
    let mut vm = VM::new();
    match vm.run(&chunk, 100) {
        Step::Halted(r) => assert_eq!(r, HaltReason::IllegalInstruction),
        _ => panic!("expected a halt"),
    }
}

#[test]
fn bad_constant_index_is_a_fault() {
    let chunk = Chunk { code: vec![1, 5, 0], constants: vec![], names: vec![] };
    let mut vm = VM::new();
    match vm.run(&chunk, 100) {
        Step::Halted(r) => assert_eq!(r, HaltReason::IllegalInstruction),
        _ => panic!("expected a halt"),
    }
}

#[test]
fn stack_overflow_is_a_fault() {
    // Load the same constant forever without popping.
    let mut code: Vec<u8> = Vec::new();
    for _ in 0..300 {
        code.push(1);
        code.push(0);
    }
    code.push(0);
    let chunk = Chunk {
        code,
        constants: vec![Value::Number(whole(1))],
        names: vec![],
    };
    let mut vm = VM::new();
    match vm.run(&chunk, 10_000) {
        Step::Halted(r) => assert_eq!(r, HaltReason::StackOverflow),
        _ => panic!("expected a halt"),
    }
}

#[test]
fn end_of_code_halts_normally() {
    let chunk = Chunk { code: vec![14], constants: vec![], names: vec![] };
    let mut vm = VM::new();
    match vm.run(&chunk, 100) {
        Step::Halted(r) => assert_eq!(r, HaltReason::Done),
        _ => panic!("expected a halt"),
    }
}
