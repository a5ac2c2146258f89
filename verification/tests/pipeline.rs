//! End-to-end scenarios: source text through the scanner, parser, compiler
//! and virtual machine, observing the requests the machine hands out.

use vietarion::chunk::Chunk;
use vietarion::compiler::Compiler;
use vietarion::lexer::Lexer;
use vietarion::parser::Parser;
use vietarion::vm::{HaltReason, IoReq, Step, VM};

/// Compiles source text into a chunk.
fn compile_source(src: &str) -> Chunk {
    let mut lx = Lexer::new(src);
    let tokens = lx.scan_tokens().expect("lexing failed");
    let mut ps = Parser::new(tokens);
    let prog = ps.parse().expect("parsing failed");
    let mut cp = Compiler::new();
    cp.compile(&prog).expect("compiling failed")
}

/// Drives a machine to its halt, answering requests from canned inputs,
/// and collects everything printed (each print, newline or not, as one
/// entry).
fn run_collect(chunk: &Chunk, lines: &[&str], files: &[Option<&str>]) -> (Vec<String>, HaltReason) {
    let mut vm = VM::new();
    let mut out: Vec<String> = Vec::new();
    let mut next_line = 0;
    let mut next_file = 0;
    let mut budget = 200_000u64;
    loop {
        match vm.run(chunk, 10_000) {
            Step::Halted(r) => return (out, r),
            Step::Io(IoReq::Print(s)) => out.push(s),
            Step::Io(IoReq::PrintRaw(s)) => out.push(s),
            Step::Io(IoReq::Random) => vm.provide_random(7),
            Step::Io(IoReq::ReadLine) => {
                let l = if next_line < lines.len() { lines[next_line] } else { "" };
                next_line += 1;
                vm.provide_line(l);
            }
            Step::Io(IoReq::ReadFile(_)) => {
                let f = if next_file < files.len() { files[next_file] } else { None };
                next_file += 1;
                vm.provide_file(f.map(|s| s.to_string()));
            }
            Step::Io(IoReq::WriteFile(_, _)) => {}
            Step::Io(IoReq::Sleep(_)) => {}
            Step::Io(IoReq::Clear) => {}
            Step::Ran => {}
        }
        budget = budget.checked_sub(1).expect("program did not halt in time");
    }
}

#[test]
fn scenario_if_prints_ok() {
    let chunk = compile_source("tb a = 3 neu a > 2 { in(\"ok\") }");
    let (out, reason) = run_collect(&chunk, &[], &[]);
    assert_eq!(out, vec!["ok".to_string()]);
    assert_eq!(reason, HaltReason::Done);
}

#[test]
fn scenario_if_false_prints_nothing() {
    let chunk = compile_source("tb a = 1 neu a > 2 { in(\"ok\") }");
    let (out, reason) = run_collect(&chunk, &[], &[]);
    assert!(out.is_empty());
    assert_eq!(reason, HaltReason::Done);
}

#[test]
fn scenario_while_counts_to_three() {
    let chunk = compile_source("tb i = 0 lap i < 3 { in(i) i = i + 1 }");
    let (out, reason) = run_collect(&chunk, &[], &[]);
    assert_eq!(out, vec!["0".to_string(), "1".to_string(), "2".to_string()]);
    assert_eq!(reason, HaltReason::Done);
}

#[test]
fn scenario_random_is_number_in_range() {
    // Run the draw many times: the printed value must always read as a
    // whole number between one and ten.
    for _ in 0..50 {
        let chunk = compile_source("in(ngaunhien())");
        let mut vm = VM::new();
        loop {
            match vm.run(&chunk, 10_000) {
                Step::Halted(r) => {
                    assert_eq!(r, HaltReason::Done);
                    break;
                }
                Step::Io(IoReq::Random) => {
                    // The library's own draw; its contract bounds it.
                    let v = vietarion::vm::random_value();
                    match &v {
                        vietarion::value::Value::Number(n) => match n {
                            vietarion::num::Num::Finite(m) => {
                                assert!(*m >= 1_000_000 && *m <= 10_000_000);
                                assert_eq!(*m % 1_000_000, 0);
                            }
                            _ => panic!("random draw was not finite"),
                        },
                        _ => panic!("random draw was not a Number"),
                    }
                    vm.provide_random(3);
                }
                Step::Io(IoReq::Print(s)) => {
                    assert_eq!(s, "3");
                }
                _ => {}
            }
        }
    }
}

#[test]
fn scenario_missing_file_reads_as_zero_text() {
    let chunk = compile_source("in(doc_file(\"khong_ton_tai.txt\"))");
    let (out, reason) = run_collect(&chunk, &[], &[None]);
    assert_eq!(out, vec!["0".to_string()]);
    assert_eq!(reason, HaltReason::Done);
}

#[test]
fn scenario_present_file_reads_as_its_text() {
    let chunk = compile_source("in(doc_file(\"save.txt\"))");
    let (out, _) = run_collect(&chunk, &[], &[Some("42")]);
    assert_eq!(out, vec!["42".to_string()]);
}

#[test]
fn scenario_read_line_is_trimmed() {
    let chunk = compile_source("in(nhap())");
    let (out, _) = run_collect(&chunk, &["  hello \n"], &[]);
    assert_eq!(out, vec!["hello".to_string()]);
}

#[test]
fn division_by_zero_runs_to_inf() {
    let chunk = compile_source("in(1 / 0)");
    let (out, reason) = run_collect(&chunk, &[], &[]);
    assert_eq!(out, vec!["inf".to_string()]);
    assert_eq!(reason, HaltReason::Done);
}

#[test]
fn zero_by_zero_runs_to_nan() {
    let chunk = compile_source("in(0 / 0)");
    let (out, _) = run_collect(&chunk, &[], &[]);
    assert_eq!(out, vec!["NaN".to_string()]);
}

#[test]
fn concat_number_and_text_both_ways() {
    let chunk = compile_source("in(3 + \"x\") in(\"x\" + 3)");
    let (out, reason) = run_collect(&chunk, &[], &[]);
    assert_eq!(out, vec!["3x".to_string(), "x3".to_string()]);
    assert_eq!(reason, HaltReason::Done);
}

#[test]
fn arithmetic_and_comparisons() {
    let chunk = compile_source("in(2 + 3 * 4) in(7 / 2) in(1 < 2) in(2 < 1) in(2 == 2)");
    let (out, _) = run_collect(&chunk, &[], &[]);
    assert_eq!(out, vec!["14", "3.5", "1", "0", "1"]);
}

#[test]
fn undeclared_global_reads_as_nil_and_prints_nothing() {
    let chunk = compile_source("in(khong_co)");
    let (out, reason) = run_collect(&chunk, &[], &[]);
    assert!(out.is_empty());
    assert_eq!(reason, HaltReason::Done);
}

#[test]
fn store_then_load_reads_back() {
    let chunk = compile_source("tb x = 41 tb y = x + 1 in(y)");
    let (out, _) = run_collect(&chunk, &[], &[]);
    assert_eq!(out, vec!["42".to_string()]);
}

#[test]
fn else_branch_runs_when_condition_false() {
    let chunk = compile_source("tb a = 1 neu a > 2 { in(\"then\") } neu_khong { in(\"else\") }");
    let (out, _) = run_collect(&chunk, &[], &[]);
    assert_eq!(out, vec!["else".to_string()]);
}

#[test]
fn function_declared_and_called() {
    let chunk = compile_source("ham chao() { in(\"hi\") } chao() chao()");
    let (out, reason) = run_collect(&chunk, &[], &[]);
    assert_eq!(out, vec!["hi".to_string(), "hi".to_string()]);
    assert_eq!(reason, HaltReason::Done);
}

#[test]
fn string_equality_compares_text() {
    let chunk = compile_source("in(\"a\" == \"a\") in(\"a\" == \"b\")");
    let (out, _) = run_collect(&chunk, &[], &[]);
    assert_eq!(out, vec!["1", "0"]);
}

#[test]
fn truthiness_of_strings() {
    let chunk = compile_source("neu \"x\" { in(\"nonempty\") } neu \"\" { in(\"empty\") }");
    let (out, _) = run_collect(&chunk, &[], &[]);
    assert_eq!(out, vec!["nonempty".to_string()]);
}

#[test]
fn lexer_reports_unterminated_string() {
    let mut lx = Lexer::new("in(\"never closed");
    let r = lx.scan_tokens();
    assert!(r.is_err());
    let e = r.err().unwrap();
    assert_eq!(e.msg_en, "Unterminated string literal");
    // The error points at the quote that was never closed.
    assert_eq!(e.line, 1);
    assert_eq!(e.col, 4);
}

#[test]
fn declaration_without_sign_is_accepted() {
    // `tb a 3` declares a with 3; the sign is optional.
    let chunk = compile_source("tb a 3 in(a)");
    let (out, reason) = run_collect(&chunk, &[], &[]);
    assert_eq!(out, vec!["3".to_string()]);
    assert_eq!(reason, HaltReason::Done);
}

#[test]
fn tokens_carry_start_column_and_length() {
    let mut lx = Lexer::new("tb abc = 12");
    let tokens = lx.scan_tokens().unwrap();
    // tb at column 1 (length 2), abc at 4 (3), = at 8 (1), 12 at 10 (2).
    assert_eq!((tokens[0].line, tokens[0].col, tokens[0].length), (1, 1, 2));
    assert_eq!((tokens[1].line, tokens[1].col, tokens[1].length), (1, 4, 3));
    assert_eq!((tokens[2].line, tokens[2].col, tokens[2].length), (1, 8, 1));
    assert_eq!((tokens[3].line, tokens[3].col, tokens[3].length), (1, 10, 2));
}

#[test]
fn lexer_reports_invalid_character() {
    let mut lx = Lexer::new("tb a = 1 ; in(a)");
    let r = lx.scan_tokens();
    assert!(r.is_err());
    assert_eq!(r.err().unwrap().msg_en, "Unexpected character");
}

#[test]
fn parser_reports_missing_brace() {
    let mut lx = Lexer::new("neu 1 > 0 { in(\"x\")");
    let tokens = lx.scan_tokens().unwrap();
    let mut ps = Parser::new(tokens);
    let r = ps.parse();
    assert!(r.is_err());
    assert_eq!(r.err().unwrap().msg_en, "Missing }");
}

#[test]
fn comments_are_skipped() {
    let chunk = compile_source("# loi chao\nin(\"ok\") # cuoi dong");
    let (out, _) = run_collect(&chunk, &[], &[]);
    assert_eq!(out, vec!["ok".to_string()]);
}

#[test]
fn sleep_and_clear_requests_are_emitted() {
    let chunk = compile_source("ngu(50) xoa()");
    let mut vm = VM::new();
    let mut saw_sleep = false;
    let mut saw_clear = false;
    loop {
        match vm.run(&chunk, 10_000) {
            Step::Halted(_) => break,
            Step::Io(IoReq::Sleep(ms)) => {
                assert_eq!(ms, 50);
                saw_sleep = true;
            }
            Step::Io(IoReq::Clear) => {
                saw_clear = true;
            }
            _ => {}
        }
    }
    assert!(saw_sleep && saw_clear);
}

#[test]
fn write_file_pops_content_then_path() {
    let chunk = compile_source("ghi_file(\"save.txt\", \"noi dung\")");
    let mut vm = VM::new();
    let mut seen = None;
    loop {
        match vm.run(&chunk, 10_000) {
            Step::Halted(_) => break,
            Step::Io(IoReq::WriteFile(path, content)) => {
                seen = Some((path, content));
            }
            _ => {}
        }
    }
    let (path, content) = seen.expect("no write request");
    assert_eq!(path, "save.txt");
    assert_eq!(content, "noi dung");
}
