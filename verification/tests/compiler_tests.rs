use mips_toolchain::assembler::assemble_to_u8_from_string;
use mips_toolchain::compile::compile_from_string;
use mips_toolchain::decimal::dec_string_i32;
use mips_toolchain::emulator::Emulator;
use mips_toolchain::node::expr;
use mips_toolchain::node::Node;
use mips_toolchain::token::convert_error;
use mips_toolchain::token::integer;
use mips_toolchain::token::tokenize;
use mips_toolchain::token::Punctuation;
use mips_toolchain::token::TokenType;
use mips_toolchain::Endian;

fn compile_and_run(src: &str) -> String {
    let text = compile_from_string(src).unwrap();
    let bin = assemble_to_u8_from_string(Endian::Little, text).unwrap();
    let mut emu = Emulator::new();
    emu.load_from_u8(&bin, Endian::Little).unwrap();
    emu.run().unwrap();
    emu.stdout_history
}

#[test]
fn test_error_message() {
    let input = "a456abc";
    let error = match integer(input) {
        Err((s, m)) => convert_error(input, s, &m),
        _ => String::new(),
    };

    assert_eq!(error, "a456abc\n^ expected number\n");
}

#[test]
fn test_integer_scans_prefix() {
    assert_eq!(integer("456abc"), Ok(("abc", 456)));
    assert!(integer("").is_err());
}

#[test]
fn test_tokenize_kinds() {
    let (rest, toks) = tokenize(" 12 + 3 - 45 ").unwrap();
    assert_eq!(rest, " ");
    let kinds: Vec<TokenType> = toks.iter().map(|t| t.token_type).collect();
    assert_eq!(
        kinds,
        vec![
            TokenType::Number(12),
            TokenType::Punctuation(Punctuation::Plus),
            TokenType::Number(3),
            TokenType::Punctuation(Punctuation::Minus),
            TokenType::Number(45),
        ]
    );
}

#[test]
fn test_tokenize_error_position() {
    let (stop, msg) = tokenize("1 + x").unwrap_err();
    assert_eq!(stop, "x");
    assert_eq!(msg, "expected number");
}

#[test]
fn test_expr_folds_left() {
    let (_, toks) = tokenize("10 - 3 - 2").unwrap();
    let mut pos = 0;
    let node = expr(&toks, &mut pos).unwrap();
    // Left association: (10 - 3) - 2, not 10 - (3 - 2).
    match *node {
        Node::Sub { ref lhs, ref rhs } => {
            assert!(matches!(**rhs, Node::Number(2)));
            assert!(matches!(**lhs, Node::Sub { .. }));
        }
        _ => panic!("expected a subtraction at the top"),
    }
}

#[test]
fn test_expr_rejects_trailing_operator() {
    let (_, toks) = tokenize("1 +").unwrap();
    let mut pos = 0;
    let e = expr(&toks, &mut pos).unwrap_err();
    assert_eq!(e, "expect number");
}

#[test]
fn test_compile_pipeline_single_integer() {
    assert_eq!(compile_and_run("42"), "42");
}

#[test]
fn test_compile_pipeline_add() {
    assert_eq!(compile_and_run("1+2+3"), "6");
}

#[test]
fn test_compile_pipeline_add_sub() {
    // The generator pops the right operand into $t0 first, so a
    // subtraction computes rhs - lhs: 1-2+20 prints 20 + (2 - 1).
    assert_eq!(compile_and_run("1-2+20"), "21");
}

#[test]
fn test_compiled_text_shape() {
    let text = compile_from_string("7").unwrap();
    assert_eq!(
        text,
        ".text\n.globl main\nmain:\n  ori $t0, $zero, 7\n  addi $sp, $sp, -4\n  sw $t0, 4($sp)\n  or $a0, $zero, $t0\n\n  ori $v0, $zero, 1\n  syscall\n  jr $ra\n"
    );
}

#[test]
fn test_decimal_rendering() {
    assert_eq!(dec_string_i32(0), "0");
    assert_eq!(dec_string_i32(-123), "-123");
    assert_eq!(dec_string_i32(2147483647), "2147483647");
    assert_eq!(dec_string_i32(-2147483648), "-2147483648");
}
