use mips_toolchain::parser::label;
use mips_toolchain::parser::one_parse;
use mips_toolchain::parser::parse;
use mips_toolchain::Instruction;
use mips_toolchain::Operand;
use mips_toolchain::Operation;
use mips_toolchain::SectionType;

#[test]
fn test_one_parse() {
    let input = "addi $1, $2, -10";
    assert_eq!(
        one_parse(input),
        Ok((
            "",
            Instruction::ii(
                Operation(0x8),
                Operand::Register(0x2),
                Operand::Register(0x1),
                Operand::Constant(-10)
            )
        ))
    );

    let input = "jr $ra";
    assert_eq!(
        one_parse(input),
        Ok((
            "",
            Instruction::ri(
                Operation(0x0),
                Operand::Register(31),
                Operand::Register(0x0),
                Operand::Register(0x0),
                Operand::Constant(0x0),
                Operand::Constant(0x8),
            )
        ))
    );

    let input = ".data";
    assert_eq!(
        one_parse(input),
        Ok(("", Instruction::Section(SectionType::Data)))
    );

    let input = ".word 1, 2, 3";
    assert_eq!(
        one_parse(input),
        Ok(("", Instruction::Section(SectionType::Word(vec![1, 2, 3]))))
    );
    let input = ".space 20";
    assert_eq!(
        one_parse(input),
        Ok(("", Instruction::Section(SectionType::Space(20))))
    );
}

#[test]
fn parser_test_parse() {
    let input = r#"j L

addi $a0, $0, 34
L:
addi $a0, $0, -34

addi $v0, $0, 1
syscall
jr $ra
"#;

    let o = parse(input).unwrap();
    assert_eq!(o.len(), 7);
    assert_eq!(
        o[2],
        Instruction::LabelDef {
            name: "L".to_string()
        }
    );
}

#[test]
fn test_parse_register_names() {
    let o = parse("addu $t3, $s7, $gp").unwrap();
    assert_eq!(
        o[0],
        Instruction::ri(
            Operation(0x0),
            Operand::Register(23),
            Operand::Register(28),
            Operand::Register(11),
            Operand::Constant(0),
            Operand::Constant(0x21),
        )
    );
}

#[test]
fn test_parse_memory_offsets() {
    let o = parse("lw $t0, 400($t1)\nsw $t0, -8($sp)").unwrap();
    assert_eq!(
        o[0],
        Instruction::ii(
            Operation(0x23),
            Operand::Register(9),
            Operand::Register(8),
            Operand::Constant(400)
        )
    );
    assert_eq!(
        o[1],
        Instruction::ii(
            Operation(0x2b),
            Operand::Register(29),
            Operand::Register(8),
            Operand::Constant(-8)
        )
    );
}

#[test]
fn test_parse_comments_and_globl() {
    let input = "# a comment line\naddi $1, $0, 1 # trailing\n.globl main, start\n";
    let o = parse(input).unwrap();
    assert_eq!(o.len(), 2);
    assert_eq!(
        o[1],
        Instruction::Section(SectionType::Globl(vec![
            "main".to_string(),
            "start".to_string()
        ]))
    );
}

#[test]
fn test_parse_error_line_number() {
    let err = parse("addi $1, $0, 1\n!?\n").unwrap_err();
    assert_eq!(err, "Line: 1 !?\n");
}

#[test]
fn test_label_reads_word() {
    let (rest, op) = label("loop99: x");
    assert_eq!(op, Operand::Label("loop99".to_string()));
    assert_eq!(rest, ": x");
}
