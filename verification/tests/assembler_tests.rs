use mips_toolchain::assembler::assemble_to_u8_from_string;
use mips_toolchain::assembler::gen_symbol_table;
use mips_toolchain::assembler::get_data_section;
use mips_toolchain::assembler::split_sections;
use mips_toolchain::codec::as_i32_le;
use mips_toolchain::parser::parse;
use mips_toolchain::AsmError;
use mips_toolchain::Endian;
use mips_toolchain::FileHeader;
use mips_toolchain::Instruction;
use mips_toolchain::SectionType;

fn sections_of(input: &str) -> Vec<Vec<Instruction>> {
    let mut tokens = parse(input).unwrap();
    if let Some(Instruction::Section(SectionType::Text)) = tokens.get(0) {
    } else {
        tokens.insert(0, Instruction::Section(SectionType::Text));
    }
    split_sections(tokens)
}

#[test]
fn test_label() {
    let input = r#"
        .text
        L1: addi $t0, $zero, L3
        L2: addi $t0, $zero, L4
        .data
        L3: .space 20
        L4: .space 16
        L5: .space 12
        "#;

    let sections = sections_of(input);
    let file_header = FileHeader::new(&sections);
    let symbol_table = gen_symbol_table(&sections, &file_header).unwrap();

    assert_eq!(symbol_table.get(&"L1".to_string()), Some(3));
    assert_eq!(symbol_table.get(&"L2".to_string()), Some(4));
    assert_eq!(symbol_table.get(&"L3".to_string()), Some(5));
    assert_eq!(symbol_table.get(&"L4".to_string()), Some(10));
    assert_eq!(symbol_table.get(&"L5".to_string()), Some(14));
}

#[test]
fn test_data_section() {
    let input = r#"
        .text
        L1: addi $t0, $zero, L3
        L2: addi $t0, $zero, L4
        .data
        L3: .space 20
        L4: .space 16
        L5: .word 1, 2, 3
        "#;

    let sections = sections_of(input);
    let data = get_data_section(&sections);

    assert_eq!(data, vec![0, 0, 0, 0, 0, 0, 0, 0, 0, 1, 2, 3]);
}

#[test]
fn test_two_data_segment_layout() {
    // Two data segments lay out one after the other: symbols point into
    // the concatenated data image.
    let input = ".data\nL3: .space 20\n.data\nL4: .space 16\nL5: .word 1, 2, 3\n";
    let sections = sections_of(input);
    let file_header = FileHeader::new(&sections);
    let symbol_table = gen_symbol_table(&sections, &file_header).unwrap();
    // start_data is 3: there are no instructions.
    assert_eq!(symbol_table.get(&"L3".to_string()), Some(3));
    assert_eq!(symbol_table.get(&"L4".to_string()), Some(3 + 5));
    assert_eq!(symbol_table.get(&"L5".to_string()), Some(3 + 9));
    let data = get_data_section(&sections);
    assert_eq!(data, vec![0, 0, 0, 0, 0, 0, 0, 0, 0, 1, 2, 3]);
}

#[test]
fn test_header_words() {
    let bytes =
        assemble_to_u8_from_string(Endian::Little, "addi $1, $0, 1\njr $ra\n".to_string()).unwrap();
    assert_eq!(bytes.len() % 4, 0);
    let words: Vec<i32> = bytes.chunks(4).map(|c| as_i32_le(c)).collect();
    assert_eq!(words[0], 3);
    assert_eq!(words[1], 3);
    assert_eq!(words[2], 5);
    assert_eq!(words.len(), 5);
}

#[test]
fn test_duplicate_label_is_fatal() {
    let r = assemble_to_u8_from_string(
        Endian::Little,
        "L: addi $1, $0, 1\nL: jr $ra\n".to_string(),
    );
    assert_eq!(r.unwrap_err(), AsmError::DuplicateLabel("L".to_string()));
}

#[test]
fn test_undefined_label_is_fatal() {
    let r = assemble_to_u8_from_string(Endian::Little, "j NOPE\n".to_string());
    assert_eq!(r.unwrap_err(), AsmError::UndefinedLabel("NOPE".to_string()));
}

#[test]
fn test_parse_error_is_fatal() {
    let r = assemble_to_u8_from_string(Endian::Little, "addi $1, $0\n".to_string());
    assert_eq!(
        r.unwrap_err(),
        AsmError::Parse("Line: 0 addi $1, $0\n".to_string())
    );
}
