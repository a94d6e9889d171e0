use mips_toolchain::assembler::assemble_to_u8_from_string;
use mips_toolchain::codec::Instruction;
use mips_toolchain::emulator::arithmetic_with_register;
use mips_toolchain::emulator::Emulator;
use mips_toolchain::emulator::Fault;
use mips_toolchain::emulator::LoadError;
use mips_toolchain::register::Register;
use mips_toolchain::Endian;

fn run_source(src: &str) -> String {
    let bin = assemble_to_u8_from_string(Endian::Little, src.to_string()).unwrap();
    let mut emu = Emulator::new();
    emu.clear_memory();
    emu.clear_register();
    emu.load_from_u8(&bin, Endian::Little).unwrap();
    emu.run().unwrap();
    emu.stdout_history
}

#[test]
fn test_addi_and_syscall() {
    let src = "addi $a0, $0, 2\naddi $a0, $a0, 3\nori $v0, $0, 1\nsyscall\njr $ra\n";
    assert_eq!(run_source(src), "5");
}

#[test]
fn test_jump_over_label() {
    let src = ".text\nj L\naddi $a0, $0, 34\nL:\naddi $a0, $0, -34\n\naddi $v0, $0, 1\nsyscall\njr $ra\n";
    assert_eq!(run_source(src), "-34");
}

#[test]
fn test_loop_prints_digits() {
    let src = "addi $t0, $0, 0\naddi $t1, $0, 10\naddi $v0, $0, 1\nL:\nor $a0, $0, $t0\nsyscall\naddi $t0, $t0, 1\nslt $t2, $t0, $t1\nbne $t2, $0, L\njr $ra\n";
    assert_eq!(run_source(src), "0123456789");
}

#[test]
fn test_multiply_hi_lo() {
    let src = "addi $t0, $0, 4\naddi $t1, $0, 5\nmultu $t0, $t1\nmflo $a0\naddi $v0, $0, 1\nsyscall\njr $ra\n";
    assert_eq!(run_source(src), "20");
}

#[test]
fn test_divide_quotient_and_remainder() {
    let src = "addi $t0, $0, 13\naddi $t1, $0, 2\ndiv $t0, $t1\nmflo $a0\naddi $v0, $0, 1\nsyscall\nmfhi $a0\nsyscall\njr $ra\n";
    assert_eq!(run_source(src), "61");
}

#[test]
fn test_memory_load_store() {
    let src = ".data\nV: .word 90, 91, 92\n.text\naddi $t0, $0, V\nsll $0, $0, 0\nlw $a0, 8($t0)\naddi $v0, $0, 1\nsyscall\njr $ra\n";
    // V resolves to the data start; the byte offset 8 reaches its third word.
    assert_eq!(run_source(src), "92");
}

#[test]
fn test_add_wraps_around() {
    // (-32768)^2 is 2^30; doubling it with addu wraps to the minimum word.
    let src = "addi $t0, $0, -32768\nmult $t0, $t0\nmflo $t2\naddu $a0, $t2, $t2\naddi $v0, $0, 1\nsyscall\njr $ra\n";
    assert_eq!(run_source(src), "-2147483648");
}

#[test]
fn test_zero_register_ignores_writes() {
    let src = "addi $zero, $zero, 7\nor $a0, $0, $zero\naddi $v0, $0, 1\nsyscall\njr $ra\n";
    assert_eq!(run_source(src), "0");
}

#[test]
fn test_syscall_other_codes_print_nothing() {
    let src = "addi $a0, $0, 9\naddi $v0, $0, 2\nsyscall\njr $ra\n";
    assert_eq!(run_source(src), "");
}

#[test]
fn test_big_endian_round_trip() {
    let src = "addi $a0, $0, 2\naddi $a0, $a0, 3\nori $v0, $0, 1\nsyscall\njr $ra\n";
    let bin = assemble_to_u8_from_string(Endian::Big, src.to_string()).unwrap();
    let mut emu = Emulator::new();
    emu.load_from_u8(&bin, Endian::Big).unwrap();
    emu.run().unwrap();
    assert_eq!(emu.stdout_history, "5");
}

#[test]
fn test_load_rejects_odd_length() {
    let mut emu = Emulator::new();
    assert_eq!(
        emu.load_from_u8(&vec![1, 2, 3], Endian::Little),
        Err(LoadError::Truncated)
    );
}

#[test]
fn test_load_rejects_oversized_image() {
    let mut emu = Emulator::new();
    let big = vec![0u8; 4 * 8193];
    assert_eq!(
        emu.load_from_u8(&big, Endian::Little),
        Err(LoadError::TooLarge)
    );
}

#[test]
fn test_step_reports_decode_fault() {
    let mut emu = Emulator::new();
    emu.pc = 3;
    emu.memory[3] = Instruction::ji(0x3F, 0).code();
    let e = emu.step().unwrap_err();
    assert_eq!(e.fault, Fault::Decode);
    assert_eq!(e.pc, 3);
}

#[test]
fn test_step_reports_divide_fault() {
    let mut emu = Emulator::new();
    emu.pc = 3;
    emu.memory[3] = Instruction::ri(0, 8, 9, 0, 0, 0x1A).code();
    let e = emu.step().unwrap_err();
    assert_eq!(e.fault, Fault::Arithmetic);
}

#[test]
fn test_shift_pipeline() {
    // sll doubles -16 to -32; srl is logical, so -16 shifted right by 28
    // leaves the low four bits, 15.
    let src = "addi $t0, $0, -16\nsll $t1, $t0, 1\nor $a0, $0, $t1\naddi $v0, $0, 1\nsyscall\nsrl $t2, $t0, 28\nor $a0, $0, $t2\nsyscall\njr $ra\n";
    assert_eq!(run_source(src), "-3215");
}

#[test]
fn test_shift_instructions() {
    let mut regs = Register::new();
    regs.set(9, -16);
    // srl is a logical shift: the sign bit is not kept.
    let srl = Instruction::ri(0, 0, 9, 10, 2, 0x02).code();
    assert_eq!(arithmetic_with_register(&mut regs, srl), Ok(true));
    assert_eq!(regs.get(10), 0x3FFF_FFFC);
    // sll shifts zeros in from the right.
    let sll = Instruction::ri(0, 0, 9, 11, 1, 0x00).code();
    assert_eq!(arithmetic_with_register(&mut regs, sll), Ok(true));
    assert_eq!(regs.get(11), -32);
}

#[test]
fn test_register_bank() {
    let mut regs = Register::new();
    assert_eq!(regs.get(Register::ZERO), 0);
    regs.set(Register::ZERO, 99);
    assert_eq!(regs.get(Register::ZERO), 0);
    regs.set(Register::HI, -1);
    regs.set(Register::LO, 7);
    assert_eq!(regs.get(Register::HI), -1);
    assert_eq!(regs.get(Register::LO), 7);
    regs.reset();
    assert_eq!(regs.get(Register::HI), 0);
}

#[test]
fn test_init_resets_cpu() {
    let mut emu = Emulator::new();
    emu.register.set(5, 42);
    emu.pc = 77;
    emu.init();
    assert_eq!(emu.pc, 0);
    assert_eq!(emu.register.get(5), 0);
}
