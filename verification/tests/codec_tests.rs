use mips_toolchain::codec::as_i32_be;
use mips_toolchain::codec::as_i32_le;
use mips_toolchain::codec::write_code;
use mips_toolchain::codec::Instruction;
use mips_toolchain::codec::II;
use mips_toolchain::codec::JI;
use mips_toolchain::codec::RI;
use mips_toolchain::Endian;

#[test]
#[allow(overflowing_literals)]
fn test_ii_decode() {
    let ii = II::decode(0b001000_00001_00010_0000000000001010);
    assert_eq!(
        ii,
        II {
            rs: 1,
            rt: 2,
            im: 10
        }
    );

    let ii = II::decode(0b001000_00001_00010_1111111111110110);
    assert_eq!(
        ii,
        II {
            rs: 1,
            rt: 2,
            im: -10
        }
    );
}

#[test]
fn test_ri_decode() {
    let ri = RI::decode(0b000000_00000_00000_00000_00000_001000);
    assert_eq!(
        ri,
        RI {
            rs: 0,
            rt: 0,
            rd: 0,
            sh: 0,
            fc: 8,
        }
    );
}

#[test]
fn test_ji_decode() {
    let ji = JI::decode(0b000000_00000_00000_0000000001111111);
    assert_eq!(ji, JI { ad: 127 });
}

#[test]
fn test_instruction() {
    assert_eq!(
        Instruction::ii(0x8, 0x1, 0x2, 0xa).code(),
        0b001000_00001_00010_0000000000001010
    );
    assert_eq!(
        Instruction::ii(0x8, 0x5, 0x0, 555).code(),
        0b001000_00101_00000_0000001000101011
    );
}

#[test]
fn test_code_decode_roundtrip_values() {
    // An I-format record with a negative immediate survives the round trip.
    let x = Instruction::ii(0x8, 17, 3, -555);
    let w = x.code();
    let ii = II::decode(w);
    assert_eq!(
        ii,
        II {
            rs: 17,
            rt: 3,
            im: -555
        }
    );

    // An R-format record keeps all five fields.
    let x = Instruction::ri(0, 1, 2, 3, 4, 0x21);
    let ri = RI::decode(x.code());
    assert_eq!(
        ri,
        RI {
            rs: 1,
            rt: 2,
            rd: 3,
            sh: 4,
            fc: 0x21,
        }
    );

    // A J-format record keeps its 26 address bits.
    let x = Instruction::ji(0x2, 0x03FF_FFFF);
    let ji = JI::decode(x.code());
    assert_eq!(ji, JI { ad: 0x03FF_FFFF });
}

#[test]
fn test_word_byte_roundtrip() {
    let mut le = Vec::new();
    write_code(Endian::Little, -123456789, &mut le);
    assert_eq!(le.len(), 4);
    assert_eq!(as_i32_le(&le), -123456789);

    let mut be = Vec::new();
    write_code(Endian::Big, -123456789, &mut be);
    assert_eq!(as_i32_be(&be), -123456789);
    // The same word serializes to reversed byte orders.
    let mut rev = le.clone();
    rev.reverse();
    assert_eq!(rev, be);
}
