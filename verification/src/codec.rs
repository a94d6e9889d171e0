//! Bit-exact encoding and decoding of the three MIPS instruction shapes.
//!
//! Wire layout, bit 31 down to bit 0:
//! - R: `op[31:26] | rs[25:21] | rt[20:16] | rd[15:11] | sh[10:6] | fc[5:0]`
//! - I: `op[31:26] | rs[25:21] | rt[20:16] | im[15:0]`
//! - J: `op[31:26] | ad[25:0]`
//!
//! The encoder masks the immediate to its low 16 bits; the decoder
//! sign-extends it back to 32 bits. All other fields are unsigned.

use crate::Binary;
use crate::Endian;
use vstd::prelude::*;

verus! {

/// Field masks of an instruction word.
pub struct Mask {}

impl Mask {
    pub const OP: u32 = 0xFC00_0000;

    pub const RS: u32 = 0x03E0_0000;

    pub const RT: u32 = 0x001F_0000;

    pub const RD: u32 = 0x0000_F800;

    pub const SH: u32 = 0x0000_07C0;

    pub const FC: u32 = 0x0000_003F;
}

/// The opcode bits of a word.
pub open spec fn field_op(c: u32) -> u32 {
    c >> 26
}

/// The source register field of a word.
pub open spec fn field_rs(c: u32) -> u32 {
    (c >> 21) & 0x1F
}

/// The target register field of a word.
pub open spec fn field_rt(c: u32) -> u32 {
    (c >> 16) & 0x1F
}

/// The destination register field of an R-format word.
pub open spec fn field_rd(c: u32) -> u32 {
    (c >> 11) & 0x1F
}

/// The shift-amount field of an R-format word.
pub open spec fn field_sh(c: u32) -> u32 {
    (c >> 6) & 0x1F
}

/// The function field of an R-format word.
pub open spec fn field_fc(c: u32) -> u32 {
    c & 0x3F
}

/// The 16 immediate bits of an I-format word, still unsigned.
pub open spec fn field_im(c: u32) -> u32 {
    c & 0xFFFF
}

/// The 26 address bits of a J-format word.
pub open spec fn field_ad(c: u32) -> u32 {
    c & 0x03FF_FFFF
}

/// A 16-bit field read as a two's-complement number.
pub open spec fn sign_extend_16(x: u32) -> int
    recommends
        x < 0x10000,
{
    if x < 0x8000 {
        x as int
    } else {
        x - 0x10000
    }
}

/// An I-format word assembled from its fields.
pub open spec fn encode_i(op: u32, rs: u32, rt: u32, im: u32) -> u32 {
    (op << 26) | (rs << 21) | (rt << 16) | (im & 0xFFFF)
}

/// An R-format word assembled from its fields.
pub open spec fn encode_r(op: u32, rs: u32, rt: u32, rd: u32, sh: u32, fc: u32) -> u32 {
    (op << 26) | (rs << 21) | (rt << 16) | (rd << 11) | (sh << 6) | fc
}

/// A J-format word assembled from its fields.
pub open spec fn encode_j(op: u32, ad: u32) -> u32 {
    (op << 26) | ad
}

/// A fully resolved instruction record: every operand is already a number.
/// The encoder works on these; the assembler resolves labels first.
#[derive(Debug, PartialEq, Clone, Copy)]
pub enum Instruction {
    I { op: Binary, rs: Binary, rt: Binary, im: Binary },
    R { op: Binary, rs: Binary, rt: Binary, rd: Binary, sh: Binary, fc: Binary },
    J { op: Binary, ad: Binary },
}

impl Instruction {
    /// The instruction word this record encodes to, as bits.
    pub open spec fn spec_code(self) -> u32 {
        match self {
            Instruction::I { op, rs, rt, im } => encode_i(
                op as u32,
                rs as u32,
                rt as u32,
                im as u32,
            ),
            Instruction::R { op, rs, rt, rd, sh, fc } => encode_r(
                op as u32,
                rs as u32,
                rt as u32,
                rd as u32,
                sh as u32,
                fc as u32,
            ),
            Instruction::J { op, ad } => encode_j(op as u32, ad as u32),
        }
    }

    /// All fields lie in the range their bit layout gives them; the
    /// immediate is a signed 16-bit value.
    pub open spec fn wf(self) -> bool {
        match self {
            Instruction::I { op, rs, rt, im } => 0 <= op < 64 && 0 <= rs < 32 && 0 <= rt < 32
                && -0x8000 <= im < 0x8000,
            Instruction::R { op, rs, rt, rd, sh, fc } => 0 <= op < 64 && 0 <= rs < 32 && 0 <= rt
                < 32 && 0 <= rd < 32 && 0 <= sh < 32 && 0 <= fc < 64,
            Instruction::J { op, ad } => 0 <= op < 64 && 0 <= ad < 0x0400_0000,
        }
    }

    pub fn ii(op: Binary, rs: Binary, rt: Binary, im: Binary) -> (r: Self)
        ensures
            r == (Instruction::I { op, rs, rt, im }),
    {
        Self::I { op, rs, rt, im }
    }

    pub fn ri(op: Binary, rs: Binary, rt: Binary, rd: Binary, sh: Binary, fc: Binary) -> (r: Self)
        ensures
            r == (Instruction::R { op, rs, rt, rd, sh, fc }),
    {
        Self::R { op, rs, rt, rd, sh, fc }
    }

    pub fn ji(op: Binary, ad: Binary) -> (r: Self)
        ensures
            r == (Instruction::J { op, ad }),
    {
        Self::J { op, ad }
    }

    /// Encode this record into one instruction word.
    pub fn code(&self) -> (c: Binary)
        ensures
            c as u32 == self.spec_code(),
    {
        match *self {
            Instruction::I { op, rs, rt, im } => {
                let c: u32 = (bits_of_word(op) << 26) | (bits_of_word(rs) << 21) | (bits_of_word(
                    rt,
                ) << 16) | (bits_of_word(im) & 0xFFFF);
                word_from_bits(c)
            },
            Instruction::R { op, rs, rt, rd, sh, fc } => {
                let c: u32 = (bits_of_word(op) << 26) | (bits_of_word(rs) << 21) | (bits_of_word(
                    rt,
                ) << 16) | (bits_of_word(rd) << 11) | (bits_of_word(sh) << 6) | bits_of_word(fc);
                word_from_bits(c)
            },
            Instruction::J { op, ad } => {
                let c: u32 = (bits_of_word(op) << 26) | bits_of_word(ad);
                word_from_bits(c)
            },
        }
    }
}

/// Reading a word as bits and back changes nothing.
pub proof fn lemma_word_bits_inverse(c: u32, x: i32)
    by (bit_vector)
    ensures
        (c as i32) as u32 == c,
        (x as u32) as i32 == x,
{
}

/// The bits of a word, reinterpreted as unsigned.
pub fn bits_of_word(b: Binary) -> (r: u32)
    ensures
        r == b as u32,
{
    #[verifier::truncate] (b as u32)
}

/// A word with the given bits, reinterpreted as signed.
pub fn word_from_bits(c: u32) -> (r: Binary)
    ensures
        r as u32 == c,
{
    proof {
        assert((c as i32) as u32 == c) by (bit_vector);
    }
    #[verifier::truncate] (c as i32)
}

/// The decoded form of an I-format word.
#[derive(Debug, PartialEq, Clone, Copy)]
pub struct II {
    pub rs: Binary,
    pub rt: Binary,
    pub im: Binary,
}

/// The decoded form of a J-format word.
#[derive(Debug, PartialEq, Clone, Copy)]
pub struct JI {
    pub ad: Binary,
}

/// The decoded form of an R-format word.
#[derive(Debug, PartialEq, Clone, Copy)]
pub struct RI {
    pub rs: Binary,
    pub rt: Binary,
    pub rd: Binary,
    pub sh: Binary,
    pub fc: Binary,
}

/// What decoding an I-format word yields: unsigned register fields and the
/// sign-extended immediate.
pub open spec fn spec_decode_ii(c: u32) -> II {
    II {
        rs: field_rs(c) as i32,
        rt: field_rt(c) as i32,
        im: sign_extend_16(field_im(c)) as i32,
    }
}

/// What decoding an R-format word yields.
pub open spec fn spec_decode_ri(c: u32) -> RI {
    RI {
        rs: field_rs(c) as i32,
        rt: field_rt(c) as i32,
        rd: field_rd(c) as i32,
        sh: field_sh(c) as i32,
        fc: field_fc(c) as i32,
    }
}

/// What decoding a J-format word yields.
pub open spec fn spec_decode_ji(c: u32) -> JI {
    JI { ad: field_ad(c) as i32 }
}

/// Every field a decoder extracts fits its width.
pub proof fn lemma_field_bounds(c: u32)
    by (bit_vector)
    ensures
        field_op(c) < 64,
        field_rs(c) < 32,
        field_rt(c) < 32,
        field_rd(c) < 32,
        field_sh(c) < 32,
        field_fc(c) < 64,
        field_im(c) < 0x10000,
        field_ad(c) < 0x0400_0000,
{
}

impl II {
    /// Decode the register fields and the sign-extended immediate of an
    /// I-format word.
    pub fn decode(code: Binary) -> (r: II)
        ensures
            r == spec_decode_ii(code as u32),
    {
        let c = bits_of_word(code);
        proof {
            lemma_field_bounds(c);
        }
        let rs = ((c >> 21) & 0x1F) as i32;
        let rt = ((c >> 16) & 0x1F) as i32;
        let im16 = c & 0xFFFF;
        let im: i32 = if im16 < 0x8000 {
            proof {
                assert(c & 0xFFFF < 0x8000 ==> (c & 0xFFFF) as i32 == sign_extend_16(c & 0xFFFF))
                    by (bit_vector);
            }
            im16 as i32
        } else {
            proof {
                assert(c & 0xFFFF >= 0x8000 ==> ((c & 0xFFFF) | 0xFFFF_0000) as i32 == (c
                    & 0xFFFF) - 0x10000) by (bit_vector);
            }
            #[verifier::truncate] ((im16 | 0xFFFF_0000) as i32)
        };
        II { rs, rt, im }
    }
}

impl RI {
    /// Decode the five register-format fields of an R-format word.
    pub fn decode(code: Binary) -> (r: RI)
        ensures
            r == spec_decode_ri(code as u32),
    {
        let c = bits_of_word(code);
        proof {
            lemma_field_bounds(c);
        }
        let rs = ((c >> 21) & 0x1F) as i32;
        let rt = ((c >> 16) & 0x1F) as i32;
        let rd = ((c >> 11) & 0x1F) as i32;
        let sh = ((c >> 6) & 0x1F) as i32;
        let fc = (c & 0x3F) as i32;
        RI { rs, rt, rd, sh, fc }
    }
}

impl JI {
    /// Decode the 26 address bits of a J-format word.
    pub fn decode(code: Binary) -> (r: JI)
        ensures
            r == spec_decode_ji(code as u32),
    {
        let c = bits_of_word(code);
        proof {
            lemma_field_bounds(c);
        }
        let ad = (c & 0x03FF_FFFF) as i32;
        JI { ad }
    }
}

/// Encoding then decoding an I-format word recovers each field.
proof fn lemma_fields_of_encode_i(op: u32, rs: u32, rt: u32, im: u32)
    by (bit_vector)
    requires
        op < 64,
        rs < 32,
        rt < 32,
    ensures
        field_op(encode_i(op, rs, rt, im)) == op,
        field_rs(encode_i(op, rs, rt, im)) == rs,
        field_rt(encode_i(op, rs, rt, im)) == rt,
        field_im(encode_i(op, rs, rt, im)) == im & 0xFFFF,
{
}

/// Encoding then decoding an R-format word recovers each field.
proof fn lemma_fields_of_encode_r(op: u32, rs: u32, rt: u32, rd: u32, sh: u32, fc: u32)
    by (bit_vector)
    requires
        op < 64,
        rs < 32,
        rt < 32,
        rd < 32,
        sh < 32,
        fc < 64,
    ensures
        field_op(encode_r(op, rs, rt, rd, sh, fc)) == op,
        field_rs(encode_r(op, rs, rt, rd, sh, fc)) == rs,
        field_rt(encode_r(op, rs, rt, rd, sh, fc)) == rt,
        field_rd(encode_r(op, rs, rt, rd, sh, fc)) == rd,
        field_sh(encode_r(op, rs, rt, rd, sh, fc)) == sh,
        field_fc(encode_r(op, rs, rt, rd, sh, fc)) == fc,
{
}

/// Encoding then decoding a J-format word recovers each field.
proof fn lemma_fields_of_encode_j(op: u32, ad: u32)
    by (bit_vector)
    requires
        op < 64,
        ad < 0x0400_0000,
    ensures
        field_op(encode_j(op, ad)) == op,
        field_ad(encode_j(op, ad)) == ad,
{
}

/// A signed 16-bit immediate survives the mask-then-sign-extend round trip.
proof fn lemma_sign_extend_roundtrip(im: i32)
    by (bit_vector)
    requires
        -0x8000 <= im < 0x8000,
    ensures
        sign_extend_16((im as u32) & 0xFFFF) == im as int,
{
}

/// The word held by four bytes read in little-endian order.
pub open spec fn word_of_le_bytes(b0: u8, b1: u8, b2: u8, b3: u8) -> u32 {
    (b0 as u32) | ((b1 as u32) << 8) | ((b2 as u32) << 16) | ((b3 as u32) << 24)
}

/// The four bytes of a word, least significant first.
pub open spec fn le_bytes_of(w: i32) -> Seq<u8> {
    seq![
        (w as u32 & 0xFF) as u8,
        ((w as u32 >> 8) & 0xFF) as u8,
        ((w as u32 >> 16) & 0xFF) as u8,
        ((w as u32 >> 24) & 0xFF) as u8,
    ]
}

/// The four bytes of a word, most significant first.
pub open spec fn be_bytes_of(w: i32) -> Seq<u8> {
    le_bytes_of(w).reverse()
}

/// The four bytes of a word in the given byte order.
pub open spec fn bytes_of_word(e: Endian, w: i32) -> Seq<u8> {
    match e {
        Endian::Little => le_bytes_of(w),
        Endian::Big => be_bytes_of(w),
    }
}

/// Splitting a word into bytes and reading them back yields the word.
proof fn lemma_word_bytes_split(c: u32)
    by (bit_vector)
    ensures
        word_of_le_bytes(
            (c & 0xFF) as u8,
            ((c >> 8) & 0xFF) as u8,
            ((c >> 16) & 0xFF) as u8,
            ((c >> 24) & 0xFF) as u8,
        ) == c,
{
}

/// A word serialized with [`write_code`] and read back with the matching
/// byte order is unchanged.
pub proof fn lemma_word_bytes_roundtrip(w: i32, e: Endian)
    ensures
        word_of_le_bytes(
            bytes_of_word(e, w)[endian_index(e, 0)],
            bytes_of_word(e, w)[endian_index(e, 1)],
            bytes_of_word(e, w)[endian_index(e, 2)],
            bytes_of_word(e, w)[endian_index(e, 3)],
        ) == w as u32,
{
    lemma_word_bytes_split(w as u32);
    assert(le_bytes_of(w).reverse() =~= seq![
        le_bytes_of(w)[3],
        le_bytes_of(w)[2],
        le_bytes_of(w)[1],
        le_bytes_of(w)[0],
    ]);
}

/// The position within a serialized word at which the byte of the given
/// little-endian significance sits.
pub open spec fn endian_index(e: Endian, i: int) -> int {
    match e {
        Endian::Little => i,
        Endian::Big => 3 - i,
    }
}

/// The word a byte image holds at word index `i`, in the given byte order.
pub open spec fn spec_word_at(e: Endian, bytes: Seq<u8>, i: int) -> u32
    recommends
        0 <= i,
        4 * i + 4 <= bytes.len(),
{
    word_of_le_bytes(
        bytes[4 * i + endian_index(e, 0)],
        bytes[4 * i + endian_index(e, 1)],
        bytes[4 * i + endian_index(e, 2)],
        bytes[4 * i + endian_index(e, 3)],
    )
}

/// Read a word from the first four bytes of a big-endian slice.
pub fn as_i32_be(array: &[u8]) -> (r: i32)
    requires
        array@.len() >= 4,
    ensures
        r as u32 == word_of_le_bytes(array@[3], array@[2], array@[1], array@[0]),
{
    let c: u32 = (array[3] as u32) | ((array[2] as u32) << 8) | ((array[1] as u32) << 16) | ((
    array[0] as u32) << 24);
    word_from_bits(c)
}

/// Read a word from the first four bytes of a little-endian slice.
pub fn as_i32_le(array: &[u8]) -> (r: i32)
    requires
        array@.len() >= 4,
    ensures
        r as u32 == word_of_le_bytes(array@[0], array@[1], array@[2], array@[3]),
{
    let c: u32 = (array[0] as u32) | ((array[1] as u32) << 8) | ((array[2] as u32) << 16) | ((
    array[3] as u32) << 24);
    word_from_bits(c)
}

/// Append one word to a byte vector in the given byte order.
pub fn write_code(endian: Endian, code: Binary, output: &mut Vec<u8>)
    ensures
        final(output)@ == old(output)@ + bytes_of_word(endian, code),
{
    let c = bits_of_word(code);
    proof {
        assert(c & 0xFF < 0x100 && (c >> 8) & 0xFF < 0x100 && (c >> 16) & 0xFF < 0x100 && (c >> 24)
            & 0xFF < 0x100) by (bit_vector);
    }
    let b0 = (c & 0xFF) as u8;
    let b1 = ((c >> 8) & 0xFF) as u8;
    let b2 = ((c >> 16) & 0xFF) as u8;
    let b3 = ((c >> 24) & 0xFF) as u8;
    match endian {
        Endian::Little => {
            output.push(b0);
            output.push(b1);
            output.push(b2);
            output.push(b3);
            proof {
                assert(output@ =~= old(output)@ + le_bytes_of(code));
            }
        },
        Endian::Big => {
            output.push(b3);
            output.push(b2);
            output.push(b1);
            output.push(b0);
            proof {
                assert(le_bytes_of(code).reverse() =~= seq![
                    le_bytes_of(code)[3],
                    le_bytes_of(code)[2],
                    le_bytes_of(code)[1],
                    le_bytes_of(code)[0],
                ]);
                assert(output@ =~= old(output)@ + be_bytes_of(code));
            }
        },
    }
}

/// Round trip of the codec: decoding the encoded word of any well-formed
/// instruction record recovers the record, the immediate compared after
/// sign extension.
pub proof fn lemma_code_decode_roundtrip(x: Instruction)
    requires
        x.wf(),
    ensures
        x matches Instruction::I { op, rs, rt, im } ==> field_op(x.spec_code()) == op as u32
            && spec_decode_ii(x.spec_code()) == (II { rs, rt, im }),
        x matches Instruction::R { op, rs, rt, rd, sh, fc } ==> field_op(x.spec_code())
            == op as u32 && spec_decode_ri(x.spec_code()) == (RI { rs, rt, rd, sh, fc }),
        x matches Instruction::J { op, ad } ==> field_op(x.spec_code()) == op as u32
            && spec_decode_ji(x.spec_code()) == (JI { ad }),
{
    match x {
        Instruction::I { op, rs, rt, im } => {
            lemma_fields_of_encode_i(op as u32, rs as u32, rt as u32, im as u32);
            lemma_sign_extend_roundtrip(im);
            assert((im as u32) & 0xFFFF == field_im(x.spec_code()));
        },
        Instruction::R { op, rs, rt, rd, sh, fc } => {
            lemma_fields_of_encode_r(op as u32, rs as u32, rt as u32, rd as u32, sh as u32,
                fc as u32);
        },
        Instruction::J { op, ad } => {
            lemma_fields_of_encode_j(op as u32, ad as u32);
        },
    }
}

} // verus!
