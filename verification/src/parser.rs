//! The assembly-text parser.
//!
//! A line-oriented but whitespace-tolerant grammar: mnemonics and label
//! names are alphanumeric words, registers start with `$`, numbers are
//! decimal and may be negative, a leading `.` opens a directive, a
//! trailing `:` defines a label, and `#` starts a comment that runs to the
//! end of the line. The grammar is written down once as spec functions
//! over the character sequence ([`spec_one_parse`], [`spec_parse_from`]),
//! and the executable parser is proved to return exactly what they say.

use crate::decimal::dec_digits;
use crate::Binary;
use crate::Instruction;
use crate::ItemV;
use crate::Operand;
use crate::OperandV;
use crate::Operation;
use crate::SectionType;
use crate::SectionV;
use vstd::prelude::*;
use vstd::string::StrSliceExecFns;
use vstd::string::StringExecFns;

verus! {

/// The whitespace characters between tokens.
pub open spec fn is_space(c: char) -> bool {
    c == ' ' || c == '\t' || c == '\r' || c == '\n'
}

/// A decimal digit.
pub open spec fn is_digit(c: char) -> bool {
    48 <= c as u32 <= 57
}

/// A character of an identifier: a letter or a digit.
pub open spec fn is_ident(c: char) -> bool {
    is_digit(c) || (65 <= c as u32 <= 90) || (97 <= c as u32 <= 122)
}

pub(crate) fn char_is_space(c: char) -> (r: bool)
    ensures
        r == is_space(c),
{
    c == ' ' || c == '\t' || c == '\r' || c == '\n'
}

pub(crate) fn char_is_digit(c: char) -> (r: bool)
    ensures
        r == is_digit(c),
{
    let u = c as u32;
    48 <= u && u <= 57
}

fn char_is_ident(c: char) -> (r: bool)
    ensures
        r == is_ident(c),
{
    let u = c as u32;
    (48 <= u && u <= 57) || (65 <= u && u <= 90) || (97 <= u && u <= 122)
}

/// The first position at or after `pos` that holds no space.
pub open spec fn spec_skip_spaces(s: Seq<char>, pos: int) -> int
    decreases s.len() - pos,
{
    if pos < s.len() && is_space(s[pos]) {
        spec_skip_spaces(s, pos + 1)
    } else {
        pos
    }
}

/// Where token scanning resumes: spaces and whole `#` comments are
/// skipped. The flag says whether scanning stands inside a comment.
pub open spec fn spec_skip_ws_from(s: Seq<char>, pos: int, in_comment: bool) -> int
    decreases s.len() - pos,
{
    if pos >= s.len() {
        pos
    } else if in_comment {
        if s[pos] == '\n' {
            spec_skip_ws_from(s, pos + 1, false)
        } else {
            spec_skip_ws_from(s, pos + 1, true)
        }
    } else {
        if is_space(s[pos]) {
            spec_skip_ws_from(s, pos + 1, false)
        } else if s[pos] == '#' {
            spec_skip_ws_from(s, pos + 1, true)
        } else {
            pos
        }
    }
}

/// The first position of the next token: spaces and comments skipped.
pub open spec fn spec_skip_ws(s: Seq<char>, pos: int) -> int {
    spec_skip_ws_from(s, pos, false)
}

/// The end of the identifier starting at `pos` (which may be empty).
pub open spec fn spec_ident_end(s: Seq<char>, pos: int) -> int
    decreases s.len() - pos,
{
    if pos < s.len() && is_ident(s[pos]) {
        spec_ident_end(s, pos + 1)
    } else {
        pos
    }
}

/// The end of the digit run starting at `pos` (which may be empty).
pub open spec fn spec_digit_end(s: Seq<char>, pos: int) -> int
    decreases s.len() - pos,
{
    if pos < s.len() && is_digit(s[pos]) {
        spec_digit_end(s, pos + 1)
    } else {
        pos
    }
}

/// The numeric value of one digit character.
pub open spec fn digit_val(c: char) -> int {
    c as u32 - 48
}

/// The value of the digit run `s[from..to]`, read in base 10.
pub open spec fn spec_digits_val(s: Seq<char>, from: int, to: int) -> int
    decreases to - from,
{
    if to <= from {
        0
    } else {
        spec_digits_val(s, from, to - 1) * 10 + digit_val(s[to - 1])
    }
}

/// A value forced into the signed 32-bit range: out-of-range numerals
/// saturate at the nearest bound.
pub open spec fn clamp_word(v: int) -> Binary {
    if v < -0x8000_0000 {
        -0x8000_0000i32
    } else if v > 0x7FFF_FFFF {
        0x7FFF_FFFFi32
    } else {
        v as i32
    }
}

/// A decimal number at `pos`: an optional minus sign, then at least one
/// digit. Yields the clamped value and the position after the digits.
pub open spec fn spec_number(s: Seq<char>, pos: int) -> Option<(Binary, int)> {
    let neg = pos < s.len() && s[pos] == '-';
    let p = if neg {
        pos + 1
    } else {
        pos
    };
    let e = spec_digit_end(s, p);
    if e == p {
        None
    } else {
        let mag = spec_digits_val(s, p, e);
        Some((clamp_word(if neg { -mag } else { mag }), e))
    }
}

/// Skip spaces, executable form.
fn skip_spaces(s: &str, pos: usize) -> (r: usize)
    requires
        pos <= s@.len(),
    ensures
        r == spec_skip_spaces(s@, pos as int),
        pos <= r <= s@.len(),
{
    let len = s.unicode_len();
    let mut p = pos;
    while p < len && char_is_space(s.get_char(p))
        invariant
            pos <= p <= len,
            len == s@.len(),
            spec_skip_spaces(s@, pos as int) == spec_skip_spaces(s@, p as int),
        decreases len - p,
    {
        p = p + 1;
    }
    p
}

/// Skip spaces and comments, executable form.
fn skip_ws(s: &str, pos: usize) -> (r: usize)
    requires
        pos <= s@.len(),
    ensures
        r == spec_skip_ws(s@, pos as int),
        pos <= r <= s@.len(),
{
    let len = s.unicode_len();
    let mut p = pos;
    let mut in_comment = false;
    loop
        invariant
            pos <= p <= len,
            len == s@.len(),
            spec_skip_ws(s@, pos as int) == spec_skip_ws_from(s@, p as int, in_comment),
        decreases 2 * (len - p) + (if in_comment { 1int } else { 0int }),
    {
        if p >= len {
            return p;
        }
        let c = s.get_char(p);
        if in_comment {
            if c == '\n' {
                in_comment = false;
            }
            p = p + 1;
        } else {
            if char_is_space(c) {
                p = p + 1;
            } else if c == '#' {
                in_comment = true;
                p = p + 1;
            } else {
                return p;
            }
        }
    }
}

/// End of an identifier, executable form.
fn ident_end(s: &str, pos: usize) -> (r: usize)
    requires
        pos <= s@.len(),
    ensures
        r == spec_ident_end(s@, pos as int),
        pos <= r <= s@.len(),
{
    let len = s.unicode_len();
    let mut p = pos;
    while p < len && char_is_ident(s.get_char(p))
        invariant
            pos <= p <= len,
            len == s@.len(),
            spec_ident_end(s@, pos as int) == spec_ident_end(s@, p as int),
        decreases len - p,
    {
        p = p + 1;
    }
    p
}

/// Parse a decimal number, executable form.
fn parse_number(s: &str, pos: usize) -> (r: Option<(Binary, usize)>)
    requires
        pos <= s@.len(),
    ensures
        ({
            let sp = spec_number(s@, pos as int);
            match r {
                None => sp is None,
                Some((v, e)) => sp == Some((v, e as int)) && pos < e <= s@.len(),
            }
        }),
{
    let len = s.unicode_len();
    let neg = pos < len && s.get_char(pos) == '-';
    let p = if neg {
        pos + 1
    } else {
        pos
    };
    let mut i = p;
    let mut acc: u64 = 0;
    while i < len && char_is_digit(s.get_char(i))
        invariant
            p <= i <= len,
            len == s@.len(),
            spec_digit_end(s@, p as int) == spec_digit_end(s@, i as int),
            acc <= 0x8000_0000,
            ({
                let dv = spec_digits_val(s@, p as int, i as int);
                (dv <= 0x8000_0000 && acc == dv) || (dv > 0x8000_0000 && acc == 0x8000_0000)
            }),
        decreases len - i,
    {
        let d = (s.get_char(i) as u32 - 48) as u64;
        let t = acc * 10 + d;
        if t > 0x8000_0000 {
            acc = 0x8000_0000;
        } else {
            acc = t;
        }
        i = i + 1;
        proof {
            let dv0 = spec_digits_val(s@, p as int, i - 1);
            let dv = spec_digits_val(s@, p as int, i as int);
            assert(dv == dv0 * 10 + digit_val(s@[i - 1]));
            if dv0 > 0x8000_0000 {
                assert(dv > 0x8000_0000) by (nonlinear_arith)
                    requires
                        dv == dv0 * 10 + digit_val(s@[i - 1]),
                        dv0 > 0x8000_0000,
                        digit_val(s@[i - 1]) >= 0,
                ;
            }
        }
    }
    if i == p {
        return None;
    }
    let v: Binary = if neg {
        if acc >= 0x8000_0000 {
            i32::MIN
        } else {
            -(acc as i32)
        }
    } else {
        if acc >= 0x8000_0000 {
            i32::MAX
        } else {
            acc as i32
        }
    };
    Some((v, i))
}

/// Does `s[from..to]` spell exactly the word `lit`?
fn range_is(s: &str, from: usize, to: usize, lit: &str) -> (r: bool)
    requires
        from <= to <= s@.len(),
    ensures
        r == (s@.subrange(from as int, to as int) == lit@),
{
    let n = lit.unicode_len();
    if to - from != n {
        proof {
            assert(s@.subrange(from as int, to as int).len() != lit@.len());
        }
        return false;
    }
    let mut i: usize = 0;
    while i < n
        invariant
            i <= n,
            n == lit@.len(),
            from + n <= s@.len(),
            to == from + n,
            forall|j: int| 0 <= j < i ==> s@[from + j] == lit@[j],
        decreases n - i,
    {
        if s.get_char(from + i) != lit.get_char(i) {
            proof {
                assert(s@.subrange(from as int, to as int)[i as int] != lit@[i as int]);
            }
            return false;
        }
        i = i + 1;
    }
    proof {
        assert(s@.subrange(from as int, to as int) =~= lit@);
    }
    true
}

/// The register index of an ABI register name, if the word is one.
pub open spec fn spec_reg_name_val(name: Seq<char>) -> Option<Binary> {
    if name == "zero"@ {
        Some(0i32)
    } else if name == "at"@ {
        Some(1i32)
    } else if name == "v0"@ {
        Some(2i32)
    } else if name == "v1"@ {
        Some(3i32)
    } else if name == "a0"@ {
        Some(4i32)
    } else if name == "a1"@ {
        Some(5i32)
    } else if name == "a2"@ {
        Some(6i32)
    } else if name == "a3"@ {
        Some(7i32)
    } else if name == "t0"@ {
        Some(8i32)
    } else if name == "t1"@ {
        Some(9i32)
    } else if name == "t2"@ {
        Some(10i32)
    } else if name == "t3"@ {
        Some(11i32)
    } else if name == "t4"@ {
        Some(12i32)
    } else if name == "t5"@ {
        Some(13i32)
    } else if name == "t6"@ {
        Some(14i32)
    } else if name == "t7"@ {
        Some(15i32)
    } else if name == "s0"@ {
        Some(16i32)
    } else if name == "s1"@ {
        Some(17i32)
    } else if name == "s2"@ {
        Some(18i32)
    } else if name == "s3"@ {
        Some(19i32)
    } else if name == "s4"@ {
        Some(20i32)
    } else if name == "s5"@ {
        Some(21i32)
    } else if name == "s6"@ {
        Some(22i32)
    } else if name == "s7"@ {
        Some(23i32)
    } else if name == "s8"@ {
        Some(24i32)
    } else if name == "s9"@ {
        Some(25i32)
    } else if name == "k0"@ {
        Some(26i32)
    } else if name == "k1"@ {
        Some(27i32)
    } else if name == "gp"@ {
        Some(28i32)
    } else if name == "sp"@ {
        Some(29i32)
    } else if name == "fp"@ {
        Some(30i32)
    } else if name == "ra"@ {
        Some(31i32)
    } else {
        None
    }
}

/// Look up an ABI register name, executable form.
fn reg_name_val(s: &str, from: usize, to: usize) -> (r: Option<Binary>)
    requires
        from <= to <= s@.len(),
    ensures
        r == spec_reg_name_val(s@.subrange(from as int, to as int)),
{
    if range_is(s, from, to, "zero") {
        Some(0)
    } else if range_is(s, from, to, "at") {
        Some(1)
    } else if range_is(s, from, to, "v0") {
        Some(2)
    } else if range_is(s, from, to, "v1") {
        Some(3)
    } else if range_is(s, from, to, "a0") {
        Some(4)
    } else if range_is(s, from, to, "a1") {
        Some(5)
    } else if range_is(s, from, to, "a2") {
        Some(6)
    } else if range_is(s, from, to, "a3") {
        Some(7)
    } else if range_is(s, from, to, "t0") {
        Some(8)
    } else if range_is(s, from, to, "t1") {
        Some(9)
    } else if range_is(s, from, to, "t2") {
        Some(10)
    } else if range_is(s, from, to, "t3") {
        Some(11)
    } else if range_is(s, from, to, "t4") {
        Some(12)
    } else if range_is(s, from, to, "t5") {
        Some(13)
    } else if range_is(s, from, to, "t6") {
        Some(14)
    } else if range_is(s, from, to, "t7") {
        Some(15)
    } else if range_is(s, from, to, "s0") {
        Some(16)
    } else if range_is(s, from, to, "s1") {
        Some(17)
    } else if range_is(s, from, to, "s2") {
        Some(18)
    } else if range_is(s, from, to, "s3") {
        Some(19)
    } else if range_is(s, from, to, "s4") {
        Some(20)
    } else if range_is(s, from, to, "s5") {
        Some(21)
    } else if range_is(s, from, to, "s6") {
        Some(22)
    } else if range_is(s, from, to, "s7") {
        Some(23)
    } else if range_is(s, from, to, "s8") {
        Some(24)
    } else if range_is(s, from, to, "s9") {
        Some(25)
    } else if range_is(s, from, to, "k0") {
        Some(26)
    } else if range_is(s, from, to, "k1") {
        Some(27)
    } else if range_is(s, from, to, "gp") {
        Some(28)
    } else if range_is(s, from, to, "sp") {
        Some(29)
    } else if range_is(s, from, to, "fp") {
        Some(30)
    } else if range_is(s, from, to, "ra") {
        Some(31)
    } else {
        None
    }
}

/// One operand after optional spaces: `$` followed by a number or an ABI
/// name is a register; a bare number is a constant; anything else is a
/// (possibly empty) label word. An operand never fails.
pub open spec fn spec_operand(s: Seq<char>, pos: int) -> (OperandV, int) {
    let p = spec_skip_spaces(s, pos);
    if p < s.len() && s[p] == '$' {
        match spec_number(s, p + 1) {
            Some((v, e)) => (OperandV::Register(v), e),
            None => {
                let e = spec_ident_end(s, p + 1);
                match spec_reg_name_val(s.subrange(p + 1, e)) {
                    Some(v) => (OperandV::Register(v), e),
                    None => (
                        OperandV::Label(s.subrange(p, spec_ident_end(s, p))),
                        spec_ident_end(s, p),
                    ),
                }
            },
        }
    } else {
        match spec_number(s, p) {
            Some((v, e)) => (OperandV::Constant(v), e),
            None => (OperandV::Label(s.subrange(p, spec_ident_end(s, p))), spec_ident_end(s, p)),
        }
    }
}

/// Parse one operand, executable form.
fn parse_operand(s: &str, pos: usize) -> (r: (Operand, usize))
    requires
        pos <= s@.len(),
    ensures
        r.0@ == spec_operand(s@, pos as int).0,
        r.1 as int == spec_operand(s@, pos as int).1,
        pos <= r.1 <= s@.len(),
{
    let len = s.unicode_len();
    let p = skip_spaces(s, pos);
    if p < len && s.get_char(p) == '$' {
        match parse_number(s, p + 1) {
            Some((v, e)) => (Operand::Register(v), e),
            None => {
                let e = ident_end(s, p + 1);
                match reg_name_val(s, p + 1, e) {
                    Some(v) => (Operand::Register(v), e),
                    None => {
                        let le = ident_end(s, p);
                        (Operand::Label(s.substring_char(p, le).to_owned()), le)
                    },
                }
            },
        }
    } else {
        match parse_number(s, p) {
            Some((v, e)) => (Operand::Constant(v), e),
            None => {
                let le = ident_end(s, p);
                (Operand::Label(s.substring_char(p, le).to_owned()), le)
            },
        }
    }
}

/// A comma, with spaces allowed on both sides.
pub open spec fn spec_comma(s: Seq<char>, pos: int) -> Option<int> {
    let p = spec_skip_spaces(s, pos);
    if p < s.len() && s[p] == ',' {
        Some(spec_skip_spaces(s, p + 1))
    } else {
        None
    }
}

/// Parse a comma, executable form.
fn parse_comma(s: &str, pos: usize) -> (r: Option<usize>)
    requires
        pos <= s@.len(),
    ensures
        ({
            let sp = spec_comma(s@, pos as int);
            match r {
                None => sp is None,
                Some(e) => sp == Some(e as int) && pos < e <= s@.len(),
            }
        }),
{
    let len = s.unicode_len();
    let p = skip_spaces(s, pos);
    if p < len && s.get_char(p) == ',' {
        Some(skip_spaces(s, p + 1))
    } else {
        None
    }
}

/// The `rt, rs, im` argument shape shared by the immediate instructions;
/// the tuple is in `(rs, rt, im)` order.
pub open spec fn spec_op2im(s: Seq<char>, pos: int) -> Option<(OperandV, OperandV, OperandV, int)> {
    let (rt, p1) = spec_operand(s, pos);
    match spec_comma(s, p1) {
        None => None,
        Some(p2) => {
            let (rs, p3) = spec_operand(s, p2);
            match spec_comma(s, p3) {
                None => None,
                Some(p4) => {
                    let (im, p5) = spec_operand(s, p4);
                    Some((rs, rt, im, p5))
                },
            }
        },
    }
}

/// Parse the `rt, rs, im` shape, executable form.
fn parse_op2im(s: &str, pos: usize) -> (r: Option<(Operand, Operand, Operand, usize)>)
    requires
        pos <= s@.len(),
    ensures
        ({
            let sp = spec_op2im(s@, pos as int);
            match r {
                None => sp is None,
                Some((rs, rt, im, e)) => sp == Some((rs@, rt@, im@, e as int)) && pos <= e
                    <= s@.len(),
            }
        }),
{
    let (rt, p1) = parse_operand(s, pos);
    match parse_comma(s, p1) {
        None => None,
        Some(p2) => {
            let (rs, p3) = parse_operand(s, p2);
            match parse_comma(s, p3) {
                None => None,
                Some(p4) => {
                    let (im, p5) = parse_operand(s, p4);
                    Some((rs, rt, im, p5))
                },
            }
        },
    }
}

/// The `rd, rs, rt` argument shape of the register instructions; the
/// tuple is in `(rd, rs, rt)` order.
pub open spec fn spec_op3(s: Seq<char>, pos: int) -> Option<(OperandV, OperandV, OperandV, int)> {
    let (rd, p1) = spec_operand(s, pos);
    match spec_comma(s, p1) {
        None => None,
        Some(p2) => {
            let (rs, p3) = spec_operand(s, p2);
            match spec_comma(s, p3) {
                None => None,
                Some(p4) => {
                    let (rt, p5) = spec_operand(s, p4);
                    Some((rd, rs, rt, p5))
                },
            }
        },
    }
}

/// Parse the `rd, rs, rt` shape, executable form.
fn parse_op3(s: &str, pos: usize) -> (r: Option<(Operand, Operand, Operand, usize)>)
    requires
        pos <= s@.len(),
    ensures
        ({
            let sp = spec_op3(s@, pos as int);
            match r {
                None => sp is None,
                Some((rd, rs, rt, e)) => sp == Some((rd@, rs@, rt@, e as int)) && pos <= e
                    <= s@.len(),
            }
        }),
{
    let (rd, p1) = parse_operand(s, pos);
    match parse_comma(s, p1) {
        None => None,
        Some(p2) => {
            let (rs, p3) = parse_operand(s, p2);
            match parse_comma(s, p3) {
                None => None,
                Some(p4) => {
                    let (rt, p5) = parse_operand(s, p4);
                    Some((rd, rs, rt, p5))
                },
            }
        },
    }
}

/// The words listed after a `.word` directive, after the first one.
pub open spec fn spec_word_tail(s: Seq<char>, pos: int) -> (Seq<Binary>, int)
    decreases s.len() - pos,
{
    match spec_comma(s, pos) {
        None => (Seq::empty(), pos),
        Some(p2) => match spec_number(s, p2) {
            None => (Seq::empty(), pos),
            Some((v, p3)) => {
                if pos < p3 <= s.len() {
                    let rest = spec_word_tail(s, p3);
                    (seq![v] + rest.0, rest.1)
                } else {
                    (seq![v], p3)
                }
            },
        },
    }
}

/// The comma-separated, possibly empty word list of a `.word` directive.
pub open spec fn spec_word_list(s: Seq<char>, pos: int) -> (Seq<Binary>, int) {
    match spec_number(s, pos) {
        None => (Seq::empty(), pos),
        Some((v, p)) => {
            if pos < p <= s.len() {
                let rest = spec_word_tail(s, p);
                (seq![v] + rest.0, rest.1)
            } else {
                (seq![v], p)
            }
        },
    }
}

/// Parse a `.word` list, executable form.
fn parse_word_list(s: &str, pos: usize) -> (r: (Vec<Binary>, usize))
    requires
        pos <= s@.len(),
    ensures
        r.0@ == spec_word_list(s@, pos as int).0,
        r.1 as int == spec_word_list(s@, pos as int).1,
        pos <= r.1 <= s@.len(),
{
    let mut out: Vec<Binary> = Vec::new();
    match parse_number(s, pos) {
        None => (out, pos),
        Some((v, p)) => {
            out.push(v);
            let mut cur = p;
            loop
                invariant
                    pos < cur <= s@.len(),
                    spec_word_list(s@, pos as int).0 == out@ + spec_word_tail(s@, cur as int).0,
                    spec_word_list(s@, pos as int).1 == spec_word_tail(s@, cur as int).1,
                decreases s@.len() - cur,
            {
                match parse_comma(s, cur) {
                    None => {
                        proof {
                            assert(out@ + spec_word_tail(s@, cur as int).0 =~= out@);
                        }
                        return (out, cur);
                    },
                    Some(p2) => {
                        match parse_number(s, p2) {
                            None => {
                                proof {
                                    assert(out@ + spec_word_tail(s@, cur as int).0 =~= out@);
                                }
                                return (out, cur);
                            },
                            Some((v2, p3)) => {
                                proof {
                                    assert(out@ + (seq![v2] + spec_word_tail(s@, p3 as int).0)
                                        =~= out@.push(v2) + spec_word_tail(s@, p3 as int).0);
                                }
                                out.push(v2);
                                cur = p3;
                            },
                        }
                    },
                }
            }
        },
    }
}

/// The names listed after a `.globl` directive, after the first one.
pub open spec fn spec_globl_tail(s: Seq<char>, pos: int) -> (Seq<Seq<char>>, int)
    decreases s.len() - pos,
{
    match spec_comma(s, pos) {
        None => (Seq::empty(), pos),
        Some(p2) => {
            let e = spec_ident_end(s, p2);
            if e == p2 || !(pos < e <= s.len()) {
                (Seq::empty(), pos)
            } else {
                let rest = spec_globl_tail(s, e);
                (seq![s.subrange(p2, e)] + rest.0, rest.1)
            }
        },
    }
}

/// The comma-separated, possibly empty name list of a `.globl` directive.
pub open spec fn spec_globl_list(s: Seq<char>, pos: int) -> (Seq<Seq<char>>, int) {
    let e = spec_ident_end(s, pos);
    if e == pos {
        (Seq::empty(), pos)
    } else if pos < e <= s.len() {
        let rest = spec_globl_tail(s, e);
        (seq![s.subrange(pos, e)] + rest.0, rest.1)
    } else {
        (seq![s.subrange(pos, e)], e)
    }
}

/// The deep views of a name list.
pub open spec fn names_view(names: Seq<String>) -> Seq<Seq<char>> {
    Seq::new(names.len(), |i: int| names[i]@)
}

/// Parse a `.globl` name list, executable form.
fn parse_globl_list(s: &str, pos: usize) -> (r: (Vec<String>, usize))
    requires
        pos <= s@.len(),
    ensures
        names_view(r.0@) == spec_globl_list(s@, pos as int).0,
        r.1 as int == spec_globl_list(s@, pos as int).1,
        pos <= r.1 <= s@.len(),
{
    let mut out: Vec<String> = Vec::new();
    let e = ident_end(s, pos);
    if e == pos {
        proof {
            assert(names_view(out@) =~= spec_globl_list(s@, pos as int).0);
        }
        return (out, pos);
    }
    out.push(s.substring_char(pos, e).to_owned());
    let mut cur = e;
    proof {
        assert(names_view(out@) =~= seq![s@.subrange(pos as int, e as int)]);
    }
    loop
        invariant
            pos < cur <= s@.len(),
            spec_globl_list(s@, pos as int).0 == names_view(out@) + spec_globl_tail(
                s@,
                cur as int,
            ).0,
            spec_globl_list(s@, pos as int).1 == spec_globl_tail(s@, cur as int).1,
        decreases s@.len() - cur,
    {
        match parse_comma(s, cur) {
            None => {
                proof {
                    assert(names_view(out@) + spec_globl_tail(s@, cur as int).0 =~= names_view(
                        out@,
                    ));
                }
                return (out, cur);
            },
            Some(p2) => {
                let e2 = ident_end(s, p2);
                if e2 == p2 {
                    proof {
                        assert(names_view(out@) + spec_globl_tail(s@, cur as int).0 =~= names_view(
                            out@,
                        ));
                    }
                    return (out, cur);
                }
                let name = s.substring_char(p2, e2).to_owned();
                proof {
                    assert(names_view(out@.push(name)) =~= names_view(out@) + seq![name@]);
                    assert(names_view(out@) + (seq![s@.subrange(p2 as int, e2 as int)]
                        + spec_globl_tail(s@, e2 as int).0) =~= names_view(out@.push(name))
                        + spec_globl_tail(s@, e2 as int).0);
                }
                out.push(name);
                cur = e2;
            },
        }
    }
}

/// What a directive spells, with the `.` already seen at `dot`.
pub open spec fn spec_directive(s: Seq<char>, dot: int) -> Option<(ItemV, int)> {
    let e = spec_ident_end(s, dot + 1);
    let w = s.subrange(dot + 1, e);
    if w == "data"@ {
        Some((ItemV::Section(SectionV::Data), e))
    } else if w == "text"@ {
        Some((ItemV::Section(SectionV::Text), e))
    } else if w == "word"@ {
        let p = spec_skip_spaces(s, e);
        let r = spec_word_list(s, p);
        Some((ItemV::Section(SectionV::Word(r.0)), r.1))
    } else if w == "space"@ {
        let p = spec_skip_spaces(s, e);
        match spec_number(s, p) {
            None => None,
            Some((v, p2)) => Some((ItemV::Section(SectionV::Space(v)), p2)),
        }
    } else if w == "globl"@ {
        let p = spec_skip_spaces(s, e);
        let r = spec_globl_list(s, p);
        Some((ItemV::Section(SectionV::Globl(r.0)), r.1))
    } else {
        None
    }
}

/// What a mnemonic line spells, the word `s[p0..e]` already read.
pub open spec fn spec_mnemonic(s: Seq<char>, w: Seq<char>, e: int) -> Option<(ItemV, int)> {
    if w == "beq"@ || w == "bne"@ {
        let op: Binary = if w == "beq"@ {
            4
        } else {
            5
        };
        match spec_op2im(s, e) {
            None => None,
            Some((rs, rt, im, p)) => Some((ItemV::I { op, rs, rt, im }, p)),
        }
    } else if w == "addi"@ || w == "addiu"@ || w == "lui"@ || w == "ori"@ {
        let op: Binary = if w == "addi"@ {
            0x8
        } else if w == "addiu"@ {
            0x9
        } else if w == "lui"@ {
            0xF
        } else {
            0xD
        };
        match spec_op2im(s, e) {
            None => None,
            Some((rs, rt, im, p)) => Some((ItemV::I { op, rs, rt, im }, p)),
        }
    } else if w == "lw"@ || w == "sw"@ {
        let op: Binary = if w == "lw"@ {
            0x23
        } else {
            0x2B
        };
        let (rt, p1) = spec_operand(s, e);
        match spec_comma(s, p1) {
            None => None,
            Some(p2) => {
                let (im, p3) = spec_operand(s, p2);
                if p3 < s.len() && s[p3] == '(' {
                    let (rs, p4) = spec_operand(s, p3 + 1);
                    if p4 < s.len() && s[p4] == ')' {
                        Some((ItemV::I { op, rs, rt, im }, p4 + 1))
                    } else {
                        None
                    }
                } else {
                    None
                }
            },
        }
    } else if w == "slt"@ {
        match spec_op3(s, e) {
            None => None,
            Some((rd, rs, rt, p)) => Some(
                (
                    ItemV::R {
                        op: 0,
                        rs,
                        rt,
                        rd,
                        sh: OperandV::Constant(0),
                        fc: OperandV::Constant(0x2A),
                    },
                    p,
                ),
            ),
        }
    } else if w == "addu"@ || w == "subu"@ || w == "and"@ || w == "or"@ || w == "add"@ || w
        == "sub"@ {
        let fc: Binary = if w == "addu"@ {
            0x21
        } else if w == "subu"@ {
            0x23
        } else if w == "and"@ {
            0x24
        } else if w == "or"@ {
            0x25
        } else if w == "add"@ {
            0x20
        } else {
            0x22
        };
        match spec_op3(s, e) {
            None => None,
            Some((rd, rs, rt, p)) => Some(
                (
                    ItemV::R {
                        op: 0,
                        rs,
                        rt,
                        rd,
                        sh: OperandV::Constant(0),
                        fc: OperandV::Constant(fc),
                    },
                    p,
                ),
            ),
        }
    } else if w == "sll"@ || w == "srl"@ {
        let fc: Binary = if w == "sll"@ {
            0x0
        } else {
            0x2
        };
        match spec_op2im(s, e) {
            None => None,
            // The first operand is the destination `rd`, the second the
            // source `rt`, the third the shift amount.
            Some((src, dst, amount, p)) => Some(
                (
                    ItemV::R {
                        op: 0,
                        rs: OperandV::Constant(0),
                        rt: src,
                        rd: dst,
                        sh: amount,
                        fc: OperandV::Constant(fc),
                    },
                    p,
                ),
            ),
        }
    } else if w == "mult"@ || w == "multu"@ || w == "div"@ || w == "divu"@ {
        let fc: Binary = if w == "mult"@ {
            0x18
        } else if w == "multu"@ {
            0x19
        } else if w == "div"@ {
            0x1A
        } else {
            0x1B
        };
        let (rs, p1) = spec_operand(s, e);
        match spec_comma(s, p1) {
            None => None,
            Some(p2) => {
                let (rt, p3) = spec_operand(s, p2);
                Some(
                    (
                        ItemV::R {
                            op: 0,
                            rs,
                            rt,
                            rd: OperandV::Constant(0),
                            sh: OperandV::Constant(0),
                            fc: OperandV::Constant(fc),
                        },
                        p3,
                    ),
                )
            },
        }
    } else if w == "mfhi"@ || w == "mflo"@ {
        let fc: Binary = if w == "mfhi"@ {
            0x10
        } else {
            0x12
        };
        let (rd, p1) = spec_operand(s, e);
        Some(
            (
                ItemV::R {
                    op: 0,
                    rs: OperandV::Constant(0),
                    rt: OperandV::Constant(0),
                    rd,
                    sh: OperandV::Constant(0),
                    fc: OperandV::Constant(fc),
                },
                p1,
            ),
        )
    } else if w == "jr"@ {
        let (rs, p1) = spec_operand(s, e);
        Some(
            (
                ItemV::R {
                    op: 0,
                    rs,
                    rt: OperandV::Register(0),
                    rd: OperandV::Register(0),
                    sh: OperandV::Constant(0),
                    fc: OperandV::Constant(0x8),
                },
                p1,
            ),
        )
    } else if w == "j"@ {
        let p = spec_skip_spaces(s, e);
        let le = spec_ident_end(s, p);
        Some((ItemV::J { op: 2, ad: OperandV::Label(s.subrange(p, le)) }, le))
    } else {
        None
    }
}

/// One assembly item at `pos`: spaces and comments, then a directive, the
/// bare `syscall`, a label definition, or a mnemonic line; every success
/// also swallows the spaces that follow the item.
pub open spec fn spec_one_parse(s: Seq<char>, pos: int) -> Option<(ItemV, int)> {
    let p0 = spec_skip_ws(s, pos);
    if p0 >= s.len() {
        None
    } else if s[p0] == '.' {
        match spec_directive(s, p0) {
            None => None,
            Some((item, e)) => Some((item, spec_skip_spaces(s, e))),
        }
    } else {
        let e = spec_ident_end(s, p0);
        let w = s.subrange(p0, e);
        if w == "syscall"@ {
            Some(
                (
                    ItemV::R {
                        op: 0,
                        rs: OperandV::Register(0),
                        rt: OperandV::Register(0),
                        rd: OperandV::Register(0),
                        sh: OperandV::Constant(0),
                        fc: OperandV::Constant(0xC),
                    },
                    spec_skip_spaces(s, e),
                ),
            )
        } else if e < s.len() && s[e] == ':' {
            Some((ItemV::LabelDef { name: w }, spec_skip_spaces(s, e + 1)))
        } else {
            match spec_mnemonic(s, w, e) {
                None => None,
                Some((item, p)) => Some((item, spec_skip_spaces(s, p))),
            }
        }
    }
}

/// Parse a directive, executable form; the `.` stands at `dot`.
#[verifier::rlimit(60)]
fn parse_directive(s: &str, dot: usize) -> (r: Option<(Instruction, usize)>)
    requires
        dot < s@.len(),
    ensures
        ({
            let sp = spec_directive(s@, dot as int);
            match r {
                None => sp is None,
                Some((ins, e)) => sp is Some && sp.unwrap().0 == ins@ && sp.unwrap().1 == e as int
                    && dot < e <= s@.len(),
            }
        }),
{
    let len = s.unicode_len();
    let e = ident_end(s, dot + 1);
    if range_is(s, dot + 1, e, "data") {
        Some((Instruction::Section(SectionType::Data), e))
    } else if range_is(s, dot + 1, e, "text") {
        Some((Instruction::Section(SectionType::Text), e))
    } else if range_is(s, dot + 1, e, "word") {
        let p = skip_spaces(s, e);
        let (vs, p2) = parse_word_list(s, p);
        Some((Instruction::Section(SectionType::Word(vs)), p2))
    } else if range_is(s, dot + 1, e, "space") {
        let p = skip_spaces(s, e);
        match parse_number(s, p) {
            None => None,
            Some((v, p2)) => Some((Instruction::Section(SectionType::Space(v)), p2)),
        }
    } else if range_is(s, dot + 1, e, "globl") {
        let p = skip_spaces(s, e);
        let (ns, p2) = parse_globl_list(s, p);
        proof {
            assert(Instruction::Section(SectionType::Globl(ns))@ == ItemV::Section(
                SectionV::Globl(names_view(ns@)),
            ));
        }
        Some((Instruction::Section(SectionType::Globl(ns)), p2))
    } else {
        None
    }
}

/// Parse a mnemonic line, executable form; the word stands at
/// `s[p0..e]`.
#[verifier::rlimit(100)]
#[verifier::spinoff_prover]
fn parse_mnemonic(s: &str, p0: usize, e: usize) -> (r: Option<(Instruction, usize)>)
    requires
        p0 <= e <= s@.len(),
    ensures
        ({
            let sp = spec_mnemonic(s@, s@.subrange(p0 as int, e as int), e as int);
            match r {
                None => sp is None,
                Some((ins, p)) => sp is Some && sp.unwrap().0 == ins@ && sp.unwrap().1 == p as int
                    && p0 < e && e <= p <= s@.len(),
            }
        }),
{
    proof {
        reveal_strlit("beq");
        reveal_strlit("bne");
        reveal_strlit("addi");
        reveal_strlit("addiu");
        reveal_strlit("lui");
        reveal_strlit("ori");
        reveal_strlit("lw");
        reveal_strlit("sw");
        reveal_strlit("slt");
        reveal_strlit("addu");
        reveal_strlit("subu");
        reveal_strlit("and");
        reveal_strlit("or");
        reveal_strlit("add");
        reveal_strlit("sub");
        reveal_strlit("sll");
        reveal_strlit("srl");
        reveal_strlit("mult");
        reveal_strlit("multu");
        reveal_strlit("div");
        reveal_strlit("divu");
        reveal_strlit("mfhi");
        reveal_strlit("mflo");
        reveal_strlit("jr");
        reveal_strlit("j");
    }
    let len = s.unicode_len();
    let is_beq = range_is(s, p0, e, "beq");
    if is_beq || range_is(s, p0, e, "bne") {
        proof {
            assert("beq"@.len() == 3);
            assert("bne"@.len() == 3);
            assert(s@.subrange(p0 as int, e as int).len() == e - p0);
            assert(p0 < e);
        }
        let op: Binary = if is_beq {
            4
        } else {
            5
        };
        return match parse_op2im(s, e) {
            None => None,
            Some((rs, rt, im, p)) => Some((Instruction::I { op: Operation(op), rs, rt, im }, p)),
        };
    }
    let is_addi = range_is(s, p0, e, "addi");
    let is_addiu = range_is(s, p0, e, "addiu");
    let is_lui = range_is(s, p0, e, "lui");
    if is_addi || is_addiu || is_lui || range_is(s, p0, e, "ori") {
        proof {
            assert("addi"@.len() == 4);
            assert(s@.subrange(p0 as int, e as int).len() == e - p0);
            assert(p0 < e);
        }
        let op: Binary = if is_addi {
            0x8
        } else if is_addiu {
            0x9
        } else if is_lui {
            0xF
        } else {
            0xD
        };
        return match parse_op2im(s, e) {
            None => None,
            Some((rs, rt, im, p)) => Some((Instruction::I { op: Operation(op), rs, rt, im }, p)),
        };
    }
    let is_lw = range_is(s, p0, e, "lw");
    if is_lw || range_is(s, p0, e, "sw") {
        proof {
            assert("lw"@.len() == 2);
            assert("sw"@.len() == 2);
            assert(s@.subrange(p0 as int, e as int).len() == e - p0);
            assert(p0 < e);
        }
        let op: Binary = if is_lw {
            0x23
        } else {
            0x2B
        };
        let (rt, p1) = parse_operand(s, e);
        return match parse_comma(s, p1) {
            None => None,
            Some(p2) => {
                let (im, p3) = parse_operand(s, p2);
                if p3 < len && s.get_char(p3) == '(' {
                    let (rs, p4) = parse_operand(s, p3 + 1);
                    if p4 < len && s.get_char(p4) == ')' {
                        Some((Instruction::I { op: Operation(op), rs, rt, im }, p4 + 1))
                    } else {
                        None
                    }
                } else {
                    None
                }
            },
        };
    }
    if range_is(s, p0, e, "slt") {
        proof {
            assert("slt"@.len() == 3);
            assert(s@.subrange(p0 as int, e as int).len() == e - p0);
            assert(p0 < e);
        }
        return match parse_op3(s, e) {
            None => None,
            Some((rd, rs, rt, p)) => {
                let ins = Instruction::R {
                    op: Operation(0),
                    rs,
                    rt,
                    rd,
                    sh: Operand::Constant(0),
                    fc: Operand::Constant(0x2A),
                };
                Some((ins, p))
            },
        };
    }
    let is_addu = range_is(s, p0, e, "addu");
    let is_subu = range_is(s, p0, e, "subu");
    let is_and = range_is(s, p0, e, "and");
    let is_or = range_is(s, p0, e, "or");
    let is_add = range_is(s, p0, e, "add");
    if is_addu || is_subu || is_and || is_or || is_add || range_is(s, p0, e, "sub") {
        proof {
            assert("addu"@.len() == 4);
            assert("subu"@.len() == 4);
            assert("and"@.len() == 3);
            assert("or"@.len() == 2);
            assert("add"@.len() == 3);
            assert("sub"@.len() == 3);
            assert(s@.subrange(p0 as int, e as int).len() == e - p0);
            assert(p0 < e);
        }
        let fc: Binary = if is_addu {
            0x21
        } else if is_subu {
            0x23
        } else if is_and {
            0x24
        } else if is_or {
            0x25
        } else if is_add {
            0x20
        } else {
            0x22
        };
        return match parse_op3(s, e) {
            None => None,
            Some((rd, rs, rt, p)) => {
                let ins = Instruction::R {
                    op: Operation(0),
                    rs,
                    rt,
                    rd,
                    sh: Operand::Constant(0),
                    fc: Operand::Constant(fc),
                };
                Some((ins, p))
            },
        };
    }
    let is_sll = range_is(s, p0, e, "sll");
    if is_sll || range_is(s, p0, e, "srl") {
        proof {
            assert("sll"@.len() == 3);
            assert("srl"@.len() == 3);
            assert(s@.subrange(p0 as int, e as int).len() == e - p0);
            assert(p0 < e);
        }
        let fc: Binary = if is_sll {
            0x0
        } else {
            0x2
        };
        return match parse_op2im(s, e) {
            None => None,
            Some((src, dst, amount, p)) => {
                let ins = Instruction::R {
                    op: Operation(0),
                    rs: Operand::Constant(0),
                    rt: src,
                    rd: dst,
                    sh: amount,
                    fc: Operand::Constant(fc),
                };
                Some((ins, p))
            },
        };
    }
    let is_mult = range_is(s, p0, e, "mult");
    let is_multu = range_is(s, p0, e, "multu");
    let is_div = range_is(s, p0, e, "div");
    if is_mult || is_multu || is_div || range_is(s, p0, e, "divu") {
        proof {
            assert("mult"@.len() == 4);
            assert("multu"@.len() == 5);
            assert("div"@.len() == 3);
            assert("divu"@.len() == 4);
            assert(s@.subrange(p0 as int, e as int).len() == e - p0);
            assert(p0 < e);
        }
        let fc: Binary = if is_mult {
            0x18
        } else if is_multu {
            0x19
        } else if is_div {
            0x1A
        } else {
            0x1B
        };
        let (rs, p1) = parse_operand(s, e);
        return match parse_comma(s, p1) {
            None => None,
            Some(p2) => {
                let (rt, p3) = parse_operand(s, p2);
                let ins = Instruction::R {
                    op: Operation(0),
                    rs,
                    rt,
                    rd: Operand::Constant(0),
                    sh: Operand::Constant(0),
                    fc: Operand::Constant(fc),
                };
                Some((ins, p3))
            },
        };
    }
    let is_mfhi = range_is(s, p0, e, "mfhi");
    if is_mfhi || range_is(s, p0, e, "mflo") {
        proof {
            assert("mfhi"@.len() == 4);
            assert("mflo"@.len() == 4);
            assert(s@.subrange(p0 as int, e as int).len() == e - p0);
            assert(p0 < e);
        }
        let fc: Binary = if is_mfhi {
            0x10
        } else {
            0x12
        };
        let (rd, p1) = parse_operand(s, e);
        let ins = Instruction::R {
            op: Operation(0),
            rs: Operand::Constant(0),
            rt: Operand::Constant(0),
            rd,
            sh: Operand::Constant(0),
            fc: Operand::Constant(fc),
        };
        return Some((ins, p1));
    }
    if range_is(s, p0, e, "jr") {
        proof {
            assert("jr"@.len() == 2);
            assert(s@.subrange(p0 as int, e as int).len() == e - p0);
            assert(p0 < e);
        }
        let (rs, p1) = parse_operand(s, e);
        let ins = Instruction::R {
            op: Operation(0),
            rs,
            rt: Operand::Register(0),
            rd: Operand::Register(0),
            sh: Operand::Constant(0),
            fc: Operand::Constant(0x8),
        };
        return Some((ins, p1));
    }
    if range_is(s, p0, e, "j") {
        proof {
            assert("j"@.len() == 1);
            assert(s@.subrange(p0 as int, e as int).len() == e - p0);
            assert(p0 < e);
        }
        let p = skip_spaces(s, e);
        let le = ident_end(s, p);
        let ad = Operand::Label(s.substring_char(p, le).to_owned());
        return Some((Instruction::J { op: Operation(2), ad }, le));
    }
    None
}

/// Parse one item, executable form.
fn one_parse_at(s: &str, pos: usize) -> (r: Option<(Instruction, usize)>)
    requires
        pos <= s@.len(),
    ensures
        ({
            let sp = spec_one_parse(s@, pos as int);
            match r {
                None => sp is None,
                Some((ins, e)) => sp is Some && sp.unwrap().0 == ins@ && sp.unwrap().1 == e as int
                    && pos < e <= s@.len(),
            }
        }),
{
    let len = s.unicode_len();
    let p0 = skip_ws(s, pos);
    if p0 >= len {
        return None;
    }
    if s.get_char(p0) == '.' {
        return match parse_directive(s, p0) {
            None => None,
            Some((ins, e)) => Some((ins, skip_spaces(s, e))),
        };
    }
    let e = ident_end(s, p0);
    if range_is(s, p0, e, "syscall") {
        proof {
            reveal_strlit("syscall");
            assert("syscall"@.len() == 7);
            assert(s@.subrange(p0 as int, e as int).len() == e - p0);
            assert(p0 < e);
        }
        let ins = Instruction::R {
            op: Operation(0),
            rs: Operand::Register(0),
            rt: Operand::Register(0),
            rd: Operand::Register(0),
            sh: Operand::Constant(0),
            fc: Operand::Constant(0xC),
        };
        return Some((ins, skip_spaces(s, e)));
    }
    if e < len && s.get_char(e) == ':' {
        let name = s.substring_char(p0, e).to_owned();
        return Some((Instruction::LabelDef { name }, skip_spaces(s, e + 1)));
    }
    match parse_mnemonic(s, p0, e) {
        None => None,
        Some((ins, p)) => Some((ins, skip_spaces(s, p))),
    }
}


/// Read a (possibly empty) label word from the front of the input; this
/// never fails.
pub fn label(i: &str) -> (r: (&str, Operand))
    ensures
        r.1@ == OperandV::Label(i@.subrange(0, spec_ident_end(i@, 0))),
        r.0@ == i@.subrange(spec_ident_end(i@, 0), i@.len() as int),
{
    let len = i.unicode_len();
    let e = ident_end(i, 0);
    let name = i.substring_char(0, e).to_owned();
    (i.substring_char(e, len), Operand::Label(name))
}

/// Parse one assembly item from the front of the input, handing back the
/// rest of the text.
pub fn one_parse(i: &str) -> (r: Result<(&str, Instruction), ()>)
    ensures
        ({
            let sp = spec_one_parse(i@, 0);
            match r {
                Err(_) => sp is None,
                Ok((rest, ins)) => sp is Some && sp.unwrap().0 == ins@ && rest@ == i@.subrange(
                    sp.unwrap().1,
                    i@.len() as int,
                ),
            }
        }),
{
    let len = i.unicode_len();
    match one_parse_at(i, 0) {
        None => Err(()),
        Some((ins, e)) => Ok((i.substring_char(e, len), ins)),
    }
}

/// The whole item sequence an input spells from position `pos` on, or
/// nothing if the text cannot be parsed to its end.
pub open spec fn spec_parse_from(s: Seq<char>, pos: int) -> Option<Seq<ItemV>>
    decreases s.len() - pos,
{
    if pos >= s.len() {
        Some(Seq::empty())
    } else {
        match spec_one_parse(s, pos) {
            None => None,
            Some((item, p)) => {
                if pos < p <= s.len() {
                    match spec_parse_from(s, p) {
                        None => None,
                        Some(rest) => Some(seq![item] + rest),
                    }
                } else {
                    None
                }
            },
        }
    }
}

/// Where parsing stops: the first position from which no item can be
/// read.
pub open spec fn spec_fail_pos(s: Seq<char>, pos: int) -> int
    decreases s.len() - pos,
{
    if pos >= s.len() {
        pos
    } else {
        match spec_one_parse(s, pos) {
            None => pos,
            Some((item, p)) => {
                if pos < p <= s.len() {
                    spec_fail_pos(s, p)
                } else {
                    pos
                }
            },
        }
    }
}

/// How many line breaks stand before position `end`.
pub open spec fn spec_count_nl(s: Seq<char>, end: int) -> nat
    decreases end,
{
    if end <= 0 {
        0
    } else {
        spec_count_nl(s, end - 1) + (if s[end - 1] == '\n' {
            1nat
        } else {
            0nat
        })
    }
}

/// The diagnostic for unparsable text: the line number of the first
/// failing position and the text from there on.
pub open spec fn spec_parse_err(s: Seq<char>) -> Seq<char> {
    let fp = spec_fail_pos(s, 0);
    "Line: "@ + dec_digits(spec_count_nl(s, fp)) + " "@ + s.subrange(fp, s.len() as int)
}

/// Count line breaks, executable form.
fn count_newlines(s: &str, end: usize) -> (r: u64)
    requires
        end <= s@.len(),
    ensures
        r == spec_count_nl(s@, end as int),
{
    let mut i: usize = 0;
    let mut n: u64 = 0;
    while i < end
        invariant
            i <= end <= s@.len(),
            n == spec_count_nl(s@, i as int),
            n <= i,
        decreases end - i,
    {
        if s.get_char(i) == '\n' {
            n = n + 1;
        }
        i = i + 1;
    }
    n
}

/// Parse a whole assembly source into its item list. An empty input gives
/// an empty list; text that cannot be parsed gives a `Line: <n> <rest>`
/// diagnostic pointing at the first failing position.
pub fn parse(input: &str) -> (r: Result<Vec<Instruction>, String>)
    ensures
        r matches Ok(v) ==> spec_parse_from(input@, 0) == Some(crate::items_view(v@)),
        r matches Err(e) ==> spec_parse_from(input@, 0) is None && e@ == spec_parse_err(input@),
{
    let len = input.unicode_len();
    let mut out: Vec<Instruction> = Vec::new();
    let mut pos: usize = 0;
    while pos < len
        invariant
            pos <= len,
            len == input@.len(),
            spec_parse_from(input@, 0) == (match spec_parse_from(input@, pos as int) {
                Some(rest) => Some(crate::items_view(out@) + rest),
                None => None::<Seq<ItemV>>,
            }),
            spec_fail_pos(input@, 0) == spec_fail_pos(input@, pos as int),
        decreases len - pos,
    {
        match one_parse_at(input, pos) {
            Some((ins, p2)) => {
                proof {
                    assert(crate::items_view(out@.push(ins)) =~= crate::items_view(out@) + seq![
                        ins@,
                    ]);
                }
                out.push(ins);
                pos = p2;
            },
            None => {
                let line = count_newlines(input, pos);
                let mut msg = "Line: ".to_owned();
                crate::decimal::append_dec_u64(&mut msg, line);
                msg.append(" ");
                msg.append(input.substring_char(pos, len));
                proof {
                    assert(msg@ =~= spec_parse_err(input@));
                }
                return Err(msg);
            },
        }
    }
    proof {
        assert(spec_parse_from(input@, pos as int) == Some(Seq::<ItemV>::empty()));
        assert(crate::items_view(out@) + Seq::<ItemV>::empty() =~= crate::items_view(out@));
    }
    Ok(out)
}

} // verus!
