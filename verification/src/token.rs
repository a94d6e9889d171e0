//! The expression compiler's tokenizer.
//!
//! The little expression language has three tokens: decimal numbers and
//! the `+` and `-` signs, with whitespace in between. A failed scan keeps
//! the position of the offending text so the diagnostic can point at it.

use crate::parser::digit_val;
use crate::parser::spec_digit_end;
use crate::parser::spec_digits_val;
use crate::parser::spec_skip_spaces;
use vstd::prelude::*;
use vstd::string::StrSliceExecFns;
use vstd::string::StringExecFns;

verus! {

/// A scan result: the rest of the input with the value, or the stop
/// position with a message.
pub type TResult<'a, T> = Result<(&'a str, T), (&'a str, String)>;

/// The two operators of the expression language.
#[derive(Debug, PartialEq, Eq, Structural, Clone, Copy)]
pub enum Punctuation {
    Plus,
    Minus,
}

/// What a token is: a number or an operator.
#[derive(Debug, PartialEq, Eq, Structural, Clone, Copy)]
pub enum TokenType {
    Number(i32),
    Punctuation(Punctuation),
}

/// One scanned token, keeping the text that followed it.
#[derive(Debug)]
pub struct Token<'a> {
    pub input: &'a str,
    pub token_type: TokenType,
}

impl<'a> Token<'a> {
    pub fn new(input: &'a str, token_type: TokenType) -> (r: Token<'a>)
        ensures
            r.token_type == token_type,
            r.input@ == input@,
    {
        Token { input, token_type }
    }
}

/// The kinds of a token sequence.
pub open spec fn tok_types<'a>(v: Seq<Token<'a>>) -> Seq<TokenType> {
    Seq::new(v.len(), |j: int| v[j].token_type)
}

/// A number at `pos`: at least one digit, and the value must fit a word.
pub open spec fn spec_integer_at(s: Seq<char>, pos: int) -> Option<(i32, int)> {
    let e = spec_digit_end(s, pos);
    if e == pos {
        None
    } else {
        let v = spec_digits_val(s, pos, e);
        if v > 0x7FFF_FFFF {
            None
        } else {
            Some((v as i32, e))
        }
    }
}

/// Scan a number at a position, executable form.
fn integer_at(s: &str, pos: usize) -> (r: Option<(i32, usize)>)
    requires
        pos <= s@.len(),
    ensures
        ({
            let sp = spec_integer_at(s@, pos as int);
            match r {
                None => sp is None,
                Some((v, e)) => sp == Some((v, e as int)) && pos < e <= s@.len(),
            }
        }),
{
    let len = s.unicode_len();
    let mut i = pos;
    let mut acc: u64 = 0;
    while i < len && crate::parser::char_is_digit(s.get_char(i))
        invariant
            pos <= i <= len,
            len == s@.len(),
            spec_digit_end(s@, pos as int) == spec_digit_end(s@, i as int),
            acc <= 0x8000_0000,
            ({
                let dv = spec_digits_val(s@, pos as int, i as int);
                (dv <= 0x8000_0000 && acc == dv) || (dv > 0x8000_0000 && acc == 0x8000_0000)
            }),
        decreases len - i,
    {
        let d = (s.get_char(i) as u32 - 48) as u64;
        let t = acc * 10 + d;
        if t > 0x8000_0000 {
            acc = 0x8000_0000;
        } else {
            acc = t;
        }
        i = i + 1;
        proof {
            let dv0 = spec_digits_val(s@, pos as int, i - 1);
            let dv = spec_digits_val(s@, pos as int, i as int);
            assert(dv == dv0 * 10 + digit_val(s@[i - 1]));
            if dv0 > 0x8000_0000 {
                assert(dv > 0x8000_0000) by (nonlinear_arith)
                    requires
                        dv == dv0 * 10 + digit_val(s@[i - 1]),
                        dv0 > 0x8000_0000,
                        digit_val(s@[i - 1]) >= 0,
                ;
            }
        }
    }
    if i == pos {
        return None;
    }
    if acc >= 0x8000_0000 {
        return None;
    }
    Some((acc as i32, i))
}

/// Scan a number from the front of the input: the rest and the value, or
/// the whole input back with a message.
pub fn integer(i: &str) -> (r: TResult<i32>)
    ensures
        ({
            let sp = spec_integer_at(i@, 0);
            match r {
                Ok((rest, n)) => sp is Some && n == sp.unwrap().0 && rest@ == i@.subrange(
                    sp.unwrap().1,
                    i@.len() as int,
                ),
                Err((stop, m)) => sp is None && stop@ == i@ && m@ == "expected number"@,
            }
        }),
{
    let len = i.unicode_len();
    match integer_at(i, 0) {
        Some((v, e)) => Ok((i.substring_char(e, len), v)),
        None => Err((i, "expected number".to_owned())),
    }
}

/// A run of spaces.
pub open spec fn spaces(n: int) -> Seq<char> {
    Seq::new(
        (if n < 0 {
            0
        } else {
            n
        }) as nat,
        |j: int| ' ',
    )
}

/// The text of a scan diagnostic: the input, then a caret under the stop
/// position with the message.
pub open spec fn spec_convert_error(input: Seq<char>, stop: Seq<char>, message: Seq<char>) -> Seq<
    char,
> {
    input + "\n"@ + spaces(input.len() - stop.len()) + "^ "@ + message + "\n"@
}

/// Render a scan diagnostic: the input on one line, a caret under the
/// position where scanning stopped, and the message.
pub fn convert_error(input: &str, stop: &str, message: &str) -> (r: String)
    requires
        stop@.len() <= input@.len(),
    ensures
        r@ == spec_convert_error(input@, stop@, message@),
{
    let mut out = String::new();
    out.append(input);
    out.append("\n");
    let n = input.unicode_len() - stop.unicode_len();
    let mut j: usize = 0;
    proof {
        reveal_strlit(" ");
        assert(" "@ =~= seq![' ']);
        assert(out@ + spaces(0) =~= out@);
    }
    while j < n
        invariant
            j <= n,
            out@ == input@ + "\n"@ + spaces(j as int),
        decreases n - j,
    {
        proof {
            reveal_strlit(" ");
            assert(" "@ =~= seq![' ']);
            assert((out@ + " "@) =~= input@ + "\n"@ + spaces(j + 1));
        }
        out.append(" ");
        j = j + 1;
    }
    out.append("^ ");
    out.append(message);
    out.append("\n");
    proof {
        assert(out@ =~= spec_convert_error(input@, stop@, message@));
    }
    out
}

/// The next token at `pos`: spaces skipped, then a sign or a number.
pub open spec fn spec_tok_at(s: Seq<char>, pos: int) -> Option<(TokenType, int)> {
    let p = spec_skip_spaces(s, pos);
    if p < s.len() && s[p] == '+' {
        Some((TokenType::Punctuation(Punctuation::Plus), p + 1))
    } else if p < s.len() && s[p] == '-' {
        Some((TokenType::Punctuation(Punctuation::Minus), p + 1))
    } else {
        match spec_integer_at(s, p) {
            None => None,
            Some((v, e)) => Some((TokenType::Number(v), e)),
        }
    }
}

/// The token kinds an input spells from `pos` on, with the position the
/// scan ends at; the error is the position of the offending text.
pub open spec fn spec_tokenize_from(s: Seq<char>, pos: int) -> Result<(Seq<TokenType>, int), int>
    decreases s.len() - pos,
{
    if spec_skip_spaces(s, pos) >= s.len() {
        Ok((Seq::empty(), pos))
    } else {
        match spec_tok_at(s, pos) {
            None => Err(spec_skip_spaces(s, pos)),
            Some((t, p2)) => {
                if pos < p2 <= s.len() {
                    match spec_tokenize_from(s, p2) {
                        Err(x) => Err(x),
                        Ok((ts, end)) => Ok((seq![t] + ts, end)),
                    }
                } else {
                    Err(spec_skip_spaces(s, pos))
                }
            },
        }
    }
}

/// Skip spaces, executable form.
fn skip_spaces_at(s: &str, pos: usize) -> (r: usize)
    requires
        pos <= s@.len(),
    ensures
        r == spec_skip_spaces(s@, pos as int),
        pos <= r <= s@.len(),
{
    let len = s.unicode_len();
    let mut p = pos;
    while p < len && crate::parser::char_is_space(s.get_char(p))
        invariant
            pos <= p <= len,
            len == s@.len(),
            spec_skip_spaces(s@, pos as int) == spec_skip_spaces(s@, p as int),
        decreases len - p,
    {
        p = p + 1;
    }
    p
}

/// Scan the whole input into its token list. Trailing whitespace is left
/// unconsumed; unscannable text stops the scan with its position.
pub fn tokenize(i: &str) -> (r: TResult<Vec<Token>>)
    ensures
        ({
            let sp = spec_tokenize_from(i@, 0);
            match r {
                Ok((rest, v)) => sp is Ok && tok_types(v@) == sp->Ok_0.0 && rest@ == i@.subrange(
                    sp->Ok_0.1,
                    i@.len() as int,
                ),
                Err((stop, m)) => sp is Err && 0 <= sp->Err_0 <= i@.len() && stop@
                    == i@.subrange(sp->Err_0, i@.len() as int) && m@ == "expected number"@,
            }
        }),
{
    let len = i.unicode_len();
    let mut tokens: Vec<Token> = Vec::new();
    let mut pos: usize = 0;
    loop
        invariant
            pos <= len,
            len == i@.len(),
            spec_tokenize_from(i@, 0) == (match spec_tokenize_from(i@, pos as int) {
                Err(x) => Err::<(Seq<TokenType>, int), int>(x),
                Ok((ts, end)) => Ok((tok_types(tokens@) + ts, end)),
            }),
        decreases len - pos,
    {
        let p = skip_spaces_at(i, pos);
        if p >= len {
            proof {
                assert(tok_types(tokens@) + Seq::<TokenType>::empty() =~= tok_types(tokens@));
            }
            return Ok((i.substring_char(pos, len), tokens));
        }
        let c = i.get_char(p);
        let (tt, p2): (TokenType, usize) = if c == '+' {
            (TokenType::Punctuation(Punctuation::Plus), p + 1)
        } else if c == '-' {
            (TokenType::Punctuation(Punctuation::Minus), p + 1)
        } else {
            match integer_at(i, p) {
                Some((v, e)) => (TokenType::Number(v), e),
                None => {
                    return Err((i.substring_char(p, len), "expected number".to_owned()));
                },
            }
        };
        let rest = i.substring_char(p2, len);
        let tok = Token::new(rest, tt);
        proof {
            assert(tok_types(tokens@.push(tok)) =~= tok_types(tokens@) + seq![tt]);
            if spec_tokenize_from(i@, p2 as int) is Ok {
                let ts = spec_tokenize_from(i@, p2 as int)->Ok_0.0;
                assert(tok_types(tokens@) + (seq![tt] + ts) =~= (tok_types(tokens@) + seq![tt])
                    + ts);
            }
        }
        tokens.push(tok);
        pos = p2;
    }
}

} // verus!
