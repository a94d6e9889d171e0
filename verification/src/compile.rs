//! The expression compiler's code generator.
//!
//! Expressions are evaluated on a simulated stack in `$sp`-relative
//! memory: a literal pushes its value, an operator pops two operands,
//! combines them and pushes the result. The program prints the final
//! value through the print syscall and returns.

use crate::decimal::append_dec_i32;
use crate::decimal::dec_str;
use crate::node::expr;
use crate::node::is_left_spine;
use crate::node::spec_expr;
use crate::node::Node;
use crate::token::convert_error;
use crate::token::spec_convert_error;
use crate::token::spec_tokenize_from;
use crate::token::tokenize;
use crate::token::Punctuation;
use crate::token::TokenType;
use vstd::prelude::*;
use vstd::string::StrSliceExecFns;
use vstd::string::StringExecFns;

verus! {

/// The text that pushes a register onto the simulated stack.
pub open spec fn push_text(dest: Seq<char>) -> Seq<char> {
    "  addi $sp, $sp, -4\n"@ + "  sw "@ + dest + ", 4($sp)\n"@
}

/// The text that pops the stack top into a register.
pub open spec fn pop_text(dest: Seq<char>) -> Seq<char> {
    "  lw "@ + dest + ", 4($sp)\n"@ + "  addi $sp, $sp, 4\n"@
}

/// The code of one literal: load it into `$t0` and push it.
pub open spec fn number_code(v: i32) -> Seq<char> {
    "  ori $t0, $zero, "@ + dec_str(v as int) + "\n"@ + push_text("$t0"@)
}

/// The assembly a tree compiles to: leaves load their literal and push
/// it; operators pop their operands, combine, and push the result.
pub open spec fn code_of(n: Node) -> Seq<char>
    decreases n,
{
    match n {
        Node::Number(v) => number_code(v),
        Node::Add { lhs, rhs } => code_of(*lhs) + code_of(*rhs) + pop_text("$t0"@) + pop_text(
            "$t1"@,
        ) + "  add $t0, $t0, $t1\n"@ + push_text("$t0"@),
        Node::Sub { lhs, rhs } => code_of(*lhs) + code_of(*rhs) + pop_text("$t0"@) + pop_text(
            "$t1"@,
        ) + "  sub $t0, $t0, $t1\n"@ + push_text("$t0"@),
    }
}

/// The assembly the token range `ts[pos..end]` compiles to, read straight
/// off the tokens: the first number's code, then for each following
/// operator-number pair the number's code, the two pops, the combining
/// instruction and the push.
pub open spec fn spec_code_span(ts: Seq<TokenType>, pos: int, end: int) -> Seq<char>
    decreases end - pos,
{
    if end == pos + 1 {
        number_code(ts[pos]->Number_0)
    } else if end >= pos + 3 {
        spec_code_span(ts, pos, end - 2) + number_code(ts[end - 1]->Number_0) + pop_text("$t0"@)
            + pop_text("$t1"@) + (if ts[end - 2] == TokenType::Punctuation(Punctuation::Plus) {
            "  add $t0, $t0, $t1\n"@
        } else {
            "  sub $t0, $t0, $t1\n"@
        }) + push_text("$t0"@)
    } else {
        Seq::empty()
    }
}

/// A left-leaning spine compiles to exactly the code its token range
/// spells.
pub proof fn lemma_spine_code(ts: Seq<TokenType>, pos: int, end: int, n: Node)
    requires
        is_left_spine(ts, pos, end, n),
    ensures
        code_of(n) == spec_code_span(ts, pos, end),
    decreases n,
{
    match n {
        Node::Number(v) => {},
        Node::Add { lhs, rhs } => {
            lemma_spine_code(ts, pos, end - 2, *lhs);
            assert(*rhs == Node::Number(ts[end - 1]->Number_0));
            assert(code_of(*rhs) == number_code(ts[end - 1]->Number_0));
        },
        Node::Sub { lhs, rhs } => {
            lemma_spine_code(ts, pos, end - 2, *lhs);
            assert(*rhs == Node::Number(ts[end - 1]->Number_0));
            assert(code_of(*rhs) == number_code(ts[end - 1]->Number_0));
        },
    }
}

/// The fixed opening of every compiled program.
pub open spec fn prologue_text() -> Seq<char> {
    ".text\n"@ + ".globl main\n"@ + "main:\n"@
}

/// The fixed closing: print the result and return.
pub open spec fn epilogue_text() -> Seq<char> {
    "  or $a0, $zero, $t0\n"@ + "\n"@ + "  ori $v0, $zero, 1\n"@ + "  syscall\n"@ + "  jr $ra\n"@
}

/// Emit a push of `dest` onto the simulated stack.
pub fn push(output: &mut String, dest: &str)
    ensures
        final(output)@ == old(output)@ + push_text(dest@),
{
    output.append("  addi $sp, $sp, -4\n");
    output.append("  sw ");
    output.append(dest);
    output.append(", 4($sp)\n");
    proof {
        assert(output@ =~= old(output)@ + push_text(dest@));
    }
}

/// Emit a pop of the stack top into `dest`.
pub fn pop(output: &mut String, dest: &str)
    ensures
        final(output)@ == old(output)@ + pop_text(dest@),
{
    output.append("  lw ");
    output.append(dest);
    output.append(", 4($sp)\n");
    output.append("  addi $sp, $sp, 4\n");
    proof {
        assert(output@ =~= old(output)@ + pop_text(dest@));
    }
}

/// Emit the code of a whole tree: exactly [`code_of`] the tree.
pub fn gen_code(node: Box<Node>, output: &mut String)
    ensures
        final(output)@ == old(output)@ + code_of(*node),
    decreases node,
{
    match *node {
        Node::Add { lhs, rhs } => {
            let ghost l = *lhs;
            let ghost r = *rhs;
            gen_code(lhs, output);
            gen_code(rhs, output);
            pop(output, "$t0");
            pop(output, "$t1");
            output.append("  add $t0, $t0, $t1\n");
            push(output, "$t0");
            proof {
                assert(output@ =~= old(output)@ + (code_of(l) + code_of(r) + pop_text("$t0"@)
                    + pop_text("$t1"@) + "  add $t0, $t0, $t1\n"@ + push_text("$t0"@)));
            }
        },
        Node::Sub { lhs, rhs } => {
            let ghost l = *lhs;
            let ghost r = *rhs;
            gen_code(lhs, output);
            gen_code(rhs, output);
            pop(output, "$t0");
            pop(output, "$t1");
            output.append("  sub $t0, $t0, $t1\n");
            push(output, "$t0");
            proof {
                assert(output@ =~= old(output)@ + (code_of(l) + code_of(r) + pop_text("$t0"@)
                    + pop_text("$t1"@) + "  sub $t0, $t0, $t1\n"@ + push_text("$t0"@)));
            }
        },
        Node::Number(n) => {
            output.append("  ori $t0, $zero, ");
            append_dec_i32(output, n);
            output.append("\n");
            push(output, "$t0");
            proof {
                assert(output@ =~= old(output)@ + ("  ori $t0, $zero, "@ + dec_str(n as int)
                    + "\n"@ + push_text("$t0"@)));
            }
        },
    }
}

/// Compile an expression source into a complete assembly program: the
/// fixed prologue, then exactly the stack code the token sequence spells,
/// then the epilogue that prints the result. The diagnostic for
/// unscannable text points at the offending position; a malformed
/// expression reports the missing number.
pub fn compile_from_string(input: &str) -> (r: Result<String, String>)
    ensures
        ({
            let toks = spec_tokenize_from(input@, 0);
            match r {
                Err(m) => (toks matches Err(p) && m@ == spec_convert_error(
                    input@,
                    input@.subrange(p, input@.len() as int),
                    "expected number"@,
                )) || (toks matches Ok((ts, _)) && spec_expr(ts, 0) is None && m@
                    == "expect number"@),
                Ok(out) => toks is Ok && spec_expr(toks->Ok_0.0, 0) is Some && out@
                    == prologue_text() + spec_code_span(
                    toks->Ok_0.0,
                    0,
                    spec_expr(toks->Ok_0.0, 0).unwrap().1,
                ) + epilogue_text(),
            }
        }),
{
    let mut output = String::new();
    output.append(".text\n");
    output.append(".globl main\n");
    output.append("main:\n");

    let tokens = match tokenize(input) {
        Ok((_, tokens)) => tokens,
        Err((stop, message)) => {
            return Err(convert_error(input, stop, message.as_str()));
        },
    };

    let mut pos: usize = 0;
    let node = match expr(&tokens, &mut pos) {
        Ok(node) => node,
        Err(message) => {
            return Err(message);
        },
    };
    let ghost w = *node;
    proof {
        lemma_spine_code(crate::token::tok_types(tokens@), 0, pos as int, w);
    }

    gen_code(node, &mut output);

    output.append("  or $a0, $zero, $t0\n");
    output.append("\n");
    output.append("  ori $v0, $zero, 1\n");
    output.append("  syscall\n");
    output.append("  jr $ra\n");
    proof {
        assert(output@ =~= prologue_text() + code_of(w) + epilogue_text());
    }
    Ok(output)
}

} // verus!
