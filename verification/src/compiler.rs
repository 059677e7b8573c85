use vstd::prelude::*;

use crate::chunk::{Chunk, MAX_CONSTANTS};
use crate::scanner::{
    blank_end, is_blank_byte, is_numeral, lemma_blank_end_bounds, lemma_blank_input_scans_eof,
    lemma_number_token_is_numeral, lemma_token_end_bounds, newlines_between, token_end_at,
    token_kind_at, Scanner, Token, TokenType,
};
use crate::value::{Value, ValueType};
use crate::vm::{chunk_well_formed, is_binary_byte, safe_from};

verus! {

/// The precedence scale of the expression grammar, from no binding power up
/// to call-like binding. Infix parsing recurses at the level strictly above
/// the operator's own, which makes binary operators left-associative.
#[derive(Debug, Clone, Copy, PartialEq, Eq, Structural)]
pub enum Precedence {
    Lowest,
    Assignment,
    Or,
    And,
    Equality,
    Comparison,
    Term,
    Factor,
    Unary,
    Call,
}

impl Precedence {
    /// Numeric rank of the level; contracts compare levels through it.
    pub open spec fn level(self) -> nat {
        match self {
            Precedence::Lowest => 0,
            Precedence::Assignment => 1,
            Precedence::Or => 2,
            Precedence::And => 3,
            Precedence::Equality => 4,
            Precedence::Comparison => 5,
            Precedence::Term => 6,
            Precedence::Factor => 7,
            Precedence::Unary => 8,
            Precedence::Call => 9,
        }
    }

    /// The level strictly above this one; the scale wraps at the top.
    pub open spec fn spec_next(self) -> Precedence {
        match self {
            Precedence::Lowest => Precedence::Assignment,
            Precedence::Assignment => Precedence::Or,
            Precedence::Or => Precedence::And,
            Precedence::And => Precedence::Equality,
            Precedence::Equality => Precedence::Comparison,
            Precedence::Comparison => Precedence::Term,
            Precedence::Term => Precedence::Factor,
            Precedence::Factor => Precedence::Unary,
            Precedence::Unary => Precedence::Call,
            Precedence::Call => Precedence::Lowest,
        }
    }

    pub fn next(&self) -> (p: Precedence)
        ensures
            p == self.spec_next(),
    {
        match *self {
            Precedence::Lowest => Precedence::Assignment,
            Precedence::Assignment => Precedence::Or,
            Precedence::Or => Precedence::And,
            Precedence::And => Precedence::Equality,
            Precedence::Equality => Precedence::Comparison,
            Precedence::Comparison => Precedence::Term,
            Precedence::Term => Precedence::Factor,
            Precedence::Factor => Precedence::Unary,
            Precedence::Unary => Precedence::Call,
            Precedence::Call => Precedence::Lowest,
        }
    }

    /// The numeric rank, for comparing two levels at run time.
    pub fn rank(&self) -> (r: u8)
        ensures
            r == self.level(),
    {
        match *self {
            Precedence::Lowest => 0,
            Precedence::Assignment => 1,
            Precedence::Or => 2,
            Precedence::And => 3,
            Precedence::Equality => 4,
            Precedence::Comparison => 5,
            Precedence::Term => 6,
            Precedence::Factor => 7,
            Precedence::Unary => 8,
            Precedence::Call => 9,
        }
    }
}

/// The instruction set. The numbering is a binary contract shared with the
/// virtual machine: Return is byte 0, Constant 1, Add 2, Subtract 3,
/// Multiply 4, Divide 5. A Constant instruction is two bytes wide (opcode
/// plus a one-byte pool index); every other instruction is one byte wide.
#[derive(Debug, Clone, Copy, PartialEq, Eq, Structural)]
pub enum OpCode {
    Return,
    Constant,
    Add,
    Subtract,
    Multiply,
    Divide,
}

/// The byte encoding an opcode.
pub open spec fn opcode_byte(op: OpCode) -> u8 {
    match op {
        OpCode::Return => 0,
        OpCode::Constant => 1,
        OpCode::Add => 2,
        OpCode::Subtract => 3,
        OpCode::Multiply => 4,
        OpCode::Divide => 5,
    }
}

/// The opcode a byte encodes, if any.
pub open spec fn opcode_of_byte(b: u8) -> Option<OpCode> {
    if b == 0 {
        Some(OpCode::Return)
    } else if b == 1 {
        Some(OpCode::Constant)
    } else if b == 2 {
        Some(OpCode::Add)
    } else if b == 3 {
        Some(OpCode::Subtract)
    } else if b == 4 {
        Some(OpCode::Multiply)
    } else if b == 5 {
        Some(OpCode::Divide)
    } else {
        None
    }
}

impl OpCode {
    pub fn from_u8(byte: u8) -> (r: Option<OpCode>)
        ensures
            r == opcode_of_byte(byte),
    {
        if byte == 0 {
            Some(OpCode::Return)
        } else if byte == 1 {
            Some(OpCode::Constant)
        } else if byte == 2 {
            Some(OpCode::Add)
        } else if byte == 3 {
            Some(OpCode::Subtract)
        } else if byte == 4 {
            Some(OpCode::Multiply)
        } else if byte == 5 {
            Some(OpCode::Divide)
        } else {
            None
        }
    }

    pub fn as_byte(&self) -> (r: u8)
        ensures
            r == opcode_byte(*self),
    {
        match *self {
            OpCode::Return => 0,
            OpCode::Constant => 1,
            OpCode::Add => 2,
            OpCode::Subtract => 3,
            OpCode::Multiply => 4,
            OpCode::Divide => 5,
        }
    }
}

/// Why a compilation failed. Every failure carries the source line it was
/// detected on; none is ever swallowed, and a chunk compiled over invalid
/// input never reaches execution.
#[derive(Debug, Clone, Copy, PartialEq, Eq, Structural)]
pub enum CompileError {
    /// The scanner produced an `Error` token: unclassified input or an
    /// unterminated string literal. Surfaced as a hard failure at once.
    ScanError { line: usize },
    /// No prefix rule exists for the token standing where an expression must
    /// begin.
    ExpectedExpression { line: usize },
    /// A 257th constant would not fit the one-byte pool index.
    TooManyConstants { line: usize },
}

/// The prefix handlers the dispatch table can bind. The classic table binds
/// function references; here each handler is a tag dispatched by match.
#[derive(Debug, Clone, Copy, PartialEq, Eq, Structural)]
pub enum PrefixFn {
    Number,
}

/// The infix handlers the dispatch table can bind.
#[derive(Debug, Clone, Copy, PartialEq, Eq, Structural)]
pub enum InfixFn {
    Binary,
}

/// One row of the Pratt dispatch table: the optional prefix and infix
/// handlers of a token kind, and the kind's infix precedence.
#[derive(Debug, Clone, Copy, PartialEq, Eq, Structural)]
pub struct ParseRule {
    pub prefix: Option<PrefixFn>,
    pub infix: Option<InfixFn>,
    pub precedence: Precedence,
}

/// The dispatch table. A number literal is the one prefix of an expression;
/// the four arithmetic operators are infix, at Term or Factor level. Every
/// other kind binds nothing and has no infix precedence, so a token standing
/// where an expression must begin and binding no prefix is a parse error —
/// never a silently mis-parsed expression.
pub open spec fn spec_rule(kind: TokenType) -> ParseRule {
    match kind {
        TokenType::Number => ParseRule {
            prefix: Some(PrefixFn::Number),
            infix: None,
            precedence: Precedence::Lowest,
        },
        TokenType::Plus => ParseRule {
            prefix: None,
            infix: Some(InfixFn::Binary),
            precedence: Precedence::Term,
        },
        TokenType::Minus => ParseRule {
            prefix: None,
            infix: Some(InfixFn::Binary),
            precedence: Precedence::Term,
        },
        TokenType::Star => ParseRule {
            prefix: None,
            infix: Some(InfixFn::Binary),
            precedence: Precedence::Factor,
        },
        TokenType::Slash => ParseRule {
            prefix: None,
            infix: Some(InfixFn::Binary),
            precedence: Precedence::Factor,
        },
        _ => ParseRule { prefix: None, infix: None, precedence: Precedence::Lowest },
    }
}

/// The stack height after running the instruction bytes `code[lo..hi)` from
/// height `h`: `None` when the fragment leaves the buffer, holds a Return or
/// an undecodable byte, references the pool out of range, or pops below the
/// height it started from.
pub open spec fn frag_height(code: Seq<u8>, nconst: int, lo: int, hi: int, h: int) -> Option<int>
    decreases hi - lo,
{
    if lo == hi {
        Some(h)
    } else if !(0 <= lo && lo < hi && hi <= code.len()) {
        None
    } else {
        let b = code[lo];
        if b == 1 {
            if lo + 1 < hi && (code[lo + 1] as int) < nconst {
                frag_height(code, nconst, lo + 2, hi, h + 1)
            } else {
                None
            }
        } else if is_binary_byte(b) {
            if h >= 2 {
                frag_height(code, nconst, lo + 1, hi, h - 1)
            } else {
                None
            }
        } else {
            None
        }
    }
}

/// Fragments compose: running `code[lo..mid)` to height `h1` and going on
/// through `code[mid..hi)` is running `code[lo..hi)`.
pub proof fn lemma_frag_compose(
    code: Seq<u8>,
    nconst: int,
    lo: int,
    mid: int,
    hi: int,
    h: int,
    h1: int,
)
    requires
        frag_height(code, nconst, lo, mid, h) == Some(h1),
        mid <= hi <= code.len(),
    ensures
        frag_height(code, nconst, lo, hi, h) == frag_height(code, nconst, mid, hi, h1),
    decreases mid - lo,
{
    if lo != mid {
        let b = code[lo];
        if b == 1 {
            lemma_frag_compose(code, nconst, lo + 2, mid, hi, h + 1, h1);
        } else {
            lemma_frag_compose(code, nconst, lo + 1, mid, hi, h - 1, h1);
        }
    }
}

/// A fragment's height is unchanged by growing the buffer beyond `hi` or the
/// pool beyond `nconst`, as long as the fragment's own bytes stay the same.
pub proof fn lemma_frag_stable(
    code1: Seq<u8>,
    code2: Seq<u8>,
    n1: int,
    n2: int,
    lo: int,
    hi: int,
    h: int,
)
    requires
        frag_height(code1, n1, lo, hi, h) is Some,
        n2 >= n1,
        hi <= code2.len(),
        forall|m: int| lo <= m < hi ==> code1[m] == code2[m],
    ensures
        frag_height(code2, n2, lo, hi, h) == frag_height(code1, n1, lo, hi, h),
    decreases hi - lo,
{
    if lo != hi {
        let b = code1[lo];
        if b == 1 {
            lemma_frag_stable(code1, code2, n1, n2, lo + 2, hi, h + 1);
        } else {
            lemma_frag_stable(code1, code2, n1, n2, lo + 1, hi, h - 1);
        }
    }
}

/// A fragment whose end is safe to enter at its resulting height is itself
/// safe to enter at its starting height.
pub proof fn lemma_frag_safe(code: Seq<u8>, nconst: int, lo: int, hi: int, h: int, h1: int)
    requires
        frag_height(code, nconst, lo, hi, h) == Some(h1),
        safe_from(code, nconst, hi, h1),
    ensures
        safe_from(code, nconst, lo, h),
    decreases hi - lo,
{
    if lo != hi {
        let b = code[lo];
        if b == 1 {
            lemma_frag_safe(code, nconst, lo + 2, hi, h + 1, h1);
        } else {
            lemma_frag_safe(code, nconst, lo + 1, hi, h - 1, h1);
        }
    }
}

/// Input holding only whitespace (and end-of-input sentinels) scans as end
/// of input wherever an expression is expected: both tokens that decide
/// `compile`'s first-error clauses are `Eof`, so by `compile`'s contract such
/// input fails with "expected expression" and never hands a chunk to
/// execution.
pub proof fn lemma_blank_input_expects_expression(s: Seq<u8>, pos: int)
    requires
        0 <= pos <= s.len(),
        forall|m: int| 0 <= m < s.len() ==> is_blank_byte(s[m]) || s[m] == 0,
    ensures
        token_kind_at(s, blank_end(s, pos)) == TokenType::Eof,
        token_kind_at(s, blank_end(s, token_end_at(s, blank_end(s, pos)))) == TokenType::Eof,
{
    lemma_blank_input_scans_eof(s, pos);
    let e1 = token_end_at(s, blank_end(s, pos));
    lemma_blank_input_scans_eof(s, e1);
}

/// The instruction an infix operator token compiles to: Minus to Subtract,
/// Plus to Add, Slash to Divide, Star to Multiply.
pub open spec fn operator_opcode(kind: TokenType) -> OpCode {
    match kind {
        TokenType::Minus => OpCode::Subtract,
        TokenType::Plus => OpCode::Add,
        TokenType::Slash => OpCode::Divide,
        _ => OpCode::Multiply,
    }
}

/// What the specification-level parser yields: the compiler's failure, or
/// the parse's end — the reading position and line of the not-yet-consumed
/// lookahead, the instruction bytes emitted, and the numerals recorded, each
/// with the pool slot reserved for it. `Spent` marks an exhausted fuel
/// budget; `spec_fuel` always suffices (`lemma_parse_fuel_irrelevant`).
pub enum SpecParse {
    Failed { error: CompileError },
    Parsed { pos: int, line: int, code: Seq<u8>, nums: Seq<(u8, Token)> },
    Spent,
}

/// A fuel budget that always covers the specification parser on `s`: each
/// recursive step consumes at least one source byte per two fuel units.
pub open spec fn spec_fuel(s: Seq<u8>) -> nat {
    2 * s.len() + 4
}

/// The specification of parsing one expression whose first token — already
/// scanned, and no Error token — is `k1` covering `s[s1..e1)` on line `l1`,
/// at binding level `min`, with `n` constants already in the pool. Exactly
/// as the compiler works: scan the lookahead (a scan error fails at its
/// line), demand a number literal as the prefix (else "expected expression"
/// at the lookahead's line), reserve pool slot `n` and emit the two-byte
/// Constant instruction, then fold in the infix operators binding at `min`
/// or above.
pub open spec fn spec_parse_expr(
    s: Seq<u8>,
    k1: TokenType,
    s1: int,
    e1: int,
    l1: int,
    min: nat,
    n: int,
    fuel: nat,
) -> SpecParse
    decreases fuel, 1int,
{
    if fuel == 0 {
        SpecParse::Spent
    } else {
        let ws2 = blank_end(s, e1);
        let k2 = token_kind_at(s, ws2);
        let l2 = l1 + newlines_between(s, e1, ws2);
        if k2 == TokenType::Error {
            SpecParse::Failed { error: CompileError::ScanError { line: l2 as usize } }
        } else if k1 != TokenType::Number {
            SpecParse::Failed { error: CompileError::ExpectedExpression { line: l2 as usize } }
        } else if n >= MAX_CONSTANTS {
            SpecParse::Failed { error: CompileError::TooManyConstants { line: l1 as usize } }
        } else {
            let tok = (Token {
                token_type: TokenType::Number,
                start: s1 as usize,
                length: (e1 - s1) as usize,
                line: l1 as usize,
            });
            spec_infix_chain(
                s,
                e1,
                l1,
                min,
                n + 1,
                seq![1u8, n as u8],
                seq![(n as u8, tok)],
                (fuel - 1) as nat,
            )
        }
    }
}

/// The infix layer: with the lookahead standing at reading position `q` on
/// line `m`, fold in operators while the lookahead binds at `min` or above —
/// consume the operator, parse the right operand at the level above the
/// operator's own, then emit the operator's byte — and stop at the first
/// lookahead that binds lower, handing back everything emitted so far.
pub open spec fn spec_infix_chain(
    s: Seq<u8>,
    q: int,
    m: int,
    min: nat,
    n: int,
    code: Seq<u8>,
    nums: Seq<(u8, Token)>,
    fuel: nat,
) -> SpecParse
    decreases fuel, 0int,
{
    if fuel == 0 {
        SpecParse::Spent
    } else {
        let ws = blank_end(s, q);
        let k = token_kind_at(s, ws);
        let e = token_end_at(s, ws);
        let l = m + newlines_between(s, q, ws);
        if spec_rule(k).precedence.level() >= min {
            let ws3 = blank_end(s, e);
            let k3 = token_kind_at(s, ws3);
            let e3 = token_end_at(s, ws3);
            let l3 = l + newlines_between(s, e, ws3);
            if k3 == TokenType::Error {
                SpecParse::Failed { error: CompileError::ScanError { line: l3 as usize } }
            } else {
                match spec_parse_expr(
                    s,
                    k3,
                    ws3,
                    e3,
                    l3,
                    spec_rule(k).precedence.spec_next().level(),
                    n,
                    (fuel - 1) as nat,
                ) {
                    SpecParse::Parsed { pos, line, code: rhs, nums: rnums } => spec_infix_chain(
                        s,
                        pos,
                        line,
                        min,
                        n + rnums.len(),
                        code + rhs + seq![opcode_byte(operator_opcode(k))],
                        nums + rnums,
                        (fuel - 1) as nat,
                    ),
                    other => other,
                }
            }
        } else {
            SpecParse::Parsed { pos: q, line: m, code, nums }
        }
    }
}

/// The specification of one whole compilation from reading position `pos` on
/// line `line`: scan the first token (a scan error fails at its line), then
/// parse one expression at the lowest non-trivial level into an empty pool.
/// The unconditional trailing Return byte is `compile`'s own, appended after
/// this parse.
pub open spec fn spec_compilation(s: Seq<u8>, pos: int, line: int) -> SpecParse {
    let ws1 = blank_end(s, pos);
    let k1 = token_kind_at(s, ws1);
    let e1 = token_end_at(s, ws1);
    let l1 = line + newlines_between(s, pos, ws1);
    if k1 == TokenType::Error {
        SpecParse::Failed { error: CompileError::ScanError { line: l1 as usize } }
    } else {
        spec_parse_expr(s, k1, ws1, e1, l1, 1, 0, spec_fuel(s))
    }
}

/// The specification parser's result does not depend on the fuel once the
/// fuel covers the bytes left, and it never runs out then; a finished parse
/// stands at or after the token it started from, inside the buffer.
pub proof fn lemma_expr_fuel(
    s: Seq<u8>,
    k1: TokenType,
    s1: int,
    e1: int,
    l1: int,
    min: nat,
    n: int,
    f1: nat,
    f2: nat,
)
    requires
        0 <= e1 <= s.len(),
        min >= 1,
        f1 >= 2 * (s.len() - e1) + 3,
        f2 >= 2 * (s.len() - e1) + 3,
    ensures
        spec_parse_expr(s, k1, s1, e1, l1, min, n, f1) == spec_parse_expr(
            s,
            k1,
            s1,
            e1,
            l1,
            min,
            n,
            f2,
        ),
        !(spec_parse_expr(s, k1, s1, e1, l1, min, n, f1) is Spent),
        spec_parse_expr(s, k1, s1, e1, l1, min, n, f1) matches SpecParse::Parsed { pos, .. }
            ==> e1 <= pos <= s.len(),
    decreases s.len() - e1, 1int,
{
    let ws2 = blank_end(s, e1);
    lemma_blank_end_bounds(s, e1);
    let k2 = token_kind_at(s, ws2);
    if k2 != TokenType::Error && k1 == TokenType::Number && n < MAX_CONSTANTS {
        let tok = (Token {
            token_type: TokenType::Number,
            start: s1 as usize,
            length: (e1 - s1) as usize,
            line: l1 as usize,
        });
        lemma_chain_fuel(
            s,
            e1,
            l1,
            min,
            n + 1,
            seq![1u8, n as u8],
            seq![(n as u8, tok)],
            (f1 - 1) as nat,
            (f2 - 1) as nat,
        );
    }
}

/// Companion of `lemma_expr_fuel` for the infix layer.
pub proof fn lemma_chain_fuel(
    s: Seq<u8>,
    q: int,
    m: int,
    min: nat,
    n: int,
    code: Seq<u8>,
    nums: Seq<(u8, Token)>,
    f1: nat,
    f2: nat,
)
    requires
        0 <= q <= s.len(),
        min >= 1,
        f1 >= 2 * (s.len() - q) + 2,
        f2 >= 2 * (s.len() - q) + 2,
    ensures
        spec_infix_chain(s, q, m, min, n, code, nums, f1) == spec_infix_chain(
            s,
            q,
            m,
            min,
            n,
            code,
            nums,
            f2,
        ),
        !(spec_infix_chain(s, q, m, min, n, code, nums, f1) is Spent),
        spec_infix_chain(s, q, m, min, n, code, nums, f1) matches SpecParse::Parsed { pos, .. }
            ==> q <= pos <= s.len(),
    decreases s.len() - q, 0int,
{
    let ws = blank_end(s, q);
    lemma_blank_end_bounds(s, q);
    lemma_token_end_bounds(s, ws);
    let k = token_kind_at(s, ws);
    let e = token_end_at(s, ws);
    if spec_rule(k).precedence.level() >= min {
        // a lookahead binding as infix is one of the four operator tokens,
        // which all stand strictly inside the buffer
        assert(ws < s.len());
        let l = m + newlines_between(s, q, ws);
        let ws3 = blank_end(s, e);
        lemma_blank_end_bounds(s, e);
        lemma_token_end_bounds(s, ws3);
        let k3 = token_kind_at(s, ws3);
        let e3 = token_end_at(s, ws3);
        let l3 = l + newlines_between(s, e, ws3);
        if k3 != TokenType::Error {
            let nextmin = spec_rule(k).precedence.spec_next().level();
            lemma_expr_fuel(s, k3, ws3, e3, l3, nextmin, n, (f1 - 1) as nat, (f2 - 1) as nat);
            match spec_parse_expr(s, k3, ws3, e3, l3, nextmin, n, (f1 - 1) as nat) {
                SpecParse::Parsed { pos, line, code: rhs, nums: rnums } => {
                    lemma_chain_fuel(
                        s,
                        pos,
                        line,
                        min,
                        n + rnums.len(),
                        code + rhs + seq![opcode_byte(operator_opcode(k))],
                        nums + rnums,
                        (f1 - 1) as nat,
                        (f2 - 1) as nat,
                    );
                },
                _ => {},
            }
        }
    }
}

/// The parser's lookahead and scanner stand exactly where scanning one token
/// from reading position `pos` on line `line` leaves them.
pub open spec fn lookahead_matches<'a>(p: Parser<'a>, s: Seq<u8>, pos: int, line: int) -> bool {
    let ws = blank_end(s, pos);
    &&& p.current.token_type == token_kind_at(s, ws)
    &&& p.current.start as int == ws
    &&& p.current.start + p.current.length == token_end_at(s, ws)
    &&& p.current.line as int == line + newlines_between(s, pos, ws)
    &&& p.scanner.current as int == token_end_at(s, ws)
    &&& p.scanner.line as int == line + newlines_between(s, pos, ws)
}

/// A token the parser holds: it lies inside the source buffer, and a Number
/// token's lexeme is a well-shaped numeral.
pub open spec fn token_ok(s: Seq<u8>, t: Token) -> bool {
    &&& t.start + t.length <= s.len()
    &&& (t.token_type == TokenType::Number ==> t.length > 0 && is_numeral(
        s.subrange(t.start as int, t.start + t.length),
    ))
}

/// The compiler: holds the scanner it pulls tokens from, the `current`
/// lookahead and the `previous` token just consumed, the chunk being built,
/// and the list of numerals whose pool slots await binding — each entry is
/// the reserved pool index together with the Number token whose lexeme the
/// caller parses and binds through `Chunk::set_constant`.
pub struct Parser<'a> {
    pub scanner: Scanner<'a>,
    pub current: Token,
    pub previous: Token,
    pub chunk: Chunk,
    pub numerals: Vec<(u8, Token)>,
}

impl<'a> Parser<'a> {
    /// Protocol tie between the lookahead and the scanner: the lookahead
    /// token ends exactly where the scanner stands, and only an end-of-input
    /// token can be empty. Parsing terminates because consuming a non-empty
    /// lookahead moves the scanner strictly forward.
    pub open spec fn lookahead_ok(self) -> bool {
        &&& self.current.start + self.current.length == self.scanner.current
        &&& self.current.line == self.scanner.line
        &&& (self.current.token_type != TokenType::Eof ==> self.current.length > 0)
    }

    pub open spec fn wf(self) -> bool {
        &&& self.scanner.wf()
        &&& self.chunk.wf()
        &&& token_ok(self.scanner.source@, self.current)
        &&& token_ok(self.scanner.source@, self.previous)
        &&& self.current.token_type != TokenType::Error
        &&& forall|i: int|
            0 <= i < self.numerals@.len() ==> {
                &&& token_ok(self.scanner.source@, (#[trigger] self.numerals@[i]).1)
                &&& self.numerals@[i].1.token_type == TokenType::Number
                &&& (self.numerals@[i].0 as int) < self.chunk.constants@.len()
            }
    }

    /// A fresh compiler over a source buffer, with an empty chunk and
    /// placeholder end-of-input tokens in both lookahead slots.
    pub fn new(source: &'a Vec<u8>) -> (p: Parser<'a>)
        requires
            source@.len() < usize::MAX,
        ensures
            p.wf(),
            p.scanner.source == source,
            p.scanner.current == 0,
            p.scanner.line == 1,
            p.chunk.code@ == Seq::<u8>::empty(),
            p.chunk.constants@ == Seq::<Value>::empty(),
            p.numerals@ == Seq::<(u8, Token)>::empty(),
            p.current == (Token { token_type: TokenType::Eof, start: 0, length: 0, line: 1 }),
            p.lookahead_ok(),
    {
        Parser {
            scanner: Scanner::new(source),
            current: Token::new(TokenType::Eof, 0, 0, 1),
            previous: Token::new(TokenType::Eof, 0, 0, 1),
            chunk: Chunk::new(),
            numerals: Vec::new(),
        }
    }

    /// The dispatch-table row of a token kind.
    pub fn get_rule(&self, key: TokenType) -> (r: ParseRule)
        ensures
            r == spec_rule(key),
    {
        match key {
            TokenType::Number => ParseRule {
                prefix: Some(PrefixFn::Number),
                infix: None,
                precedence: Precedence::Lowest,
            },
            TokenType::Plus => ParseRule {
                prefix: None,
                infix: Some(InfixFn::Binary),
                precedence: Precedence::Term,
            },
            TokenType::Minus => ParseRule {
                prefix: None,
                infix: Some(InfixFn::Binary),
                precedence: Precedence::Term,
            },
            TokenType::Star => ParseRule {
                prefix: None,
                infix: Some(InfixFn::Binary),
                precedence: Precedence::Factor,
            },
            TokenType::Slash => ParseRule {
                prefix: None,
                infix: Some(InfixFn::Binary),
                precedence: Precedence::Factor,
            },
            _ => ParseRule { prefix: None, infix: None, precedence: Precedence::Lowest },
        }
    }

    /// Whether the lookahead token binds as an infix operator at or above
    /// the given level.
    fn infix_ahead(&self, precedence: Precedence) -> (r: bool)
        ensures
            r == (precedence.level() <= spec_rule(self.current.token_type).precedence.level()),
    {
        let rule = self.get_rule(self.current.token_type);
        precedence.rank() <= rule.precedence.rank()
    }

    /// Shifts the lookahead into `previous` and scans the next token. An
    /// `Error` token is surfaced as a hard failure at once: a scan error
    /// never hides behind a discarded token.
    pub fn advance(&mut self) -> (r: Result<(), CompileError>)
        requires
            old(self).wf(),
        ensures
            final(self).wf(),
            final(self).scanner.source == old(self).scanner.source,
            final(self).chunk == old(self).chunk,
            final(self).numerals == old(self).numerals,
            final(self).previous == old(self).current,
            final(self).scanner.current >= old(self).scanner.current,
            ({
                let s = old(self).scanner.source@;
                let ws = blank_end(s, old(self).scanner.current as int);
                let kind = token_kind_at(s, ws);
                let lin = old(self).scanner.line + newlines_between(
                    s,
                    old(self).scanner.current as int,
                    ws,
                );
                &&& final(self).scanner.current as int == token_end_at(s, ws)
                &&& final(self).scanner.line as int == lin
                &&& (kind == TokenType::Error ==> (r matches Err(CompileError::ScanError { line })
                    && line as int == lin))
                &&& (kind != TokenType::Error ==> {
                    &&& r is Ok
                    &&& final(self).current.token_type == kind
                    &&& final(self).current.start as int == ws
                    &&& final(self).current.start >= old(self).scanner.current
                    &&& final(self).current.start + final(self).current.length == token_end_at(
                        s,
                        ws,
                    )
                    &&& final(self).current.line as int == lin
                    &&& final(self).lookahead_ok()
                })
                &&& (kind == TokenType::Error ==> final(self).current == old(self).current)
            }),
    {
        self.previous = self.current;
        let token = self.scanner.scan_token();
        proof {
            let s = self.scanner.source@;
            let ws = blank_end(s, old(self).scanner.current as int);
            lemma_blank_end_bounds(s, old(self).scanner.current as int);
            lemma_token_end_bounds(s, ws);
            if token_kind_at(s, ws) == TokenType::Number {
                lemma_number_token_is_numeral(s, ws);
            }
        }
        if token.token_type == TokenType::Error {
            Err(CompileError::ScanError { line: token.line })
        } else {
            self.current = token;
            Ok(())
        }
    }

    /// Appends one instruction byte at the line of the token just consumed.
    pub fn emit_byte(&mut self, byte: u8)
        requires
            old(self).wf(),
        ensures
            final(self).wf(),
            final(self).scanner == old(self).scanner,
            final(self).current == old(self).current,
            final(self).previous == old(self).previous,
            final(self).numerals == old(self).numerals,
            final(self).chunk.code@ == old(self).chunk.code@.push(byte),
            final(self).chunk.lines@ == old(self).chunk.lines@.push(old(self).previous.line),
            final(self).chunk.constants@ == old(self).chunk.constants@,
    {
        let line = self.previous.line;
        self.chunk.write(byte, line);
    }

    /// Appends two instruction bytes at the line of the token just consumed.
    pub fn emit_bytes(&mut self, byte1: u8, byte2: u8)
        requires
            old(self).wf(),
        ensures
            final(self).wf(),
            final(self).scanner == old(self).scanner,
            final(self).current == old(self).current,
            final(self).previous == old(self).previous,
            final(self).numerals == old(self).numerals,
            final(self).chunk.code@ == old(self).chunk.code@ + seq![byte1, byte2],
            final(self).chunk.lines@ == old(self).chunk.lines@ + seq![
                old(self).previous.line,
                old(self).previous.line,
            ],
            final(self).chunk.constants@ == old(self).chunk.constants@,
    {
        self.emit_byte(byte1);
        self.emit_byte(byte2);
        proof {
            assert(final(self).chunk.code@ =~= old(self).chunk.code@ + seq![byte1, byte2]);
            assert(final(self).chunk.lines@ =~= old(self).chunk.lines@ + seq![
                old(self).previous.line,
                old(self).previous.line,
            ]);
        }
    }

    /// Appends `value` to the constant pool and emits the two-byte Constant
    /// instruction referencing it; fails when the pool is already full,
    /// leaving everything unchanged.
    pub fn emit_constant(&mut self, value: Value) -> (r: Result<u8, CompileError>)
        requires
            old(self).wf(),
        ensures
            final(self).wf(),
            final(self).scanner == old(self).scanner,
            final(self).current == old(self).current,
            final(self).previous == old(self).previous,
            final(self).numerals == old(self).numerals,
            r is Ok <==> old(self).chunk.constants@.len() < MAX_CONSTANTS,
            r is Err ==> {
                &&& r == Err::<u8, CompileError>(CompileError::TooManyConstants {
                    line: old(self).previous.line,
                })
                &&& final(self).chunk.code@ == old(self).chunk.code@
                &&& final(self).chunk.lines@ == old(self).chunk.lines@
                &&& final(self).chunk.constants@ == old(self).chunk.constants@
            },
            r is Ok ==> {
                &&& r == Ok::<u8, CompileError>(old(self).chunk.constants@.len() as u8)
                &&& final(self).chunk.code@ == old(self).chunk.code@ + seq![
                    1u8,
                    old(self).chunk.constants@.len() as u8,
                ]
                &&& final(self).chunk.lines@ == old(self).chunk.lines@ + seq![
                    old(self).previous.line,
                    old(self).previous.line,
                ]
                &&& final(self).chunk.constants@ == old(self).chunk.constants@.push(value)
            },
    {
        match self.chunk.add_constant(value) {
            Some(index) => {
                let op = OpCode::Constant.as_byte();
                self.emit_bytes(op, index);
                Ok(index)
            },
            None => Err(CompileError::TooManyConstants { line: self.previous.line }),
        }
    }

    /// Prefix handler for a number literal: reserves the next constant-pool
    /// slot with a placeholder, records the numeral's lexeme and the slot
    /// for the caller to bind, and emits the Constant instruction. Fails
    /// exactly when the pool is full.
    pub fn number(&mut self) -> (r: Result<(), CompileError>)
        requires
            old(self).wf(),
            old(self).previous.token_type == TokenType::Number,
        ensures
            final(self).wf(),
            final(self).scanner == old(self).scanner,
            final(self).current == old(self).current,
            final(self).previous == old(self).previous,
            r is Ok <==> old(self).chunk.constants@.len() < MAX_CONSTANTS,
            r is Err ==> {
                &&& r == Err::<(), CompileError>(CompileError::TooManyConstants {
                    line: old(self).previous.line,
                })
                &&& final(self).chunk.code@ == old(self).chunk.code@
                &&& final(self).chunk.lines@ == old(self).chunk.lines@
                &&& final(self).chunk.constants@ == old(self).chunk.constants@
                &&& final(self).numerals == old(self).numerals
            },
            r is Ok ==> {
                &&& final(self).chunk.code@ == old(self).chunk.code@ + seq![
                    1u8,
                    old(self).chunk.constants@.len() as u8,
                ]
                &&& final(self).chunk.constants@ == old(self).chunk.constants@.push(
                    (Value { value_type: ValueType::Number, value: 0 }),
                )
                &&& final(self).numerals@ == old(self).numerals@.push(
                    (old(self).chunk.constants@.len() as u8, old(self).previous),
                )
                &&& forall|h: int|
                    h >= 0 ==> #[trigger] frag_height(
                        final(self).chunk.code@,
                        final(self).chunk.constants@.len() as int,
                        old(self).chunk.code@.len() as int,
                        final(self).chunk.code@.len() as int,
                        h,
                    ) == Some(h + 1)
            },
    {
        let token = self.previous;
        match self.emit_constant(Value::new(ValueType::Number, 0)) {
            Ok(index) => {
                self.numerals.push((index, token));
                proof {
                    let code = self.chunk.code@;
                    let n = self.chunk.constants@.len() as int;
                    let lo = old(self).chunk.code@.len() as int;
                    assert forall|h: int| h >= 0 implies #[trigger] frag_height(
                        code,
                        n,
                        lo,
                        lo + 2,
                        h,
                    ) == Some(h + 1) by {
                        assert(code[lo] == 1);
                        assert((code[lo + 1] as int) < n);
                        assert(frag_height(code, n, lo + 2, lo + 2, h + 1) == Some(h + 1));
                    }
                }
                Ok(())
            },
            Err(e) => Err(e),
        }
    }

    /// Infix handler for a binary operator, which stands in `previous`:
    /// parses the right operand at the level above the operator's own —
    /// which makes operator chains left-associative — then emits the
    /// operator's single instruction (Minus to Subtract, Plus to Add, Slash
    /// to Divide, Star to Multiply). It succeeds exactly when the right
    /// operand parses, and then the appended bytes are exactly the operand's
    /// code followed by that one operator byte; the fragment pops the left
    /// operand the surrounding code already pushed and pushes the result
    /// slot, leaving the running stack height unchanged.
    pub fn binary(&mut self) -> (r: Result<(), CompileError>)
        requires
            old(self).wf(),
            old(self).lookahead_ok(),
            old(self).previous.token_type == TokenType::Plus || old(self).previous.token_type
                == TokenType::Minus || old(self).previous.token_type == TokenType::Slash || old(
                self,
            ).previous.token_type == TokenType::Star,
        ensures
            final(self).wf(),
            final(self).scanner.source == old(self).scanner.source,
            final(self).scanner.current >= old(self).scanner.current,
            final(self).chunk.code@.len() >= old(self).chunk.code@.len(),
            final(self).chunk.constants@.len() >= old(self).chunk.constants@.len(),
            forall|m: int|
                0 <= m < old(self).chunk.code@.len() ==> final(self).chunk.code@[m] == old(
                    self,
                ).chunk.code@[m],
            forall|i: int|
                0 <= i < old(self).chunk.constants@.len() ==> final(self).chunk.constants@[i]
                    == old(self).chunk.constants@[i],
            r is Ok ==> {
                &&& final(self).lookahead_ok()
                &&& old(self).current.token_type == TokenType::Number
                &&& final(self).chunk.code@.last() == opcode_byte(
                    operator_opcode(old(self).previous.token_type),
                )
                &&& forall|h: int|
                    h >= 1 ==> #[trigger] frag_height(
                        final(self).chunk.code@,
                        final(self).chunk.constants@.len() as int,
                        old(self).chunk.code@.len() as int,
                        final(self).chunk.code@.len() as int,
                        h,
                    ) == Some(h)
            },
            ({
                let s = old(self).scanner.source@;
                let result = spec_parse_expr(
                    s,
                    old(self).current.token_type,
                    old(self).current.start as int,
                    old(self).scanner.current as int,
                    old(self).scanner.line as int,
                    spec_rule(old(self).previous.token_type).precedence.spec_next().level(),
                    old(self).chunk.constants@.len() as int,
                    spec_fuel(s),
                );
                &&& (r matches Err(e) ==> result == (SpecParse::Failed { error: e }))
                &&& (r is Ok ==> (result matches SpecParse::Parsed { pos, line, code, nums } && {
                    &&& final(self).chunk.code@ == old(self).chunk.code@ + code + seq![
                        opcode_byte(operator_opcode(old(self).previous.token_type)),
                    ]
                    &&& final(self).numerals@ == old(self).numerals@ + nums
                    &&& final(self).chunk.constants@.len() == old(self).chunk.constants@.len()
                        + nums.len()
                    &&& (forall|i: int|
                        old(self).chunk.constants@.len() <= i < final(self).chunk.constants@.len()
                            ==> final(self).chunk.constants@[i] == (Value {
                            value_type: ValueType::Number,
                            value: 0,
                        }))
                    &&& lookahead_matches(*final(self), s, pos, line)
                }))
            }),
        decreases self.scanner.source@.len() - self.scanner.current, 1int,
    {
        let operator = self.previous.token_type;
        let rule = self.get_rule(operator);
        let ghost lo = self.chunk.code@.len() as int;
        let next_prec = rule.precedence.next();
        let res = self.parse_precedence(next_prec);
        if let Err(e) = res {
            return Err(e);
        }
        let ghost mid_code = self.chunk.code@;
        let ghost mid_n = self.chunk.constants@.len() as int;
        let opcode = if operator == TokenType::Minus {
            OpCode::Subtract
        } else if operator == TokenType::Plus {
            OpCode::Add
        } else if operator == TokenType::Slash {
            OpCode::Divide
        } else {
            OpCode::Multiply
        };
        let opb = opcode.as_byte();
        self.emit_byte(opb);
        proof {
            let code2 = self.chunk.code@;
            let n2 = self.chunk.constants@.len() as int;
            let mid = mid_code.len() as int;
            let hi = code2.len() as int;
            assert(is_binary_byte(code2[mid]));
            assert forall|h: int| h >= 1 implies #[trigger] frag_height(
                code2,
                n2,
                lo,
                hi,
                h,
            ) == Some(h) by {
                assert(frag_height(mid_code, mid_n, lo, mid, h) == Some(h + 1));
                lemma_frag_stable(mid_code, code2, mid_n, n2, lo, mid, h);
                assert(frag_height(code2, n2, mid + 1, hi, h) == Some(h));
                assert(frag_height(code2, n2, mid, hi, h + 1) == Some(h));
                lemma_frag_compose(code2, n2, lo, mid, hi, h, h + 1);
            }
            // the emitted bytes are exactly the right operand's code followed
            // by this operator's single byte
            assert(opb == opcode_byte(operator_opcode(operator)));
            let s_all = old(self).scanner.source@;
            let rhs_result = spec_parse_expr(
                s_all,
                old(self).current.token_type,
                old(self).current.start as int,
                old(self).scanner.current as int,
                old(self).scanner.line as int,
                spec_rule(old(self).previous.token_type).precedence.spec_next().level(),
                old(self).chunk.constants@.len() as int,
                spec_fuel(s_all),
            );
            if let SpecParse::Parsed { pos, line, code: rhs, nums: rnums } = rhs_result {
                assert(self.chunk.code@ =~= old(self).chunk.code@ + rhs + seq![
                    opcode_byte(operator_opcode(operator)),
                ]);
            }
        }
        Ok(())
    }

    /// The core expression parser: consumes one prefix expression, then
    /// every infix operator binding at `precedence` or above, each infix
    /// handler recursing for its right operand before its own instruction is
    /// emitted. Fails with "expected expression" when the token standing
    /// where the expression must begin binds no prefix handler, and with a
    /// scan error the moment the scanner reports one. Success, the emitted
    /// bytes and the recorded numerals are exactly `spec_parse_expr`'s, and
    /// the emitted fragment pushes exactly one value on any stack it is run
    /// on.
    #[verifier::loop_isolation(false)]
    #[verifier::rlimit(80)]
    fn parse_precedence(&mut self, precedence: Precedence) -> (r: Result<(), CompileError>)
        requires
            old(self).wf(),
            old(self).lookahead_ok(),
            precedence.level() >= 1,
        ensures
            final(self).wf(),
            final(self).scanner.source == old(self).scanner.source,
            final(self).scanner.current >= old(self).scanner.current,
            final(self).chunk.code@.len() >= old(self).chunk.code@.len(),
            final(self).chunk.constants@.len() >= old(self).chunk.constants@.len(),
            forall|m: int|
                0 <= m < old(self).chunk.code@.len() ==> final(self).chunk.code@[m] == old(
                    self,
                ).chunk.code@[m],
            forall|i: int|
                0 <= i < old(self).chunk.constants@.len() ==> final(self).chunk.constants@[i]
                    == old(self).chunk.constants@[i],
            r is Ok ==> {
                &&& final(self).lookahead_ok()
                &&& old(self).current.token_type == TokenType::Number
                &&& forall|h: int|
                    h >= 0 ==> #[trigger] frag_height(
                        final(self).chunk.code@,
                        final(self).chunk.constants@.len() as int,
                        old(self).chunk.code@.len() as int,
                        final(self).chunk.code@.len() as int,
                        h,
                    ) == Some(h + 1)
            },
            ({
                let s = old(self).scanner.source@;
                let pos = old(self).scanner.current as int;
                let ws = blank_end(s, pos);
                let kind = token_kind_at(s, ws);
                let lin = old(self).scanner.line + newlines_between(s, pos, ws);
                &&& (kind == TokenType::Error ==> (r matches Err(CompileError::ScanError { line })
                    && line as int == lin))
                &&& (kind != TokenType::Error && old(self).current.token_type != TokenType::Number
                    ==> (r matches Err(CompileError::ExpectedExpression { line }) && line as int
                    == lin))
                &&& (old(self).current.token_type == TokenType::Number && kind != TokenType::Error
                    && spec_rule(kind).precedence.level() < precedence.level() && old(
                    self,
                ).chunk.constants@.len() < MAX_CONSTANTS ==> r is Ok)
            }),
            ({
                let s = old(self).scanner.source@;
                let result = spec_parse_expr(
                    s,
                    old(self).current.token_type,
                    old(self).current.start as int,
                    old(self).scanner.current as int,
                    old(self).scanner.line as int,
                    precedence.level(),
                    old(self).chunk.constants@.len() as int,
                    spec_fuel(s),
                );
                &&& (r matches Err(e) ==> result == (SpecParse::Failed { error: e }))
                &&& (r is Ok ==> (result matches SpecParse::Parsed { pos, line, code, nums } && {
                    &&& final(self).chunk.code@ == old(self).chunk.code@ + code
                    &&& final(self).numerals@ == old(self).numerals@ + nums
                    &&& final(self).chunk.constants@.len() == old(self).chunk.constants@.len()
                        + nums.len()
                    &&& (forall|i: int|
                        old(self).chunk.constants@.len() <= i < final(self).chunk.constants@.len()
                            ==> final(self).chunk.constants@[i] == (Value {
                            value_type: ValueType::Number,
                            value: 0,
                        }))
                    &&& lookahead_matches(*final(self), s, pos, line)
                }))
            }),
        decreases self.scanner.source@.len() - self.scanner.current, 0int,
    {
        let ghost ssrc = self.scanner.source@;
        let ghost k1 = self.current.token_type;
        let ghost s1 = self.current.start as int;
        let ghost e1 = self.scanner.current as int;
        let ghost l1 = self.scanner.line as int;
        let ghost n0 = self.chunk.constants@.len() as int;
        let ghost minl = precedence.level();
        let ghost fl = spec_fuel(ssrc);
        let ghost target = spec_parse_expr(ssrc, k1, s1, e1, l1, minl, n0, fl);
        let result = self.advance();
        if let Err(e) = result {
            proof {
                assert(target == (SpecParse::Failed { error: e }));
            }
            return Err(e);
        }
        let rule = self.get_rule(self.previous.token_type);
        match rule.prefix {
            Some(PrefixFn::Number) => {
                let res = self.number();
                if let Err(e) = res {
                    proof {
                        assert(target == (SpecParse::Failed { error: e }));
                    }
                    return Err(e);
                }
            },
            None => {
                proof {
                    assert(target == (SpecParse::Failed {
                        error: CompileError::ExpectedExpression { line: self.current.line },
                    }));
                }
                return Err(CompileError::ExpectedExpression { line: self.current.line });
            },
        }
        let ghost src = self.scanner.source;
        let ghost lo = old(self).chunk.code@.len() as int;
        let ghost nbase = old(self).numerals@.len() as int;
        let ghost mut q: int = e1;
        let ghost mut ml: int = l1;
        let ghost first_kind = token_kind_at(
            old(self).scanner.source@,
            blank_end(old(self).scanner.source@, old(self).scanner.current as int),
        );
        proof {
            let tok = (Token {
                token_type: TokenType::Number,
                start: s1 as usize,
                length: (e1 - s1) as usize,
                line: l1 as usize,
            });
            assert(tok == old(self).current);
            assert(self.chunk.code@.subrange(lo, self.chunk.code@.len() as int) =~= seq![
                1u8,
                n0 as u8,
            ]);
            assert(self.numerals@.subrange(nbase, self.numerals@.len() as int) =~= seq![
                (n0 as u8, tok),
            ]);
            assert(target == spec_infix_chain(
                ssrc,
                e1,
                l1,
                minl,
                n0 + 1,
                seq![1u8, n0 as u8],
                seq![(n0 as u8, tok)],
                (fl - 1) as nat,
            ));
            lemma_chain_fuel(
                ssrc,
                e1,
                l1,
                minl,
                n0 + 1,
                seq![1u8, n0 as u8],
                seq![(n0 as u8, tok)],
                (fl - 1) as nat,
                fl,
            );
        }
        while self.infix_ahead(precedence)
            invariant
                old(self).current.token_type == TokenType::Number && first_kind
                    != TokenType::Error && spec_rule(first_kind).precedence.level()
                    < precedence.level() && old(self).chunk.constants@.len() < MAX_CONSTANTS
                    ==> self.current.token_type == first_kind,
                self.wf(),
                self.lookahead_ok(),
                self.scanner.source == src,
                self.scanner.source@ == ssrc,
                self.scanner.current >= old(self).scanner.current,
                self.current.token_type != TokenType::Eof ==> self.scanner.current > old(
                    self,
                ).scanner.current,
                self.chunk.code@.len() >= lo,
                self.chunk.constants@.len() >= old(self).chunk.constants@.len(),
                forall|m: int| 0 <= m < lo ==> self.chunk.code@[m] == old(self).chunk.code@[m],
                forall|h: int|
                    h >= 0 ==> #[trigger] frag_height(
                        self.chunk.code@,
                        self.chunk.constants@.len() as int,
                        lo,
                        self.chunk.code@.len() as int,
                        h,
                    ) == Some(h + 1),
                0 <= q,
                q <= ssrc.len(),
                lookahead_matches(*self, ssrc, q, ml),
                self.numerals@.len() >= nbase,
                forall|i: int| 0 <= i < nbase ==> self.numerals@[i] == old(self).numerals@[i],
                self.chunk.constants@.len() as int == n0 + self.numerals@.len() - nbase,
                forall|i: int|
                    0 <= i < n0 ==> self.chunk.constants@[i] == old(self).chunk.constants@[i],
                forall|i: int|
                    n0 <= i < self.chunk.constants@.len() ==> self.chunk.constants@[i] == (Value {
                        value_type: ValueType::Number,
                        value: 0,
                    }),
                target == spec_infix_chain(
                    ssrc,
                    q,
                    ml,
                    minl,
                    self.chunk.constants@.len() as int,
                    self.chunk.code@.subrange(lo, self.chunk.code@.len() as int),
                    self.numerals@.subrange(nbase, self.numerals@.len() as int),
                    fl,
                ),
            decreases self.scanner.source@.len() - self.scanner.current,
        {
            let ghost ist = *self;
            let ghost iter_scan = self.scanner.current;
            let ghost ws_op = blank_end(ssrc, q);
            let ghost k_op = token_kind_at(ssrc, ws_op);
            let ghost e_op = token_end_at(ssrc, ws_op);
            let ghost l_op = ml + newlines_between(ssrc, q, ws_op);
            let res = self.advance();
            if let Err(e) = res {
                proof {
                    assert(target == (SpecParse::Failed { error: e }));
                }
                return Err(e);
            }
            let ghost cur_before = self.current;
            let ghost mid_code = self.chunk.code@;
            let ghost mid_n = self.chunk.constants@.len() as int;
            let ghost acc_code = mid_code.subrange(lo, mid_code.len() as int);
            let ghost acc_nums = self.numerals@.subrange(nbase, self.numerals@.len() as int);
            let res2 = self.binary();
            if let Err(e) = res2 {
                proof {
                    let ws3 = blank_end(ssrc, e_op);
                    let nextmin = spec_rule(k_op).precedence.spec_next().level();
                    lemma_expr_fuel(
                        ssrc,
                        token_kind_at(ssrc, ws3),
                        ws3,
                        token_end_at(ssrc, ws3),
                        l_op + newlines_between(ssrc, e_op, ws3),
                        nextmin,
                        mid_n,
                        (fl - 1) as nat,
                        fl,
                    );
                    assert(target == (SpecParse::Failed { error: e }));
                }
                return Err(e);
            }
            proof {
                // the right operand began with a non-empty Number token, so
                // the scanner moved strictly past where this iteration began
                assert(cur_before.token_type == TokenType::Number);
                assert(cur_before.start + cur_before.length > cur_before.start);
                assert(self.scanner.current > iter_scan);
                let code2 = self.chunk.code@;
                let n2 = self.chunk.constants@.len() as int;
                let mid = mid_code.len() as int;
                let hi = code2.len() as int;
                assert forall|h: int| h >= 0 implies #[trigger] frag_height(
                    code2,
                    n2,
                    lo,
                    hi,
                    h,
                ) == Some(h + 1) by {
                    assert(frag_height(mid_code, mid_n, lo, mid, h) == Some(h + 1));
                    lemma_frag_stable(mid_code, code2, mid_n, n2, lo, mid, h);
                    assert(frag_height(code2, n2, mid, hi, h + 1) == Some(h + 1));
                    lemma_frag_compose(code2, n2, lo, mid, hi, h, h + 1);
                }
                // step the specification chain over this operator: the right
                // operand's parse is binary's, at one fuel unit less
                let ws3 = blank_end(ssrc, e_op);
                let k3 = token_kind_at(ssrc, ws3);
                let e3 = token_end_at(ssrc, ws3);
                let l3 = l_op + newlines_between(ssrc, e_op, ws3);
                let nextmin = spec_rule(k_op).precedence.spec_next().level();
                lemma_expr_fuel(ssrc, k3, ws3, e3, l3, nextmin, mid_n, (fl - 1) as nat, fl);
                let rhs_result = spec_parse_expr(ssrc, k3, ws3, e3, l3, nextmin, mid_n, fl);
                assert(rhs_result is Parsed);
                if let SpecParse::Parsed { pos, line, code: rhs, nums: rnums } = rhs_result {
                    assert(self.chunk.code@.subrange(lo, self.chunk.code@.len() as int) =~= acc_code
                        + rhs + seq![opcode_byte(operator_opcode(k_op))]);
                    assert(self.numerals@.subrange(nbase, self.numerals@.len() as int) =~= acc_nums
                        + rnums);
                    lemma_chain_fuel(
                        ssrc,
                        pos,
                        line,
                        minl,
                        mid_n + rnums.len(),
                        acc_code + rhs + seq![opcode_byte(operator_opcode(k_op))],
                        acc_nums + rnums,
                        (fl - 1) as nat,
                        fl,
                    );
                    q = pos;
                    ml = line;
                }
            }
        }
        proof {
            let ws = blank_end(ssrc, q);
            assert(spec_rule(token_kind_at(ssrc, ws)).precedence.level() < minl);
            assert(target == (SpecParse::Parsed {
                pos: q,
                line: ml,
                code: self.chunk.code@.subrange(lo, self.chunk.code@.len() as int),
                nums: self.numerals@.subrange(nbase, self.numerals@.len() as int),
            }));
            assert(old(self).chunk.code@ =~= self.chunk.code@.subrange(0, lo));
            assert(self.chunk.code@ =~= self.chunk.code@.subrange(0, lo) + self.chunk.code@.subrange(
                lo,
                self.chunk.code@.len() as int,
            ));
            assert(old(self).numerals@ =~= self.numerals@.subrange(0, nbase));
            assert(self.numerals@ =~= self.numerals@.subrange(0, nbase) + self.numerals@.subrange(
                nbase,
                self.numerals@.len() as int,
            ));
        }
        Ok(())
    }

    /// Parses one full expression: the lowest non-trivial precedence level.
    pub fn expression(&mut self) -> (r: Result<(), CompileError>)
        requires
            old(self).wf(),
            old(self).lookahead_ok(),
        ensures
            final(self).wf(),
            final(self).scanner.source == old(self).scanner.source,
            final(self).scanner.current >= old(self).scanner.current,
            final(self).chunk.code@.len() >= old(self).chunk.code@.len(),
            final(self).chunk.constants@.len() >= old(self).chunk.constants@.len(),
            forall|m: int|
                0 <= m < old(self).chunk.code@.len() ==> final(self).chunk.code@[m] == old(
                    self,
                ).chunk.code@[m],
            forall|i: int|
                0 <= i < old(self).chunk.constants@.len() ==> final(self).chunk.constants@[i]
                    == old(self).chunk.constants@[i],
            r is Ok ==> {
                &&& final(self).lookahead_ok()
                &&& old(self).current.token_type == TokenType::Number
                &&& forall|h: int|
                    h >= 0 ==> #[trigger] frag_height(
                        final(self).chunk.code@,
                        final(self).chunk.constants@.len() as int,
                        old(self).chunk.code@.len() as int,
                        final(self).chunk.code@.len() as int,
                        h,
                    ) == Some(h + 1)
            },
            ({
                let s = old(self).scanner.source@;
                let pos = old(self).scanner.current as int;
                let ws = blank_end(s, pos);
                let kind = token_kind_at(s, ws);
                let lin = old(self).scanner.line + newlines_between(s, pos, ws);
                &&& (kind == TokenType::Error ==> (r matches Err(CompileError::ScanError { line })
                    && line as int == lin))
                &&& (kind != TokenType::Error && old(self).current.token_type != TokenType::Number
                    ==> (r matches Err(CompileError::ExpectedExpression { line }) && line as int
                    == lin))
                &&& (old(self).current.token_type == TokenType::Number && kind != TokenType::Error
                    && spec_rule(kind).precedence.level() == 0 && old(
                    self,
                ).chunk.constants@.len() < MAX_CONSTANTS ==> r is Ok)
            }),
            ({
                let s = old(self).scanner.source@;
                let result = spec_parse_expr(
                    s,
                    old(self).current.token_type,
                    old(self).current.start as int,
                    old(self).scanner.current as int,
                    old(self).scanner.line as int,
                    1,
                    old(self).chunk.constants@.len() as int,
                    spec_fuel(s),
                );
                &&& (r matches Err(e) ==> result == (SpecParse::Failed { error: e }))
                &&& (r is Ok ==> (result matches SpecParse::Parsed { pos, line, code, nums } && {
                    &&& final(self).chunk.code@ == old(self).chunk.code@ + code
                    &&& final(self).numerals@ == old(self).numerals@ + nums
                    &&& final(self).chunk.constants@.len() == old(self).chunk.constants@.len()
                        + nums.len()
                    &&& (forall|i: int|
                        old(self).chunk.constants@.len() <= i < final(self).chunk.constants@.len()
                            ==> final(self).chunk.constants@[i] == (Value {
                            value_type: ValueType::Number,
                            value: 0,
                        }))
                    &&& lookahead_matches(*final(self), s, pos, line)
                }))
            }),
    {
        self.parse_precedence(Precedence::Assignment)
    }

    /// The top-level driver: one initial lookahead, one full expression, one
    /// unconditional trailing Return instruction — exactly one expression
    /// per compilation. The compilation succeeds exactly when
    /// `spec_compilation` parses the source as one expression with room in
    /// the constant pool, and then the instruction bytes, the recorded
    /// numerals and the placeholder pool are exactly that parse's; every
    /// failure is the one the parse states, so a source whose first token is
    /// no number literal — whitespace-only input among them — fails with
    /// "expected expression" and hands no chunk to execution. On success the
    /// chunk is also well formed: executing it from an empty stack decodes
    /// every instruction and reaches the Return with exactly one value.
    pub fn compile(&mut self) -> (r: Result<(), CompileError>)
        requires
            old(self).wf(),
            old(self).lookahead_ok(),
            old(self).chunk.code@.len() == 0,
            old(self).chunk.constants@.len() == 0,
        ensures
            final(self).wf(),
            final(self).scanner.source == old(self).scanner.source,
            r is Ok ==> chunk_well_formed(final(self).chunk),
            r is Ok ==> final(self).chunk.code@.len() >= 2 && final(self).chunk.code@.last() == 0,
            ({
                let s = old(self).scanner.source@;
                let p0 = old(self).scanner.current as int;
                let ws1 = blank_end(s, p0);
                let k1 = token_kind_at(s, ws1);
                let lin1 = old(self).scanner.line + newlines_between(s, p0, ws1);
                let e1 = token_end_at(s, ws1);
                let ws2 = blank_end(s, e1);
                let k2 = token_kind_at(s, ws2);
                let lin2 = lin1 + newlines_between(s, e1, ws2);
                &&& (k1 == TokenType::Error ==> (r matches Err(CompileError::ScanError { line })
                    && line as int == lin1))
                &&& (k1 != TokenType::Error && k2 == TokenType::Error ==> (r matches Err(
                    CompileError::ScanError { line },
                ) && line as int == lin2))
                &&& (k1 != TokenType::Error && k2 != TokenType::Error && k1 != TokenType::Number
                    ==> (r matches Err(CompileError::ExpectedExpression { line }) && line as int
                    == lin2))
                &&& (k1 == TokenType::Number && k2 != TokenType::Error && spec_rule(
                    k2,
                ).precedence.level() == 0 ==> r is Ok)
            }),
            ({
                let s = old(self).scanner.source@;
                let result = spec_compilation(
                    s,
                    old(self).scanner.current as int,
                    old(self).scanner.line as int,
                );
                &&& (r is Ok <==> result is Parsed)
                &&& (r matches Err(e) ==> result == (SpecParse::Failed { error: e }))
                &&& (r is Ok ==> (result matches SpecParse::Parsed { code, nums, .. } && {
                    &&& final(self).chunk.code@ == code + seq![0u8]
                    &&& final(self).numerals@ == nums
                    &&& final(self).chunk.constants@.len() == nums.len()
                    &&& (forall|i: int|
                        0 <= i < final(self).chunk.constants@.len()
                            ==> final(self).chunk.constants@[i] == (Value {
                            value_type: ValueType::Number,
                            value: 0,
                        }))
                }))
            }),
    {
        let ghost ssrc = self.scanner.source@;
        let ghost p0 = self.scanner.current as int;
        let ghost l0 = self.scanner.line as int;
        let ghost target = spec_compilation(ssrc, p0, l0);
        proof {
            // the numeral list starts empty: each recorded slot index lies
            // inside the (empty) constant pool
            if old(self).numerals@.len() > 0 {
                assert((old(self).numerals@[0].0 as int) < old(self).chunk.constants@.len());
            }
        }
        let res = self.advance();
        if let Err(e) = res {
            proof {
                assert(target == (SpecParse::Failed { error: e }));
            }
            return Err(e);
        }
        let ghost exp_result = spec_parse_expr(
            ssrc,
            self.current.token_type,
            self.current.start as int,
            self.scanner.current as int,
            self.scanner.line as int,
            1,
            0,
            spec_fuel(ssrc),
        );
        proof {
            assert(target == exp_result);
        }
        let res2 = self.expression();
        if let Err(e) = res2 {
            proof {
                assert(target == (SpecParse::Failed { error: e }));
            }
            return Err(e);
        }
        let ghost mid_code = self.chunk.code@;
        let ghost mid_n = self.chunk.constants@.len() as int;
        let ret = OpCode::Return.as_byte();
        self.emit_byte(ret);
        proof {
            let code2 = self.chunk.code@;
            let n2 = self.chunk.constants@.len() as int;
            let mid = mid_code.len() as int;
            assert(code2[mid] == 0);
            assert(safe_from(code2, n2, mid, 1));
            assert(frag_height(mid_code, mid_n, 0, mid, 0) == Some(1int));
            lemma_frag_stable(mid_code, code2, mid_n, n2, 0, mid, 0);
            lemma_frag_safe(code2, n2, 0, mid, 0, 1);
            assert(mid >= 1);
            // the chunk is exactly the specification parse plus the Return
            if let SpecParse::Parsed { pos, line, code: ecode, nums: enums } = target {
                assert(mid_code == Seq::<u8>::empty() + ecode);
                assert(self.chunk.code@ =~= ecode + seq![0u8]);
                assert(self.numerals@ =~= Seq::<(u8, Token)>::empty() + enums);
                assert(self.numerals@ =~= enums);
            }
        }
        Ok(())
    }

    /// Hands the built chunk over; the compiler is consumed, and the chunk
    /// is read-only from here on.
    pub fn get_chunk(self) -> (c: Chunk)
        ensures
            c == self.chunk,
    {
        self.chunk
    }

    /// Extension point for unary operators: callable, with no behavior in
    /// the current grammar.
    pub fn unary(&mut self)
        ensures
            *final(self) == *old(self),
    {
    }

    /// Extension point for parenthesised grouping: callable, with no
    /// behavior in the current grammar.
    pub fn grouping(&mut self)
        ensures
            *final(self) == *old(self),
    {
    }

    /// Extension point for keyword literals: callable, with no behavior in
    /// the current grammar.
    pub fn literal(&mut self)
        ensures
            *final(self) == *old(self),
    {
    }
}

} // verus!

