//! Words of the source: tokens, names, signatures, and how tightly operators
//! bind.

use vstd::prelude::*;
use vstd::string::*;
use vstd::utf8::*;

use crate::corelib::arguments;
use crate::lexer;
use crate::lexer::{LexState, Lexer, Token, TokenKind, MAX_SOURCE};

verus! {

/// How tightly an operator binds, the loosest first.
#[derive(Clone, Copy, PartialEq, Eq, Structural, Debug)]
pub enum Precedence {
    Nothing,
    Lowest,
    Assignment,
    LogicalOr,
    LogicalAnd,
    Equality,
    Comparison,
    Range,
    Term,
    Factor,
    Unary,
    Call,
}

impl Precedence {
    /// How tightly, as a number.
    pub open spec fn spec_rank(self) -> u8 {
        match self {
            Precedence::Nothing => 0,
            Precedence::Lowest => 1,
            Precedence::Assignment => 2,
            Precedence::LogicalOr => 3,
            Precedence::LogicalAnd => 4,
            Precedence::Equality => 5,
            Precedence::Comparison => 6,
            Precedence::Range => 7,
            Precedence::Term => 8,
            Precedence::Factor => 9,
            Precedence::Unary => 10,
            Precedence::Call => 11,
        }
    }

    /// How tightly, as a number.
    pub fn rank(self) -> (rank: u8)
        ensures
            rank == self.spec_rank(),
    {
        match self {
            Precedence::Nothing => 0,
            Precedence::Lowest => 1,
            Precedence::Assignment => 2,
            Precedence::LogicalOr => 3,
            Precedence::LogicalAnd => 4,
            Precedence::Equality => 5,
            Precedence::Comparison => 6,
            Precedence::Range => 7,
            Precedence::Term => 8,
            Precedence::Factor => 9,
            Precedence::Unary => 10,
            Precedence::Call => 11,
        }
    }
}

/// How tightly a token binds what is before it.
pub open spec fn spec_infix_precedence(kind: TokenKind) -> Precedence {
    match kind {
        TokenKind::PipePipe => Precedence::LogicalOr,
        TokenKind::AmpAmp => Precedence::LogicalAnd,
        TokenKind::EqEq | TokenKind::BangEq => Precedence::Equality,
        TokenKind::Lt | TokenKind::Gt | TokenKind::LtEq | TokenKind::GtEq => Precedence::Comparison,
        TokenKind::DotDot | TokenKind::DotDotDot => Precedence::Range,
        TokenKind::Plus | TokenKind::Minus => Precedence::Term,
        TokenKind::Star | TokenKind::Slash | TokenKind::Percent => Precedence::Factor,
        TokenKind::Dot | TokenKind::LeftBracket => Precedence::Call,
        _ => Precedence::Nothing,
    }
}

/// How tightly a token binds what is before it.
pub fn infix_precedence(kind: TokenKind) -> (precedence: Precedence)
    ensures
        precedence == spec_infix_precedence(kind),
{
    match kind {
        TokenKind::PipePipe => Precedence::LogicalOr,
        TokenKind::AmpAmp => Precedence::LogicalAnd,
        TokenKind::EqEq | TokenKind::BangEq => Precedence::Equality,
        TokenKind::Lt | TokenKind::Gt | TokenKind::LtEq | TokenKind::GtEq => Precedence::Comparison,
        TokenKind::DotDot | TokenKind::DotDotDot => Precedence::Range,
        TokenKind::Plus | TokenKind::Minus => Precedence::Term,
        TokenKind::Star | TokenKind::Slash | TokenKind::Percent => Precedence::Factor,
        TokenKind::Dot | TokenKind::LeftBracket => Precedence::Call,
        _ => Precedence::Nothing,
    }
}

/// What binds one step tighter. Nothing binds tighter than a call.
pub open spec fn spec_tighter(precedence: Precedence) -> Precedence {
    match precedence {
        Precedence::Nothing => Precedence::Lowest,
        Precedence::Lowest => Precedence::Assignment,
        Precedence::Assignment => Precedence::LogicalOr,
        Precedence::LogicalOr => Precedence::LogicalAnd,
        Precedence::LogicalAnd => Precedence::Equality,
        Precedence::Equality => Precedence::Comparison,
        Precedence::Comparison => Precedence::Range,
        Precedence::Range => Precedence::Term,
        Precedence::Term => Precedence::Factor,
        Precedence::Factor => Precedence::Unary,
        Precedence::Unary => Precedence::Call,
        Precedence::Call => Precedence::Call,
    }
}

/// What binds one step tighter.
pub fn tighter(precedence: Precedence) -> (next: Precedence)
    ensures
        next == spec_tighter(precedence),
{
    match precedence {
        Precedence::Nothing => Precedence::Lowest,
        Precedence::Lowest => Precedence::Assignment,
        Precedence::Assignment => Precedence::LogicalOr,
        Precedence::LogicalOr => Precedence::LogicalAnd,
        Precedence::LogicalAnd => Precedence::Equality,
        Precedence::Equality => Precedence::Comparison,
        Precedence::Comparison => Precedence::Range,
        Precedence::Range => Precedence::Term,
        Precedence::Term => Precedence::Factor,
        Precedence::Factor => Precedence::Unary,
        Precedence::Unary => Precedence::Call,
        Precedence::Call => Precedence::Call,
    }
}

/// One step tighter is one step.
pub proof fn law_tighter_is_one_step(precedence: Precedence)
    ensures
        precedence != Precedence::Call ==> spec_tighter(precedence).spec_rank()
            == precedence.spec_rank() + 1,
{
}

/// The method that an operator calls.
pub open spec fn spec_operator_name(kind: TokenKind) -> Option<Seq<char>> {
    match kind {
        TokenKind::Plus => Some("+"@),
        TokenKind::Minus => Some("-"@),
        TokenKind::Star => Some("*"@),
        TokenKind::Slash => Some("/"@),
        TokenKind::Percent => Some("%"@),
        TokenKind::Lt => Some("<"@),
        TokenKind::Gt => Some(">"@),
        TokenKind::LtEq => Some("<="@),
        TokenKind::GtEq => Some(">="@),
        TokenKind::EqEq => Some("=="@),
        TokenKind::BangEq => Some("!="@),
        TokenKind::DotDot => Some(".."@),
        TokenKind::DotDotDot => Some("..."@),
        _ => None,
    }
}

/// The method that an operator calls.
pub fn operator_name(kind: TokenKind) -> (r: Option<&'static str>)
    ensures
        match r {
            Some(name) => spec_operator_name(kind) == Some(name@),
            None => spec_operator_name(kind) is None,
        },
{
    match kind {
        TokenKind::Plus => Some("+"),
        TokenKind::Minus => Some("-"),
        TokenKind::Star => Some("*"),
        TokenKind::Slash => Some("/"),
        TokenKind::Percent => Some("%"),
        TokenKind::Lt => Some("<"),
        TokenKind::Gt => Some(">"),
        TokenKind::LtEq => Some("<="),
        TokenKind::GtEq => Some(">="),
        TokenKind::EqEq => Some("=="),
        TokenKind::BangEq => Some("!="),
        TokenKind::DotDot => Some(".."),
        TokenKind::DotDotDot => Some("..."),
        _ => None,
    }
}

/// The signature that a call with so many arguments has: a name alone for none.
pub open spec fn spec_signature(name: Seq<char>, arity: nat) -> Seq<char> {
    if arity == 0 {
        name
    } else {
        arguments::signature_of(name, arity)
    }
}

/// The signature that a call with so many arguments has.
pub fn signature(name: &str, arity: usize) -> (text: String)
    ensures
        text@ == spec_signature(name@, arity as nat),
{
    if arity == 0 {
        return name.to_owned();
    }
    crate::corelib::arguments::signature_for(name, arity)
}

/// How long the placeholders of a signature are.
proof fn lemma_placeholders(count: nat)
    ensures
        count > 0 ==> arguments::placeholders(count).len() == 2 * count - 1,
        count == 0 ==> arguments::placeholders(count).len() == 0,
    decreases count,
{
    if count > 1 {
        lemma_placeholders((count - 1) as nat);
    }
}

/// A name called with different numbers of arguments is different methods.
pub proof fn law_signatures_tell_arities_apart(name: Seq<char>, a: nat, b: nat)
    requires
        a != b,
    ensures
        spec_signature(name, a) != spec_signature(name, b),
{
    lemma_placeholders(a);
    lemma_placeholders(b);
    assert(spec_signature(name, a).len() != spec_signature(name, b).len());
}

/// A line number, as far as one can be kept.
pub open spec fn spec_clamp_line(line: u32) -> u16 {
    if line > u16::MAX {
        u16::MAX
    } else {
        line as u16
    }
}

/// A line number, as far as one can be kept.
pub fn clamp_line(line: u32) -> (clamped: u16)
    ensures
        clamped == spec_clamp_line(line),
{
    if line > u16::MAX as u32 {
        u16::MAX
    } else {
        line as u16
    }
}

/// Whether a token is the last that is read.
pub open spec fn is_last(kind: TokenKind) -> bool {
    kind == TokenKind::Eof || kind == TokenKind::Error
}

/// A token as it was found.
pub open spec fn token_of(found: lexer::Lexed) -> Token {
    Token {
        kind: found.kind,
        start: found.start as usize,
        end: found.end as usize,
        line: found.line as u32,
    }
}

/// What is found next in a source.
#[verifier::opaque]
pub open spec fn found_next(bytes: Seq<u8>, s: LexState) -> lexer::Lexed {
    lexer::next_from(bytes, s)
}

/// The tokens of a source from a place on, up to its end or the first that is
/// none.
pub open spec fn tokens_from(bytes: Seq<u8>, s: LexState) -> Seq<Token>
    decreases bytes.len() - s.at,
{
    let found = found_next(bytes, s);
    if is_last(found.kind) || !(s.at < found.after.at <= bytes.len()) {
        seq![token_of(found)]
    } else {
        seq![token_of(found)] + tokens_from(bytes, found.after)
    }
}

/// Whether tokens end as those of a source do.
pub open spec fn well_ended(tokens: Seq<Token>) -> bool {
    tokens.len() > 0 && is_last(tokens.last().kind)
}

/// Whether tokens follow each other in a source: each covers whole characters,
/// none overlaps another or lies before it, and no line number falls.
pub open spec fn in_sequence(bytes: Seq<u8>, tokens: Seq<Token>) -> bool {
    &&& forall|i: int|
        0 <= i < tokens.len() ==> {
            &&& (#[trigger] tokens[i]).start <= tokens[i].end <= bytes.len()
            &&& is_char_boundary(bytes, tokens[i].start as int)
            &&& is_char_boundary(bytes, tokens[i].end as int)
        }
    &&& forall|i: int, j: int|
        0 <= i < j < tokens.len() ==> {
            &&& (#[trigger] tokens[i]).end <= (#[trigger] tokens[j]).start
            &&& tokens[i].line <= tokens[j].line
        }
}

/// The tokens of a source, up to its end or the first that is none.
pub fn tokenize(source: &str) -> (tokens: Vec<Token>)
    requires
        source.spec_bytes().len() <= MAX_SOURCE,
    ensures
        well_ended(tokens@),
        in_sequence(source.spec_bytes(), tokens@),
        tokens@ == tokens_from(source.spec_bytes(), lexer::starting(source.spec_bytes())),
{
    let ghost bytes = source.spec_bytes();
    let mut lexer = Lexer::new(source);
    let mut tokens: Vec<Token> = Vec::new();
    let ghost all = tokens_from(bytes, lexer@);
    proof {
        assert(tokens@ + tokens_from(bytes, lexer@) =~= all);
    }
    loop
        invariant_except_break
            lexer.wf(),
            lexer.bytes() == bytes,
            0 <= lexer@.at <= bytes.len(),
            all == tokens@ + tokens_from(bytes, lexer@),
            in_sequence(bytes, tokens@),
            forall|i: int|
                0 <= i < tokens@.len() ==> (#[trigger] tokens@[i]).end <= lexer@.at
                    && tokens@[i].line <= lexer@.line,
        ensures
            all == tokens@,
            in_sequence(bytes, tokens@),
            well_ended(tokens@),
        decreases bytes.len() - lexer@.at,
    {
        let ghost before = lexer@;
        let ghost earlier = tokens@;
        let token = lexer.next_token();
        tokens.push(token);
        proof {
            reveal(found_next);
            let found = found_next(bytes, before);
            assert(token_of(found) == token);
            assert(tokens@ =~= earlier + seq![token]);
            if !is_last(token.kind) {
                assert(earlier + (seq![token] + tokens_from(bytes, lexer@)) =~= tokens@
                    + tokens_from(bytes, lexer@));
            }
        }
        if token.kind == TokenKind::Eof || token.kind == TokenKind::Error {
            break;
        }
    }
    tokens
}

} // verus!
