//! Source text to tokens.
//!
//! A token is a kind, a span and a line number; the text is looked up in the
//! source and not copied. String literals are therefore not decoded here: a
//! token covers exactly what was written between the quotes.
//!
//! A newline is a token, because it separates statements.

pub mod spans;
pub mod token_laws;

use vstd::prelude::*;
use vstd::string::*;
use vstd::utf8::*;

use crate::corelib::strings::cut;
use crate::hex;

verus! {

/// How deeply `%( ... )` may nest inside string literals.
pub const MAX_INTERPOLATION_NESTING: usize = 8;

/// What a token is.
#[derive(Debug, Clone, Copy, PartialEq, Eq, Structural)]
pub enum TokenKind {
    LeftParen,
    RightParen,
    LeftBracket,
    RightBracket,
    LeftBrace,
    RightBrace,
    Colon,
    Dot,
    DotDot,
    DotDotDot,
    Comma,
    Star,
    Slash,
    Percent,
    Hash,
    Plus,
    Minus,
    LtLt,
    GtGt,
    Pipe,
    PipePipe,
    Caret,
    Amp,
    AmpAmp,
    Bang,
    Tilde,
    Question,
    Eq,
    Lt,
    Gt,
    LtEq,
    GtEq,
    EqEq,
    BangEq,
    Break,
    Continue,
    Class,
    Construct,
    Else,
    False,
    For,
    Foreign,
    If,
    Import,
    As,
    In,
    Is,
    Null,
    Return,
    Static,
    Super,
    This,
    True,
    Var,
    While,
    /// `_name`: an instance field.
    Field,
    /// `__name`: a static field of the class.
    StaticField,
    /// An identifier.
    Name,
    /// A numeric literal.
    Number,
    /// A string literal up to its end, undecoded.
    String,
    /// A string literal up to a `%(`. What follows is the expression, and the
    /// string resumes after the parenthesis that closes it.
    Interpolation,
    /// A statement separator.
    Line,
    /// Something that is no token.
    Error,
    Eof,
}

/// One token: what it is, where it came from, and which line it was on.
#[derive(Debug, Clone, Copy, PartialEq, Eq, Structural)]
pub struct Token {
    pub kind: TokenKind,
    /// Where the token begins in the source, in bytes.
    pub start: usize,
    /// Where it ends.
    pub end: usize,
    /// The line, counted from one.
    pub line: u32,
}

/// What is left of a text after a boundary has its boundaries in the same
/// places.
proof fn lemma_boundary_after(bytes: Seq<u8>, start: int, end: int)
    requires
        valid_utf8(bytes),
        0 <= start <= end,
        is_char_boundary(bytes, start),
        is_char_boundary(bytes, end),
    ensures
        start <= bytes.len(),
        is_char_boundary(bytes.subrange(start, bytes.len() as int), end - start),
    decreases bytes.len(),
{
    if start == 0 {
        assert(bytes.subrange(0, bytes.len() as int) =~= bytes);
    } else {
        let first = length_of_first_scalar(bytes);
        let rest = pop_first_scalar(bytes);
        assert(is_char_boundary(rest, start - first));
        assert(is_char_boundary(rest, end - first));
        lemma_boundary_after(rest, start - first, end - first);
        assert(rest.subrange(start - first, rest.len() as int) =~= bytes.subrange(
            start,
            bytes.len() as int,
        ));
    }
}

/// How a number is written.
#[derive(Debug, Clone, Copy, PartialEq, Eq, Structural)]
pub enum Numeral {
    /// In base sixteen; this is it.
    Whole(u64),
    /// In base ten.
    Decimal,
}

impl Token {
    /// The source text this token covers, given the source it came from.
    pub fn text<'a>(&self, source: &'a str) -> (text: &'a str)
        requires
            self.start <= self.end,
            is_char_boundary(source.spec_bytes(), self.start as int),
            is_char_boundary(source.spec_bytes(), self.end as int),
        ensures
            text.spec_bytes() == source.spec_bytes().subrange(self.start as int, self.end as int),
    {
        proof {
            encode_utf8_valid_utf8(source@);
            lemma_boundary_after(source.spec_bytes(), self.start as int, self.end as int);
            lemma_boundary_within(source.spec_bytes(), self.end as int);
        }
        let tail = source.split_at(self.start).1;
        let text = tail.split_at(self.end - self.start).0;
        proof {
            assert(text.spec_bytes() =~= source.spec_bytes().subrange(
                self.start as int,
                self.end as int,
            ));
        }
        text
    }

    /// Whether text is a number written in base sixteen, by how it begins.
    pub open spec fn is_hexadecimal(text: Seq<u8>) -> bool {
        text.len() >= 2 && text[0] == 0x30 && (text[1] == 0x78 || text[1] == 0x58)
    }

    /// How a number is written, and nothing for any other token.
    ///
    /// What a number in base ten is worth is for floating point to say.
    pub fn number(&self, source: &str) -> (r: Option<Numeral>)
        requires
            self.start <= self.end,
            is_char_boundary(source.spec_bytes(), self.start as int),
            is_char_boundary(source.spec_bytes(), self.end as int),
        ensures
            r == {
                let text = source.spec_bytes().subrange(self.start as int, self.end as int);
                if self.kind != TokenKind::Number {
                    None
                } else if Token::is_hexadecimal(text) {
                    match hex::written(text.skip(2)) {
                        Some(n) => Some(Numeral::Whole(n)),
                        None => None,
                    }
                } else {
                    Some(Numeral::Decimal)
                }
            },
    {
        if self.kind != TokenKind::Number {
            return None;
        }
        let bytes = self.text(source).as_bytes();
        if bytes.len() >= 2 && bytes[0] == 0x30 && (bytes[1] == 0x78 || bytes[1] == 0x58) {
            let digits = cut(bytes, 2, bytes.len());
            proof {
                assert(digits@ =~= bytes@.skip(2));
            }
            match hex::parse(digits.as_slice()) {
                Some(n) => Some(Numeral::Whole(n)),
                None => None,
            }
        } else {
            Some(Numeral::Decimal)
        }
    }
}

/// A boundary lies within the text.
proof fn lemma_boundary_within(bytes: Seq<u8>, at: int)
    requires
        valid_utf8(bytes),
        is_char_boundary(bytes, at),
    ensures
        0 <= at <= bytes.len(),
{
}

/// The byte at a position, or nothing where the source has ended.
pub open spec fn byte_at(bytes: Seq<u8>, at: int) -> u8 {
    if 0 <= at < bytes.len() {
        bytes[at]
    } else {
        0
    }
}

/// A decimal digit.
pub open spec fn is_digit(c: u8) -> bool {
    0x30 <= c <= 0x39
}

/// A hexadecimal digit.
pub open spec fn is_hex_digit(c: u8) -> bool {
    is_digit(c) || 0x41 <= c <= 0x46 || 0x61 <= c <= 0x66
}

/// What a name can begin with.
pub open spec fn is_name_start(c: u8) -> bool {
    0x41 <= c <= 0x5a || 0x61 <= c <= 0x7a || c == 0x5f
}

/// What a name can go on with.
pub open spec fn is_name_part(c: u8) -> bool {
    is_name_start(c) || is_digit(c)
}

/// The runs of bytes that tokens are made of.
#[derive(Clone, Copy, PartialEq, Eq, Structural, Debug)]
pub enum Run {
    Digits,
    HexDigits,
    NameParts,
    /// What a character goes on with behind its first byte.
    Continued,
}

impl Run {
    /// Whether a byte belongs to the run.
    pub open spec fn spec_takes(self, c: u8) -> bool {
        match self {
            Run::Digits => is_digit(c),
            Run::HexDigits => is_hex_digit(c),
            Run::NameParts => is_name_part(c),
            Run::Continued => 0x80 <= c <= 0xbf,
        }
    }

    /// Whether a byte belongs to the run.
    fn takes(self, c: u8) -> (r: bool)
        ensures
            r == self.spec_takes(c),
    {
        let digit: bool = 0x30 <= c && c <= 0x39;
        match self {
            Run::Digits => digit,
            Run::HexDigits => digit || (0x41 <= c && c <= 0x46) || (0x61 <= c && c <= 0x66),
            Run::NameParts => digit || (0x41 <= c && c <= 0x5a) || (0x61 <= c && c <= 0x7a) || c
                == 0x5f,
            Run::Continued => 0x80 <= c && c <= 0xbf,
        }
    }
}

/// Where a run of bytes ends.
pub open spec fn run_end(bytes: Seq<u8>, at: int, run: Run) -> int
    decreases bytes.len() - at,
{
    if at < bytes.len() && run.spec_takes(byte_at(bytes, at)) {
        run_end(bytes, at + 1, run)
    } else {
        at
    }
}

/// Where a line ends.
pub open spec fn line_end(bytes: Seq<u8>, at: int) -> int
    decreases bytes.len() - at,
{
    if at < bytes.len() && byte_at(bytes, at) != 0x0a {
        line_end(bytes, at + 1)
    } else {
        at
    }
}

/// A place in the source, and its line.
pub struct Place {
    pub at: int,
    pub line: int,
    /// Whether the text so far made sense.
    pub ok: bool,
}

/// Where a block comment ends, from a place within it and the number of
/// comments open there. Comments nest.
pub open spec fn comment_end(bytes: Seq<u8>, at: int, line: int, depth: nat) -> Place
    decreases bytes.len() - at,
{
    if depth == 0 {
        Place { at, line, ok: true }
    } else if at >= bytes.len() {
        Place { at, line, ok: false }
    } else if byte_at(bytes, at) == 0x2f && byte_at(bytes, at + 1) == 0x2a {
        comment_end(bytes, at + 2, line, depth + 1)
    } else if byte_at(bytes, at) == 0x2a && byte_at(bytes, at + 1) == 0x2f {
        comment_end(bytes, at + 2, line, (depth - 1) as nat)
    } else if byte_at(bytes, at) == 0x0a {
        comment_end(bytes, at + 1, line + 1, depth)
    } else {
        comment_end(bytes, at + 1, line, depth)
    }
}

/// A run ends no earlier than it begins, and within the source.
proof fn lemma_run_end(bytes: Seq<u8>, at: int, run: Run)
    requires
        0 <= at <= bytes.len(),
    ensures
        at <= run_end(bytes, at, run) <= bytes.len(),
    decreases bytes.len() - at,
{
    if at < bytes.len() && run.spec_takes(byte_at(bytes, at)) {
        lemma_run_end(bytes, at + 1, run);
    }
}

/// A line ends no earlier than it begins.
pub proof fn lemma_line_end(bytes: Seq<u8>, at: int)
    ensures
        at <= line_end(bytes, at),
        at <= bytes.len() ==> line_end(bytes, at) <= bytes.len(),
    decreases bytes.len() - at,
{
    if at < bytes.len() && byte_at(bytes, at) != 0x0a {
        lemma_line_end(bytes, at + 1);
    }
}

/// A comment ends no earlier than it begins, and adds no more lines than
/// bytes.
pub proof fn lemma_comment_end(bytes: Seq<u8>, at: int, line: int, depth: nat)
    ensures
        at <= comment_end(bytes, at, line, depth).at,
        0 <= at <= bytes.len() ==> comment_end(bytes, at, line, depth).at <= bytes.len(),
        line <= comment_end(bytes, at, line, depth).line,
        comment_end(bytes, at, line, depth).line - line <= comment_end(
            bytes,
            at,
            line,
            depth,
        ).at - at,
    decreases bytes.len() - at,
{
    if depth == 0 || at >= bytes.len() {
    } else if byte_at(bytes, at) == 0x2f && byte_at(bytes, at + 1) == 0x2a {
        lemma_comment_end(bytes, at + 2, line, depth + 1);
    } else if byte_at(bytes, at) == 0x2a && byte_at(bytes, at + 1) == 0x2f {
        lemma_comment_end(bytes, at + 2, line, (depth - 1) as nat);
    } else if byte_at(bytes, at) == 0x0a {
        lemma_comment_end(bytes, at + 1, line + 1, depth);
    } else {
        lemma_comment_end(bytes, at + 1, line, depth);
    }
}

/// Where whitespace and comments end, the line there, and where the comment
/// begins that does not end, if there is one.
pub struct Blank {
    pub at: int,
    pub line: int,
    pub unclosed: Option<int>,
}

/// Where whitespace and comments end. A newline is neither.
pub open spec fn blank_end(bytes: Seq<u8>, at: int, line: int) -> Blank
    decreases bytes.len() - at,
{
    let c = byte_at(bytes, at);
    let next = byte_at(bytes, at + 1);
    if c == 0x20 || c == 0x0d || c == 0x09 {
        blank_end(bytes, at + 1, line)
    } else if c == 0x2f && next == 0x2f {
        proof {
            lemma_line_end(bytes, at + 1);
        }
        blank_end(bytes, line_end(bytes, at + 1), line)
    } else if c == 0x2f && next == 0x2a {
        proof {
            lemma_comment_end(bytes, at + 2, line, 1);
        }
        let after = comment_end(bytes, at + 2, line, 1);
        if after.ok {
            blank_end(bytes, after.at, after.line)
        } else {
            Blank { at: after.at, line: after.line, unclosed: Some(at) }
        }
    } else {
        Blank { at, line, unclosed: None }
    }
}

/// Whitespace and comments end no earlier than they begin.
pub proof fn lemma_blank_end(bytes: Seq<u8>, at: int, line: int)
    requires
        0 <= at <= bytes.len(),
    ensures
        at <= blank_end(bytes, at, line).at <= bytes.len(),
        line <= blank_end(bytes, at, line).line,
        blank_end(bytes, at, line).line - line <= blank_end(bytes, at, line).at - at,
    decreases bytes.len() - at,
{
    let c = byte_at(bytes, at);
    let next = byte_at(bytes, at + 1);
    if c == 0x20 || c == 0x0d || c == 0x09 {
        lemma_blank_end(bytes, at + 1, line);
    } else if c == 0x2f && next == 0x2f {
        lemma_line_end(bytes, at + 1);
        lemma_blank_end(bytes, line_end(bytes, at + 1), line);
    } else if c == 0x2f && next == 0x2a {
        lemma_comment_end(bytes, at + 2, line, 1);
        let after = comment_end(bytes, at + 2, line, 1);
        if after.ok {
            lemma_blank_end(bytes, after.at, after.line);
        }
    }
}

/// Where a number that begins at `start` ends: hexadecimal digits after `0x`,
/// or digits, a fraction if a digit follows the dot, and an exponent if it has
/// digits.
pub open spec fn number_end(bytes: Seq<u8>, start: int) -> int {
    let second = byte_at(bytes, start + 1);
    if byte_at(bytes, start) == 0x30 && (second == 0x78 || second == 0x58) {
        run_end(bytes, start + 2, Run::HexDigits)
    } else {
        let whole = run_end(bytes, start + 1, Run::Digits);
        let fraction = if byte_at(bytes, whole) == 0x2e && is_digit(byte_at(bytes, whole + 1)) {
            run_end(bytes, whole + 1, Run::Digits)
        } else {
            whole
        };
        exponent_end(bytes, fraction)
    }
}

/// Where the exponent of a number ends, if there is one.
pub open spec fn exponent_end(bytes: Seq<u8>, at: int) -> int {
    let c = byte_at(bytes, at);
    let sign = byte_at(bytes, at + 1);
    let ahead = if sign == 0x2b || sign == 0x2d {
        at + 2
    } else {
        at + 1
    };
    if (c == 0x65 || c == 0x45) && is_digit(byte_at(bytes, ahead)) {
        run_end(bytes, ahead, Run::Digits)
    } else {
        at
    }
}

/// The keyword that a name is, if it is one.
pub open spec fn spec_keyword(text: Seq<u8>) -> Option<TokenKind> {
    if text == encode_utf8("as"@) {
        Some(TokenKind::As)
    } else if text == encode_utf8("break"@) {
        Some(TokenKind::Break)
    } else if text == encode_utf8("class"@) {
        Some(TokenKind::Class)
    } else if text == encode_utf8("construct"@) {
        Some(TokenKind::Construct)
    } else if text == encode_utf8("continue"@) {
        Some(TokenKind::Continue)
    } else if text == encode_utf8("else"@) {
        Some(TokenKind::Else)
    } else if text == encode_utf8("false"@) {
        Some(TokenKind::False)
    } else if text == encode_utf8("for"@) {
        Some(TokenKind::For)
    } else if text == encode_utf8("foreign"@) {
        Some(TokenKind::Foreign)
    } else if text == encode_utf8("if"@) {
        Some(TokenKind::If)
    } else if text == encode_utf8("import"@) {
        Some(TokenKind::Import)
    } else if text == encode_utf8("in"@) {
        Some(TokenKind::In)
    } else if text == encode_utf8("is"@) {
        Some(TokenKind::Is)
    } else if text == encode_utf8("null"@) {
        Some(TokenKind::Null)
    } else if text == encode_utf8("return"@) {
        Some(TokenKind::Return)
    } else if text == encode_utf8("static"@) {
        Some(TokenKind::Static)
    } else if text == encode_utf8("super"@) {
        Some(TokenKind::Super)
    } else if text == encode_utf8("this"@) {
        Some(TokenKind::This)
    } else if text == encode_utf8("true"@) {
        Some(TokenKind::True)
    } else if text == encode_utf8("var"@) {
        Some(TokenKind::Var)
    } else if text == encode_utf8("while"@) {
        Some(TokenKind::While)
    } else {
        None
    }
}

/// Where a lexer is: the byte it is at, the line, and for each `%(` that is
/// open the number of parentheses that are open inside it.
pub struct LexState {
    pub at: int,
    pub line: int,
    pub open: Seq<int>,
}

/// A token, and where the lexer is after it.
pub struct Lexed {
    pub kind: TokenKind,
    pub start: int,
    pub end: int,
    pub line: int,
    pub after: LexState,
}

/// A token that covers everything from `start` to where the lexer is.
pub open spec fn covering(kind: TokenKind, start: int, after: LexState) -> Lexed {
    Lexed { kind, start, end: after.at, line: after.line, after }
}

/// The rest of a string literal, up to its closing quote or to a `%(`. The
/// token covers what stands between; `start` is where an error would begin.
pub open spec fn string_rest(bytes: Seq<u8>, start: int, contents: int, s: LexState) -> Lexed
    decreases bytes.len() - s.at,
{
    let c = byte_at(bytes, s.at);
    if s.at >= bytes.len() {
        covering(TokenKind::Error, start, s)
    } else if c == 0x22 {
        Lexed {
            kind: TokenKind::String,
            start: contents,
            end: s.at,
            line: s.line,
            after: LexState { at: s.at + 1, ..s },
        }
    } else if c == 0x5c {
        if s.at + 1 >= bytes.len() {
            covering(TokenKind::Error, start, LexState { at: s.at + 1, ..s })
        } else {
            let line = if byte_at(bytes, s.at + 1) == 0x0a {
                s.line + 1
            } else {
                s.line
            };
            string_rest(bytes, start, contents, LexState { at: s.at + 2, line, ..s })
        }
    } else if c == 0x25 && byte_at(bytes, s.at + 1) == 0x28 {
        if s.open.len() >= MAX_INTERPOLATION_NESTING {
            covering(TokenKind::Error, start, LexState { at: s.at + 2, ..s })
        } else {
            Lexed {
                kind: TokenKind::Interpolation,
                start: contents,
                end: s.at,
                line: s.line,
                after: LexState { at: s.at + 2, line: s.line, open: s.open.push(0) },
            }
        }
    } else if c == 0x0a {
        string_rest(bytes, start, contents, LexState { at: s.at + 1, line: s.line + 1, ..s })
    } else {
        string_rest(bytes, start, contents, LexState { at: s.at + 1, ..s })
    }
}

/// The rest of a raw string literal, up to three quotes.
pub open spec fn raw_rest(bytes: Seq<u8>, start: int, contents: int, s: LexState) -> Lexed
    decreases bytes.len() - s.at,
{
    if s.at >= bytes.len() {
        covering(TokenKind::Error, start, s)
    } else if byte_at(bytes, s.at) == 0x22 && byte_at(bytes, s.at + 1) == 0x22 && byte_at(
        bytes,
        s.at + 2,
    ) == 0x22 {
        Lexed {
            kind: TokenKind::String,
            start: contents,
            end: s.at,
            line: s.line,
            after: LexState { at: s.at + 3, ..s },
        }
    } else if byte_at(bytes, s.at) == 0x0a {
        raw_rest(bytes, start, contents, LexState { at: s.at + 1, line: s.line + 1, ..s })
    } else {
        raw_rest(bytes, start, contents, LexState { at: s.at + 1, ..s })
    }
}

/// The kind of an operator that begins with a byte, and how many bytes it has.
pub open spec fn operator(bytes: Seq<u8>, at: int) -> Option<(TokenKind, int)> {
    let c = byte_at(bytes, at);
    let second = byte_at(bytes, at + 1);
    let third = byte_at(bytes, at + 2);
    if c == 0x28 {
        Some((TokenKind::LeftParen, 1))
    } else if c == 0x29 {
        Some((TokenKind::RightParen, 1))
    } else if c == 0x5b {
        Some((TokenKind::LeftBracket, 1))
    } else if c == 0x5d {
        Some((TokenKind::RightBracket, 1))
    } else if c == 0x7b {
        Some((TokenKind::LeftBrace, 1))
    } else if c == 0x7d {
        Some((TokenKind::RightBrace, 1))
    } else if c == 0x3a {
        Some((TokenKind::Colon, 1))
    } else if c == 0x2c {
        Some((TokenKind::Comma, 1))
    } else if c == 0x2a {
        Some((TokenKind::Star, 1))
    } else if c == 0x25 {
        Some((TokenKind::Percent, 1))
    } else if c == 0x23 {
        Some((TokenKind::Hash, 1))
    } else if c == 0x5e {
        Some((TokenKind::Caret, 1))
    } else if c == 0x2b {
        Some((TokenKind::Plus, 1))
    } else if c == 0x2d {
        Some((TokenKind::Minus, 1))
    } else if c == 0x7e {
        Some((TokenKind::Tilde, 1))
    } else if c == 0x3f {
        Some((TokenKind::Question, 1))
    } else if c == 0x2f {
        Some((TokenKind::Slash, 1))
    } else if c == 0x2e {
        if second != 0x2e {
            Some((TokenKind::Dot, 1))
        } else if third != 0x2e {
            Some((TokenKind::DotDot, 2))
        } else {
            Some((TokenKind::DotDotDot, 3))
        }
    } else if c == 0x7c {
        Some(if second == 0x7c { (TokenKind::PipePipe, 2) } else { (TokenKind::Pipe, 1) })
    } else if c == 0x26 {
        Some(if second == 0x26 { (TokenKind::AmpAmp, 2) } else { (TokenKind::Amp, 1) })
    } else if c == 0x3d {
        Some(if second == 0x3d { (TokenKind::EqEq, 2) } else { (TokenKind::Eq, 1) })
    } else if c == 0x21 {
        Some(if second == 0x3d { (TokenKind::BangEq, 2) } else { (TokenKind::Bang, 1) })
    } else if c == 0x3c {
        if second == 0x3c {
            Some((TokenKind::LtLt, 2))
        } else if second == 0x3d {
            Some((TokenKind::LtEq, 2))
        } else {
            Some((TokenKind::Lt, 1))
        }
    } else if c == 0x3e {
        if second == 0x3e {
            Some((TokenKind::GtGt, 2))
        } else if second == 0x3d {
            Some((TokenKind::GtEq, 2))
        } else {
            Some((TokenKind::Gt, 1))
        }
    } else {
        None
    }
}

/// The field or name that begins with an underscore.
pub open spec fn field_token(bytes: Seq<u8>, s: LexState) -> Lexed {
    let double = byte_at(bytes, s.at + 1) == 0x5f;
    let end = run_end(
        bytes,
        if double {
            s.at + 2
        } else {
            s.at + 1
        },
        Run::NameParts,
    );
    let kind = if end - s.at == 1 || (double && end - s.at == 2) {
        TokenKind::Name
    } else if double {
        TokenKind::StaticField
    } else {
        TokenKind::Field
    };
    covering(kind, s.at, LexState { at: end, ..s })
}

/// The token that begins at a byte which is not blank.
pub open spec fn token_at(bytes: Seq<u8>, s: LexState) -> Lexed {
    let c = byte_at(bytes, s.at);
    if c == 0x0a {
        Lexed {
            kind: TokenKind::Line,
            start: s.at,
            end: s.at + 1,
            line: s.line,
            after: LexState { at: s.at + 1, line: s.line + 1, ..s },
        }
    } else if c == 0x22 {
        if byte_at(bytes, s.at + 1) == 0x22 && byte_at(bytes, s.at + 2) == 0x22 {
            raw_rest(bytes, s.at, s.at + 3, LexState { at: s.at + 3, ..s })
        } else {
            string_rest(bytes, s.at, s.at + 1, LexState { at: s.at + 1, ..s })
        }
    } else if c == 0x5f {
        field_token(bytes, s)
    } else if is_digit(c) {
        covering(TokenKind::Number, s.at, LexState { at: number_end(bytes, s.at), ..s })
    } else if is_name_start(c) {
        let end = run_end(bytes, s.at + 1, Run::NameParts);
        covering(
            match spec_keyword(bytes.subrange(s.at, end)) {
                Some(kind) => kind,
                None => TokenKind::Name,
            },
            s.at,
            LexState { at: end, ..s },
        )
    } else {
        match operator(bytes, s.at) {
            Some((kind, len)) => covering(kind, s.at, LexState { at: s.at + len, ..s }),
            None => covering(
                TokenKind::Error,
                s.at,
                LexState { at: run_end(bytes, s.at + 1, Run::Continued), ..s },
            ),
        }
    }
}

/// The number of open parentheses after a byte inside an interpolation.
pub open spec fn counted(open: Seq<int>, c: u8) -> Seq<int> {
    if open.len() == 0 {
        open
    } else if c == 0x28 {
        open.drop_last().push(open.last() + 1)
    } else if c == 0x29 {
        open.drop_last().push(open.last() - 1)
    } else {
        open
    }
}

/// The next token from a place, and the place after it.
///
/// Inside an interpolation, the parenthesis that closes it is no token: the
/// string resumes there. A comment that does not end is an error, from where it
/// begins.
pub open spec fn next_from(bytes: Seq<u8>, s: LexState) -> Lexed {
    let place = blank_end(bytes, s.at, s.line);
    let here = LexState { at: place.at, line: place.line, open: s.open };
    if place.unclosed is Some {
        covering(TokenKind::Error, place.unclosed->0, here)
    } else if place.at >= bytes.len() {
        covering(TokenKind::Eof, place.at, here)
    } else if s.open.len() > 0 && byte_at(bytes, place.at) == 0x29 && s.open.last() == 0 {
        string_rest(
            bytes,
            place.at,
            place.at + 1,
            LexState { at: place.at + 1, line: place.line, open: s.open.drop_last() },
        )
    } else {
        token_at(
            bytes,
            LexState { open: counted(s.open, byte_at(bytes, place.at)), ..here },
        )
    }
}

/// Where scanning starts: after a byte order mark, if there is one.
pub open spec fn starting(bytes: Seq<u8>) -> LexState {
    LexState {
        at: if byte_at(bytes, 0) == 0xef && byte_at(bytes, 1) == 0xbb && byte_at(bytes, 2)
            == 0xbf {
            3
        } else {
            0
        },
        line: 1,
        open: Seq::empty(),
    }
}

/// Turns source into tokens, one at a time.
pub struct Lexer<'a> {
    source: &'a str,
    /// Where the next token starts.
    start: usize,
    /// Where scanning is now.
    current: usize,
    line: u32,
    /// One entry per `%(` that is open: how many parentheses are open in it.
    interpolation: Vec<u32>,
}

/// The longest source, in bytes: a line number has thirty-two bits.
pub const MAX_SOURCE: usize = 0xffff_fff0;

impl<'a> Lexer<'a> {
    /// The source, in bytes.
    pub closed spec fn bytes(&self) -> Seq<u8> {
        self.source.spec_bytes()
    }

    /// Where the lexer is.
    pub closed spec fn view(&self) -> LexState {
        LexState {
            at: self.current as int,
            line: self.line as int,
            open: self.interpolation@.map_values(|n: u32| n as int),
        }
    }

    /// What holds at every byte that is scanned.
    closed spec fn sound(&self) -> bool {
        &&& self.bytes().len() <= MAX_SOURCE
        &&& self.start <= self.current <= self.bytes().len()
        &&& 1 <= self.line <= self.current + 1
        &&& self.interpolation@.len() <= MAX_INTERPOLATION_NESTING
        &&& forall|i: int|
            0 <= i < self.interpolation@.len() ==> #[trigger] self.interpolation@[i]
                <= self.current
    }

    /// The lexer's invariant: between tokens, it is between characters.
    pub closed spec fn wf(&self) -> bool {
        self.sound() && is_char_boundary(self.bytes(), self.current as int)
    }

    /// Start lexing a source. A byte order mark in front is skipped.
    pub fn new(source: &'a str) -> (lexer: Lexer<'a>)
        requires
            source.spec_bytes().len() <= MAX_SOURCE,
        ensures
            lexer.wf(),
            lexer.bytes() == source.spec_bytes(),
            lexer@ == starting(source.spec_bytes()),
    {
        let bytes = source.as_bytes();
        let marked: bool = bytes.len() >= 3 && bytes[0] == 0xef && bytes[1] == 0xbb && bytes[2]
            == 0xbf;
        let skip: usize = if marked {
            3
        } else {
            0
        };
        let lexer = Lexer { source, start: skip, current: skip, line: 1, interpolation: Vec::new() };
        proof {
            encode_utf8_valid_utf8(source@);
            spans::lemma_start(source.spec_bytes());
            assert(lexer@.open =~= Seq::<int>::empty());
        }
        lexer
    }

    /// The byte where scanning is.
    fn peek(&self) -> (c: u8)
        requires
            self.sound(),
        ensures
            c == byte_at(self.bytes(), self.current as int),
    {
        self.byte(self.current)
    }

    /// The byte at a position.
    fn byte(&self, at: usize) -> (c: u8)
        ensures
            c == byte_at(self.bytes(), at as int),
    {
        let bytes = self.source.as_bytes();
        if at < bytes.len() {
            bytes[at]
        } else {
            0
        }
    }

    /// The length of the source.
    fn size(&self) -> (n: usize)
        ensures
            n == self.bytes().len(),
    {
        self.source.as_bytes().len()
    }

    /// Whether two lexers differ at most in where they are.
    spec fn moved(&self, before: &Lexer<'a>) -> bool {
        &&& self.source == before.source
        &&& self.start == before.start
        &&& self.line == before.line
        &&& self.interpolation == before.interpolation
    }

    /// Go past a run of bytes.
    fn skip_run(&mut self, run: Run)
        requires
            old(self).sound(),
        ensures
            final(self).sound(),
            final(self).moved(old(self)),
            final(self).current == run_end(old(self).bytes(), old(self).current as int, run),
            final(self).current >= old(self).current,
    {
        let ghost before = *self;
        proof {
            lemma_run_end(self.bytes(), self.current as int, run);
        }
        while self.current < self.size() && run.takes(self.peek())
            invariant
                self.sound(),
                self.moved(&before),
                before.current <= self.current,
                run_end(self.bytes(), self.current as int, run) == run_end(
                    before.bytes(),
                    before.current as int,
                    run,
                ),
            decreases self.bytes().len() - self.current,
        {
            self.current = self.current + 1;
        }
    }

    /// A token that covers what was scanned.
    fn make(&self, kind: TokenKind) -> (token: Token)
        ensures
            token == (Token { kind, start: self.start, end: self.current, line: self.line }),
    {
        Token { kind, start: self.start, end: self.current, line: self.line }
    }

    /// Whether a token is the one that a place gives, and the lexer where that
    /// leaves it.
    spec fn lexed(&self, before: &Lexer<'a>, token: Token, expected: Lexed) -> bool {
        &&& self.source == before.source
        &&& token_is(token, expected)
        &&& self@ == expected.after
        &&& before.current <= self.current
    }

    /// Go past a block comment; `false` if it does not end.
    fn skip_block_comment(&mut self) -> (r: bool)
        requires
            old(self).sound(),
            old(self).current + 2 <= old(self).bytes().len(),
        ensures
            final(self).sound(),
            final(self).source == old(self).source,
            final(self).interpolation == old(self).interpolation,
            old(self).current <= final(self).current,
            ({
                let place = comment_end(
                    old(self).bytes(),
                    old(self).current + 2,
                    old(self).line as int,
                    1,
                );
                final(self).current == place.at && final(self).line == place.line && r == place.ok
            }),
    {
        let ghost before = *self;
        self.current = self.current + 2;
        let mut depth: usize = 1;
        while depth > 0
            invariant
                before == *old(self),
                self.sound(),
                self.source == before.source,
                self.interpolation == before.interpolation,
                before.current <= self.current,
                depth <= self.current,
                comment_end(self.bytes(), self.current as int, self.line as int, depth as nat)
                    == comment_end(
                    before.bytes(),
                    before.current + 2,
                    before.line as int,
                    1,
                ),
            decreases self.bytes().len() - self.current, depth,
        {
            if self.current >= self.size() {
                return false;
            }
            let c: u8 = self.peek();
            let next: u8 = self.byte(self.current + 1);
            if c == 0x2f && next == 0x2a {
                self.current = self.current + 2;
                depth = depth + 1;
            } else if c == 0x2a && next == 0x2f {
                self.current = self.current + 2;
                depth = depth - 1;
            } else if c == 0x0a {
                self.line = self.line + 1;
                self.current = self.current + 1;
            } else {
                self.current = self.current + 1;
            }
        }
        true
    }

    /// Go past whitespace and comments, and say where a comment begins that does
    /// not end.
    fn skip_whitespace_and_comments(&mut self) -> (r: Option<usize>)
        requires
            old(self).sound(),
        ensures
            final(self).sound(),
            final(self).source == old(self).source,
            final(self).interpolation == old(self).interpolation,
            old(self).current <= final(self).current,
            ({
                let place = blank_end(
                    old(self).bytes(),
                    old(self).current as int,
                    old(self).line as int,
                );
                final(self).current == place.at && final(self).line == place.line && match r {
                    Some(at) => place.unclosed == Some(at as int) && old(self).current <= at
                        <= final(self).current,
                    None => place.unclosed is None,
                }
            }),
    {
        let ghost before = *self;
        loop
            invariant
                before == *old(self),
                self.sound(),
                self.source == before.source,
                self.interpolation == before.interpolation,
                before.current <= self.current,
                blank_end(self.bytes(), self.current as int, self.line as int) == blank_end(
                    before.bytes(),
                    before.current as int,
                    before.line as int,
                ),
            decreases self.bytes().len() - self.current,
        {
            let c: u8 = self.peek();
            let next: u8 = self.byte(self.current + 1);
            if c == 0x20 || c == 0x0d || c == 0x09 {
                self.current = self.current + 1;
            } else if c == 0x2f && next == 0x2f {
                self.current = self.current + 1;
                let ghost from = *self;
                proof {
                    lemma_line_end(self.bytes(), self.current as int);
                }
                while self.current < self.size() && self.peek() != 0x0a
                    invariant
                        self.sound(),
                        self.source == before.source,
                        self.interpolation == before.interpolation,
                        self.line == from.line,
                        from.current <= self.current,
                        line_end(self.bytes(), self.current as int) == line_end(
                            before.bytes(),
                            from.current as int,
                        ),
                    decreases self.bytes().len() - self.current,
                {
                    self.current = self.current + 1;
                }
            } else if c == 0x2f && next == 0x2a {
                proof {
                    lemma_comment_end(
                        self.bytes(),
                        self.current + 2,
                        self.line as int,
                        1,
                    );
                }
                let begin: usize = self.current;
                if !self.skip_block_comment() {
                    return Some(begin);
                }
            } else {
                return None;
            }
        }
    }

    /// Scan a number, from its first digit on.
    fn read_number(&mut self) -> (token: Token)
        requires
            old(self).sound(),
            old(self).current == old(self).start + 1,
            is_digit(byte_at(old(self).bytes(), old(self).start as int)),
        ensures
            final(self).sound(),
            final(self).moved(old(self)),
            old(self).current <= final(self).current,
            final(self).current == number_end(old(self).bytes(), old(self).start as int),
            token == (Token {
                kind: TokenKind::Number,
                start: old(self).start,
                end: final(self).current,
                line: old(self).line,
            }),
    {
        let first: u8 = self.byte(self.start);
        let second: u8 = self.peek();
        if first == 0x30 && (second == 0x78 || second == 0x58) {
            self.current = self.current + 1;
            self.skip_run(Run::HexDigits);
            return self.make(TokenKind::Number);
        }
        self.skip_run(Run::Digits);
        if self.peek() == 0x2e && Run::Digits.takes(self.byte(self.current + 1)) {
            self.current = self.current + 1;
            self.skip_run(Run::Digits);
        }
        if self.peek() == 0x65 || self.peek() == 0x45 {
            let mut ahead: usize = self.current + 1;
            let sign: u8 = self.byte(ahead);
            if sign == 0x2b || sign == 0x2d {
                ahead = ahead + 1;
            }
            if Run::Digits.takes(self.byte(ahead)) {
                self.current = ahead;
                self.skip_run(Run::Digits);
            }
        }
        self.make(TokenKind::Number)
    }

    /// Whether a stretch of the source is a word.
    fn is_word(&self, start: usize, end: usize, word: &str) -> (r: bool)
        requires
            start <= end <= self.bytes().len(),
        ensures
            r == (self.bytes().subrange(start as int, end as int) == word.spec_bytes()),
    {
        let bytes = self.source.as_bytes();
        let letters = word.as_bytes();
        if letters.len() != end - start {
            return false;
        }
        let mut i: usize = 0;
        while i < letters.len()
            invariant
                i <= letters@.len(),
                letters@ == word.spec_bytes(),
                bytes@ == self.bytes(),
                start <= end <= bytes@.len(),
                letters@.len() == end - start,
                forall|k: int| 0 <= k < i ==> #[trigger] letters@[k] == bytes@[start + k],
            decreases letters@.len() - i,
        {
            if bytes[start + i] != letters[i] {
                proof {
                    assert(bytes@.subrange(start as int, end as int)[i as int] == bytes@[start + i]);
                }
                return false;
            }
            i = i + 1;
        }
        proof {
            assert(bytes@.subrange(start as int, end as int) =~= letters@);
        }
        true
    }

    /// The keyword that a stretch of the source is, if it is one.
    fn keyword(&self, start: usize, end: usize) -> (r: Option<TokenKind>)
        requires
            start <= end <= self.bytes().len(),
        ensures
            r == spec_keyword(self.bytes().subrange(start as int, end as int)),
    {
        if self.is_word(start, end, "as") {
            return Some(TokenKind::As);
        }
        if self.is_word(start, end, "break") {
            return Some(TokenKind::Break);
        }
        if self.is_word(start, end, "class") {
            return Some(TokenKind::Class);
        }
        if self.is_word(start, end, "construct") {
            return Some(TokenKind::Construct);
        }
        if self.is_word(start, end, "continue") {
            return Some(TokenKind::Continue);
        }
        if self.is_word(start, end, "else") {
            return Some(TokenKind::Else);
        }
        if self.is_word(start, end, "false") {
            return Some(TokenKind::False);
        }
        if self.is_word(start, end, "for") {
            return Some(TokenKind::For);
        }
        if self.is_word(start, end, "foreign") {
            return Some(TokenKind::Foreign);
        }
        if self.is_word(start, end, "if") {
            return Some(TokenKind::If);
        }
        if self.is_word(start, end, "import") {
            return Some(TokenKind::Import);
        }
        if self.is_word(start, end, "in") {
            return Some(TokenKind::In);
        }
        if self.is_word(start, end, "is") {
            return Some(TokenKind::Is);
        }
        if self.is_word(start, end, "null") {
            return Some(TokenKind::Null);
        }
        if self.is_word(start, end, "return") {
            return Some(TokenKind::Return);
        }
        if self.is_word(start, end, "static") {
            return Some(TokenKind::Static);
        }
        if self.is_word(start, end, "super") {
            return Some(TokenKind::Super);
        }
        if self.is_word(start, end, "this") {
            return Some(TokenKind::This);
        }
        if self.is_word(start, end, "true") {
            return Some(TokenKind::True);
        }
        if self.is_word(start, end, "var") {
            return Some(TokenKind::Var);
        }
        if self.is_word(start, end, "while") {
            return Some(TokenKind::While);
        }
        None
    }

    /// The rest of a string literal: to its closing quote, or to a `%(`.
    ///
    /// The quote or parenthesis that it starts after is behind.
    fn read_string(&mut self) -> (token: Token)
        requires
            old(self).sound(),
        ensures
            final(self).sound(),
            final(self).lexed(
                old(self),
                token,
                string_rest(
                    old(self).bytes(),
                    old(self).start as int,
                    old(self).current as int,
                    old(self)@,
                ),
            ),
    {
        let ghost before = *self;
        let contents: usize = self.current;
        loop
            invariant
                before == *old(self),
                self.sound(),
                self.source == before.source,
                self.start == before.start,
                self.interpolation == before.interpolation,
                contents <= self.current,
                contents == before.current,
                string_rest(self.bytes(), self.start as int, contents as int, self@)
                    == string_rest(
                    before.bytes(),
                    before.start as int,
                    before.current as int,
                    before@,
                ),
            decreases self.bytes().len() - self.current,
        {
            let ghost here = self@;
            if self.current >= self.size() {
                return self.make(TokenKind::Error);
            }
            let c: u8 = self.peek();
            if c == 0x22 {
                let token = Token {
                    kind: TokenKind::String,
                    start: contents,
                    end: self.current,
                    line: self.line,
                };
                self.current = self.current + 1;
                proof {
                    assert(self@ == (LexState { at: here.at + 1, ..here }));
                }
                return token;
            } else if c == 0x5c {
                self.current = self.current + 1;
                if self.current >= self.size() {
                    proof {
                        assert(self@ == (LexState { at: here.at + 1, ..here }));
                    }
                    return self.make(TokenKind::Error);
                }
                if self.peek() == 0x0a {
                    self.line = self.line + 1;
                }
                self.current = self.current + 1;
                proof {
                    let line = if byte_at(self.bytes(), here.at + 1) == 0x0a {
                        here.line + 1
                    } else {
                        here.line
                    };
                    assert(self@ == (LexState { at: here.at + 2, line, ..here }));
                }
            } else if c == 0x25 && self.byte(self.current + 1) == 0x28 {
                let end: usize = self.current;
                self.current = self.current + 2;
                if self.interpolation.len() >= MAX_INTERPOLATION_NESTING {
                    proof {
                        assert(self@ == (LexState { at: here.at + 2, ..here }));
                    }
                    return self.make(TokenKind::Error);
                }
                self.interpolation.push(0);
                proof {
                    assert(self@.open =~= here.open.push(0));
                }
                return Token {
                    kind: TokenKind::Interpolation,
                    start: contents,
                    end,
                    line: self.line,
                };
            } else if c == 0x0a {
                self.line = self.line + 1;
                self.current = self.current + 1;
                proof {
                    assert(self@ == (LexState { at: here.at + 1, line: here.line + 1, ..here }));
                }
            } else {
                self.current = self.current + 1;
                proof {
                    assert(self@ == (LexState { at: here.at + 1, ..here }));
                }
            }
        }
    }

    /// The rest of a raw string literal, to its three closing quotes.
    fn read_raw_string(&mut self) -> (token: Token)
        requires
            old(self).sound(),
        ensures
            final(self).sound(),
            final(self).lexed(
                old(self),
                token,
                raw_rest(
                    old(self).bytes(),
                    old(self).start as int,
                    old(self).current as int,
                    old(self)@,
                ),
            ),
    {
        let ghost before = *self;
        let contents: usize = self.current;
        loop
            invariant
                before == *old(self),
                self.sound(),
                self.source == before.source,
                self.start == before.start,
                self.interpolation == before.interpolation,
                contents <= self.current,
                contents == before.current,
                raw_rest(self.bytes(), self.start as int, contents as int, self@) == raw_rest(
                    before.bytes(),
                    before.start as int,
                    before.current as int,
                    before@,
                ),
            decreases self.bytes().len() - self.current,
        {
            let ghost here = self@;
            if self.current >= self.size() {
                return self.make(TokenKind::Error);
            }
            if self.peek() == 0x22 && self.byte(self.current + 1) == 0x22 && self.byte(
                self.current + 2,
            ) == 0x22 {
                let end: usize = self.current;
                self.current = self.current + 3;
                proof {
                    assert(self@ == (LexState { at: here.at + 3, ..here }));
                }
                return Token { kind: TokenKind::String, start: contents, end, line: self.line };
            }
            if self.peek() == 0x0a {
                self.line = self.line + 1;
                self.current = self.current + 1;
                proof {
                    assert(self@ == (LexState { at: here.at + 1, line: here.line + 1, ..here }));
                }
            } else {
                self.current = self.current + 1;
                proof {
                    assert(self@ == (LexState { at: here.at + 1, ..here }));
                }
            }
        }
    }

    /// The kind of the operator that scanning is at, and how many bytes it has.
    fn read_operator(&self) -> (r: Option<(TokenKind, usize)>)
        requires
            self.sound(),
            self.current < self.bytes().len(),
        ensures
            match r {
                Some((kind, len)) => {
                    &&& operator(self.bytes(), self.current as int) == Some((kind, len as int))
                    &&& 1 <= len <= 3
                    &&& self.current + len <= self.bytes().len()
                },
                None => operator(self.bytes(), self.current as int) is None,
            },
    {
        let c: u8 = self.peek();
        let second: u8 = self.byte(self.current + 1);
        let third: u8 = self.byte(self.current + 2);
        match c {
            0x28 => Some((TokenKind::LeftParen, 1)),
            0x29 => Some((TokenKind::RightParen, 1)),
            0x5b => Some((TokenKind::LeftBracket, 1)),
            0x5d => Some((TokenKind::RightBracket, 1)),
            0x7b => Some((TokenKind::LeftBrace, 1)),
            0x7d => Some((TokenKind::RightBrace, 1)),
            0x3a => Some((TokenKind::Colon, 1)),
            0x2c => Some((TokenKind::Comma, 1)),
            0x2a => Some((TokenKind::Star, 1)),
            0x25 => Some((TokenKind::Percent, 1)),
            0x23 => Some((TokenKind::Hash, 1)),
            0x5e => Some((TokenKind::Caret, 1)),
            0x2b => Some((TokenKind::Plus, 1)),
            0x2d => Some((TokenKind::Minus, 1)),
            0x7e => Some((TokenKind::Tilde, 1)),
            0x3f => Some((TokenKind::Question, 1)),
            0x2f => Some((TokenKind::Slash, 1)),
            0x2e => if second != 0x2e {
                Some((TokenKind::Dot, 1))
            } else if third != 0x2e {
                Some((TokenKind::DotDot, 2))
            } else {
                Some((TokenKind::DotDotDot, 3))
            },
            0x7c => if second == 0x7c {
                Some((TokenKind::PipePipe, 2))
            } else {
                Some((TokenKind::Pipe, 1))
            },
            0x26 => if second == 0x26 {
                Some((TokenKind::AmpAmp, 2))
            } else {
                Some((TokenKind::Amp, 1))
            },
            0x3d => if second == 0x3d {
                Some((TokenKind::EqEq, 2))
            } else {
                Some((TokenKind::Eq, 1))
            },
            0x21 => if second == 0x3d {
                Some((TokenKind::BangEq, 2))
            } else {
                Some((TokenKind::Bang, 1))
            },
            0x3c => if second == 0x3c {
                Some((TokenKind::LtLt, 2))
            } else if second == 0x3d {
                Some((TokenKind::LtEq, 2))
            } else {
                Some((TokenKind::Lt, 1))
            },
            0x3e => if second == 0x3e {
                Some((TokenKind::GtGt, 2))
            } else if second == 0x3d {
                Some((TokenKind::GtEq, 2))
            } else {
                Some((TokenKind::Gt, 1))
            },
            _ => None,
        }
    }

    /// The token at a byte that is not blank.
    fn read_token(&mut self) -> (token: Token)
        requires
            old(self).sound(),
            old(self).start == old(self).current,
            old(self).current < old(self).bytes().len(),
        ensures
            final(self).sound(),
            final(self).lexed(old(self), token, token_at(old(self).bytes(), old(self)@)),
            old(self).current < final(self).current,
    {
        let ghost here = self@;
        let c: u8 = self.peek();
        if c == 0x0a {
            self.current = self.current + 1;
            let token = self.make(TokenKind::Line);
            self.line = self.line + 1;
            proof {
                assert(self@ == (LexState { at: here.at + 1, line: here.line + 1, ..here }));
            }
            return token;
        }
        if c == 0x22 {
            if self.byte(self.current + 1) == 0x22 && self.byte(self.current + 2) == 0x22 {
                self.current = self.current + 3;
                proof {
                    assert(self@ == (LexState { at: here.at + 3, ..here }));
                }
                return self.read_raw_string();
            }
            self.current = self.current + 1;
            proof {
                assert(self@ == (LexState { at: here.at + 1, ..here }));
            }
            return self.read_string();
        }
        if c == 0x5f {
            let double: bool = self.byte(self.current + 1) == 0x5f;
            self.current = if double {
                self.current + 2
            } else {
                self.current + 1
            };
            self.skip_run(Run::NameParts);
            proof {
                assert(self@ == (LexState { at: self.current as int, ..here }));
            }
            let len: usize = self.current - self.start;
            if len == 1 || (double && len == 2) {
                return self.make(TokenKind::Name);
            }
            return self.make(
                if double {
                    TokenKind::StaticField
                } else {
                    TokenKind::Field
                },
            );
        }
        if Run::Digits.takes(c) {
            self.current = self.current + 1;
            let token = self.read_number();
            proof {
                assert(self@ == (LexState { at: self.current as int, ..here }));
            }
            return token;
        }
        if Run::NameParts.takes(c) {
            self.current = self.current + 1;
            self.skip_run(Run::NameParts);
            proof {
                assert(self@ == (LexState { at: self.current as int, ..here }));
            }
            return match self.keyword(self.start, self.current) {
                Some(kind) => self.make(kind),
                None => self.make(TokenKind::Name),
            };
        }
        match self.read_operator() {
            Some((kind, len)) => {
                self.current = self.current + len;
                proof {
                    assert(self@ == (LexState { at: self.current as int, ..here }));
                }
                self.make(kind)
            },
            None => {
                self.current = self.current + 1;
                self.skip_run(Run::Continued);
                proof {
                    assert(self@ == (LexState { at: self.current as int, ..here }));
                }
                self.make(TokenKind::Error)
            },
        }
    }

    /// The next token. Once the source has run out, it is `Eof` for ever.
    pub fn next_token(&mut self) -> (token: Token)
        requires
            old(self).wf(),
        ensures
            final(self).wf(),
            final(self).bytes() == old(self).bytes(),
            token_is(token, next_from(old(self).bytes(), old(self)@)),
            final(self)@ == next_from(old(self).bytes(), old(self)@).after,
            old(self)@.at <= final(self)@.at <= old(self).bytes().len(),
            token.kind != TokenKind::Eof && token.kind != TokenKind::Error ==> old(self)@.at
                < final(self)@.at,
            old(self)@.at <= token.start <= token.end <= final(self)@.at,
            old(self)@.line <= token.line <= final(self)@.line,
            is_char_boundary(old(self).bytes(), token.start as int),
            is_char_boundary(old(self).bytes(), token.end as int),
    {
        let ghost before = *self;
        proof {
            encode_utf8_valid_utf8(self.source@);
            spans::law_token_is_in_order(self.bytes(), self@);
            lemma_blank_end(self.bytes(), self.current as int, self.line as int);
        }
        match self.skip_whitespace_and_comments() {
            Some(begin) => {
                self.start = begin;
                return self.make(TokenKind::Error);
            },
            None => {},
        }
        self.start = self.current;
        if self.current >= self.size() {
            return self.make(TokenKind::Eof);
        }
        let ghost here = *self;
        let c: u8 = self.peek();
        let depth: usize = self.interpolation.len();
        if depth > 0 {
            let open: u32 = self.interpolation[depth - 1];
            if c == 0x28 {
                self.interpolation.set(depth - 1, open + 1);
                proof {
                    assert(self@.open =~= counted(before@.open, c));
                }
                self.current = self.current + 1;
                return self.make(TokenKind::LeftParen);
            } else if c == 0x29 {
                if open == 0 {
                    let _ = self.interpolation.pop();
                    self.current = self.current + 1;
                    proof {
                        assert(self@.open =~= before@.open.drop_last());
                    }
                    return self.read_string();
                }
                self.interpolation.set(depth - 1, open - 1);
                proof {
                    assert(self@.open =~= counted(before@.open, c));
                }
            }
        }
        proof {
            assert(self@.open =~= counted(before@.open, c));
        }
        self.read_token()
    }
}

/// Whether a token is the one that was expected.
pub open spec fn token_is(token: Token, expected: Lexed) -> bool {
    &&& token.kind == expected.kind
    &&& token.start == expected.start
    &&& token.end == expected.end
    &&& token.line == expected.line
}

/// Once the source has run out it has run out: the lexer stays at the end, and
/// the next token is the same.
pub proof fn law_end_is_for_ever(bytes: Seq<u8>, s: LexState)
    requires
        0 <= s.at <= bytes.len(),
        next_from(bytes, s).kind == TokenKind::Eof,
    ensures
        next_from(bytes, next_from(bytes, s).after).kind == TokenKind::Eof,
        next_from(bytes, next_from(bytes, s).after).after == next_from(bytes, s).after,
{
    lemma_blank_end(bytes, s.at, s.line);
    let place = blank_end(bytes, s.at, s.line);
    lemma_not_eof(bytes, s);
    assert(place.at >= bytes.len());
    assert(byte_at(bytes, place.at) == 0);
}

/// Only the end of the source is an `Eof`.
proof fn lemma_not_eof(bytes: Seq<u8>, s: LexState)
    requires
        0 <= s.at <= bytes.len(),
        next_from(bytes, s).kind == TokenKind::Eof,
    ensures
        blank_end(bytes, s.at, s.line).unclosed is None,
        blank_end(bytes, s.at, s.line).at >= bytes.len(),
{
    let place = blank_end(bytes, s.at, s.line);
    if place.unclosed is None && place.at < bytes.len() {
        let here = LexState {
            at: place.at,
            line: place.line,
            open: counted(s.open, byte_at(bytes, place.at)),
        };
        if s.open.len() > 0 && byte_at(bytes, place.at) == 0x29 && s.open.last() == 0 {
            lemma_string_kind(
                bytes,
                place.at,
                place.at + 1,
                LexState { at: place.at + 1, line: place.line, open: s.open.drop_last() },
            );
        } else if byte_at(bytes, place.at) == 0x22 {
            lemma_string_kind(bytes, place.at, place.at + 1, LexState { at: place.at + 1, ..here });
            lemma_raw_kind(bytes, place.at, place.at + 3, LexState { at: place.at + 3, ..here });
        }
    }
}

/// A string literal is a string, an interpolation or an error.
proof fn lemma_string_kind(bytes: Seq<u8>, start: int, contents: int, s: LexState)
    ensures
        string_rest(bytes, start, contents, s).kind != TokenKind::Eof,
    decreases bytes.len() - s.at,
{
    let c = byte_at(bytes, s.at);
    if s.at < bytes.len() && c != 0x22 {
        if s.at + 1 < bytes.len() {
            lemma_string_kind(bytes, start, contents, LexState { at: s.at + 2, ..s });
            lemma_string_kind(
                bytes,
                start,
                contents,
                LexState { at: s.at + 2, line: s.line + 1, ..s },
            );
        }
        lemma_string_kind(bytes, start, contents, LexState { at: s.at + 1, ..s });
        lemma_string_kind(
            bytes,
            start,
            contents,
            LexState { at: s.at + 1, line: s.line + 1, ..s },
        );
    }
}

/// A raw string literal is a string or an error.
proof fn lemma_raw_kind(bytes: Seq<u8>, start: int, contents: int, s: LexState)
    ensures
        raw_rest(bytes, start, contents, s).kind != TokenKind::Eof,
    decreases bytes.len() - s.at,
{
    if s.at < bytes.len() {
        lemma_raw_kind(bytes, start, contents, LexState { at: s.at + 1, ..s });
        lemma_raw_kind(bytes, start, contents, LexState { at: s.at + 1, line: s.line + 1, ..s });
    }
}

} // verus!
