//! What is written in a source, and which token it is.

use vstd::prelude::*;
use vstd::utf8::*;

use super::{LexState, Run, TokenKind};

verus! {

/// How a sign is written, for the tokens that are signs.
pub open spec fn sign(kind: TokenKind) -> Option<Seq<char>> {
    match kind {
        TokenKind::LeftParen => Some(seq!['(']),
        TokenKind::RightParen => Some(seq![')']),
        TokenKind::LeftBracket => Some(seq!['[']),
        TokenKind::RightBracket => Some(seq![']']),
        TokenKind::LeftBrace => Some(seq!['{']),
        TokenKind::RightBrace => Some(seq!['}']),
        TokenKind::Colon => Some(seq![':']),
        TokenKind::Comma => Some(seq![',']),
        TokenKind::Star => Some(seq!['*']),
        TokenKind::Percent => Some(seq!['%']),
        TokenKind::Hash => Some(seq!['#']),
        TokenKind::Caret => Some(seq!['^']),
        TokenKind::Plus => Some(seq!['+']),
        TokenKind::Minus => Some(seq!['-']),
        TokenKind::Tilde => Some(seq!['~']),
        TokenKind::Question => Some(seq!['?']),
        TokenKind::Slash => Some(seq!['/']),
        TokenKind::Dot => Some(seq!['.']),
        TokenKind::DotDot => Some(seq!['.', '.']),
        TokenKind::DotDotDot => Some(seq!['.', '.', '.']),
        TokenKind::Pipe => Some(seq!['|']),
        TokenKind::PipePipe => Some(seq!['|', '|']),
        TokenKind::Amp => Some(seq!['&']),
        TokenKind::AmpAmp => Some(seq!['&', '&']),
        TokenKind::Eq => Some(seq!['=']),
        TokenKind::EqEq => Some(seq!['=', '=']),
        TokenKind::Bang => Some(seq!['!']),
        TokenKind::BangEq => Some(seq!['!', '=']),
        TokenKind::Lt => Some(seq!['<']),
        TokenKind::LtEq => Some(seq!['<', '=']),
        TokenKind::LtLt => Some(seq!['<', '<']),
        TokenKind::Gt => Some(seq!['>']),
        TokenKind::GtEq => Some(seq!['>', '=']),
        TokenKind::GtGt => Some(seq!['>', '>']),
        _ => None,
    }
}

/// Whether a source reads so at a place.
pub open spec fn reads(bytes: Seq<u8>, at: int, text: Seq<char>) -> bool {
    &&& 0 <= at
    &&& at + text.len() <= bytes.len()
    &&& forall|i: int| 0 <= i < text.len() ==> #[trigger] text[i] as int == bytes[at + i]
}

/// A string that goes on is no sign.
proof fn lemma_string_is_no_sign(bytes: Seq<u8>, start: int, contents: int, s: LexState)
    requires
        0 <= s.at,
    ensures
        sign(super::string_rest(bytes, start, contents, s).kind) is None,
    decreases bytes.len() - s.at,
{
    let c = super::byte_at(bytes, s.at);
    if s.at < bytes.len() && c != 0x22 {
        if c == 0x5c {
            if s.at + 1 < bytes.len() {
                let line = if super::byte_at(bytes, s.at + 1) == 0x0a {
                    s.line + 1
                } else {
                    s.line
                };
                lemma_string_is_no_sign(
                    bytes,
                    start,
                    contents,
                    LexState { at: s.at + 2, line, ..s },
                );
            }
        } else if c == 0x25 && super::byte_at(bytes, s.at + 1) == 0x28 {
        } else if c == 0x0a {
            lemma_string_is_no_sign(
                bytes,
                start,
                contents,
                LexState { at: s.at + 1, line: s.line + 1, ..s },
            );
        } else {
            lemma_string_is_no_sign(bytes, start, contents, LexState { at: s.at + 1, ..s });
        }
    }
}

/// A string as it is written is no sign.
proof fn lemma_raw_is_no_sign(bytes: Seq<u8>, start: int, contents: int, s: LexState)
    requires
        0 <= s.at,
    ensures
        sign(super::raw_rest(bytes, start, contents, s).kind) is None,
    decreases bytes.len() - s.at,
{
    if s.at < bytes.len() && !(super::byte_at(bytes, s.at) == 0x22 && super::byte_at(
        bytes,
        s.at + 1,
    ) == 0x22 && super::byte_at(bytes, s.at + 2) == 0x22) {
        if super::byte_at(bytes, s.at) == 0x0a {
            lemma_raw_is_no_sign(
                bytes,
                start,
                contents,
                LexState { at: s.at + 1, line: s.line + 1, ..s },
            );
        } else {
            lemma_raw_is_no_sign(bytes, start, contents, LexState { at: s.at + 1, ..s });
        }
    }
}

/// A sign that was found is what is written there.
proof fn lemma_sign(bytes: Seq<u8>, at: int)
    requires
        0 <= at,
        super::operator(bytes, at) is Some,
    ensures
        ({
            let (kind, len) = super::operator(bytes, at)->0;
            &&& sign(kind) matches Some(text)
            &&& text.len() == len
            &&& reads(bytes, at, text)
        }),
{
    let (kind, len) = super::operator(bytes, at)->0;
    let text = sign(kind)->0;
    assert(sign(kind) is Some && text.len() == len && 1 <= len <= 3);
    assert(super::byte_at(bytes, at) == text[0] as int);
    if len > 1 {
        assert(super::byte_at(bytes, at + 1) == text[1] as int);
    }
    if len > 2 {
        assert(super::byte_at(bytes, at + 2) == text[2] as int);
    }
    assert forall|i: int| 0 <= i < text.len() implies #[trigger] text[i] as int == bytes[at
        + i] by {
        assert(i == 0 || i == 1 || i == 2);
    }
}

/// No longer sign is written where one was found.
proof fn lemma_no_longer_sign(bytes: Seq<u8>, at: int, other: TokenKind)
    requires
        0 <= at,
        super::operator(bytes, at) is Some,
        sign(other) is Some,
        sign(other)->0.len() > (super::operator(bytes, at)->0).1,
    ensures
        !reads(bytes, at, sign(other)->0),
{
    let longer = sign(other)->0;
    if reads(bytes, at, longer) {
        assert(longer[0] as int == bytes[at]);
        assert(longer[1] as int == bytes[at + 1]);
        if longer.len() > 2 {
            assert(longer[2] as int == bytes[at + 2]);
        }
        assert(super::byte_at(bytes, at) == bytes[at] && super::byte_at(bytes, at + 1)
            == bytes[at + 1]);
        assert(false);
    }
}

/// A token that is a sign covers the sign as it is written, and no longer sign
/// is written there.
pub proof fn law_signs_are_what_is_written(bytes: Seq<u8>, s: LexState, other: TokenKind)
    requires
        0 <= s.at <= bytes.len(),
    ensures
        ({
            let found = super::next_from(bytes, s);
            sign(found.kind) is Some ==> {
                &&& reads(bytes, found.start, sign(found.kind)->0)
                &&& found.end == found.start + sign(found.kind)->0.len()
                &&& found.after.at == found.end
                &&& sign(other) is Some && sign(other)->0.len() > sign(found.kind)->0.len()
                    ==> !reads(bytes, found.start, sign(other)->0)
            }
        }),
{
    let found = super::next_from(bytes, s);
    let place = super::blank_end(bytes, s.at, s.line);
    let here = LexState { at: place.at, line: place.line, open: s.open };
    super::lemma_blank_end(bytes, s.at, s.line);
    if place.unclosed is None && place.at < bytes.len() {
        if s.open.len() > 0 && super::byte_at(bytes, place.at) == 0x29 && s.open.last() == 0 {
            lemma_string_is_no_sign(
                bytes,
                place.at,
                place.at + 1,
                LexState { at: place.at + 1, line: place.line, open: s.open.drop_last() },
            );
        } else {
            let t = LexState {
                open: super::counted(s.open, super::byte_at(bytes, place.at)),
                ..here
            };
            lemma_string_is_no_sign(bytes, t.at, t.at + 1, LexState { at: t.at + 1, ..t });
            lemma_raw_is_no_sign(bytes, t.at, t.at + 3, LexState { at: t.at + 3, ..t });
            if super::operator(bytes, t.at) is Some {
                lemma_sign(bytes, t.at);
                let (kind, len) = super::operator(bytes, t.at)->0;
                if sign(other) is Some && sign(other)->0.len() > len {
                    lemma_no_longer_sign(bytes, t.at, other);
                }
            }
        }
    }
}

/// How a word of the language is written.
pub open spec fn reserved(kind: TokenKind) -> Option<Seq<char>> {
    match kind {
        TokenKind::As => Some("as"@),
        TokenKind::Break => Some("break"@),
        TokenKind::Class => Some("class"@),
        TokenKind::Construct => Some("construct"@),
        TokenKind::Continue => Some("continue"@),
        TokenKind::Else => Some("else"@),
        TokenKind::False => Some("false"@),
        TokenKind::For => Some("for"@),
        TokenKind::Foreign => Some("foreign"@),
        TokenKind::If => Some("if"@),
        TokenKind::Import => Some("import"@),
        TokenKind::In => Some("in"@),
        TokenKind::Is => Some("is"@),
        TokenKind::Null => Some("null"@),
        TokenKind::Return => Some("return"@),
        TokenKind::Static => Some("static"@),
        TokenKind::Super => Some("super"@),
        TokenKind::This => Some("this"@),
        TokenKind::True => Some("true"@),
        TokenKind::Var => Some("var"@),
        TokenKind::While => Some("while"@),
        _ => None,
    }
}

/// A word of the language is what is written so, and no name is.
pub proof fn law_reserved_words_are_what_is_written(text: Seq<u8>, other: TokenKind)
    ensures
        match super::spec_keyword(text) {
            Some(kind) => reserved(kind) matches Some(word) && text == encode_utf8(word),
            None => reserved(other) matches Some(word) ==> text != encode_utf8(word),
        },
{
}

/// Where a run of bytes ends: all before are taken, and the next is not.
proof fn lemma_run(bytes: Seq<u8>, at: int, run: Run)
    requires
        0 <= at,
    ensures
        ({
            let end = super::run_end(bytes, at, run);
            &&& at <= end
            &&& at <= bytes.len() ==> end <= bytes.len()
            &&& forall|i: int| at <= i < end ==> run.spec_takes(#[trigger] bytes[i])
            &&& end < bytes.len() ==> !run.spec_takes(bytes[end])
        }),
    decreases bytes.len() - at,
{
    if at < bytes.len() && run.spec_takes(super::byte_at(bytes, at)) {
        lemma_run(bytes, at + 1, run);
    }
}

/// A name is whole: it is letters, digits and underscores, and none follows. It
/// is no word of the language.
pub proof fn law_names_are_whole(bytes: Seq<u8>, s: LexState)
    requires
        0 <= s.at < bytes.len(),
        super::is_name_start(bytes[s.at]),
        bytes[s.at] != '_' as int,
    ensures
        ({
            let found = super::token_at(bytes, s);
            &&& found.start == s.at
            &&& found.start < found.end <= bytes.len()
            &&& forall|i: int|
                found.start <= i < found.end ==> super::is_name_part(#[trigger] bytes[i])
            &&& found.end < bytes.len() ==> !super::is_name_part(bytes[found.end])
            &&& found.kind == TokenKind::Name || reserved(found.kind) is Some
            &&& reserved(found.kind) matches Some(word) ==> bytes.subrange(
                found.start,
                found.end,
            ) == encode_utf8(word)
        }),
{
    lemma_run(bytes, s.at + 1, Run::NameParts);
    let found = super::token_at(bytes, s);
    law_reserved_words_are_what_is_written(
        bytes.subrange(found.start, found.end),
        TokenKind::Name,
    );
}

} // verus!
