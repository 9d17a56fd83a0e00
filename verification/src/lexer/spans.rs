//! Where tokens lie: in the order of the source, and between its characters.

use vstd::prelude::*;
use vstd::utf8::*;

use super::{LexState, Lexed, Run};

verus! {

/// Whether a place is between two characters, or at either end.
pub open spec fn edge(bytes: Seq<u8>, at: int) -> bool {
    0 <= at <= bytes.len() && is_char_boundary(bytes, at)
}

/// Whether a token lies behind a place and before the place after it, and no
/// line number falls.
pub open spec fn in_order(bytes: Seq<u8>, s: LexState, found: Lexed) -> bool {
    &&& s.at <= found.start <= found.end <= found.after.at <= bytes.len()
    &&& s.line <= found.line <= found.after.line
    &&& found.after.line - s.line <= found.after.at - s.at
}

/// Whether a token covers whole characters, and so does what is after it.
pub open spec fn whole(bytes: Seq<u8>, found: Lexed) -> bool {
    edge(bytes, found.start) && edge(bytes, found.end) && edge(bytes, found.after.at)
}

/// A character that is one byte long is followed by another character.
proof fn lemma_after_short(bytes: Seq<u8>, at: int)
    requires
        valid_utf8(bytes),
        0 <= at < bytes.len(),
        is_char_boundary(bytes, at),
        bytes[at] < 0x80,
    ensures
        is_char_boundary(bytes, at + 1),
    decreases bytes.len(),
{
    let first = length_of_first_scalar(bytes);
    if at == 0 {
        assert(is_leading_byte_width_1(bytes[0]));
        assert(first == 1);
        assert(is_char_boundary(pop_first_scalar(bytes), 0));
    } else {
        let rest = pop_first_scalar(bytes);
        assert(is_char_boundary(rest, at - first));
        assert(rest[at - first] == bytes[at]);
        lemma_after_short(rest, at - first);
        assert(is_char_boundary(rest, at + 1 - first));
    }
}

/// On either side of a byte that is a character of its own is an edge.
proof fn lemma_short(bytes: Seq<u8>, at: int)
    requires
        valid_utf8(bytes),
        0 <= at < bytes.len(),
        bytes[at] < 0x80,
    ensures
        edge(bytes, at),
        edge(bytes, at + 1),
{
    is_char_boundary_iff_not_is_continuation_byte(bytes, at);
    lemma_after_short(bytes, at);
}

/// The ends of the source are edges.
proof fn lemma_ends(bytes: Seq<u8>)
    requires
        valid_utf8(bytes),
    ensures
        edge(bytes, 0),
        edge(bytes, bytes.len() as int),
{
    is_char_boundary_start_end_of_seq(bytes);
}

/// Scanning starts at an edge.
pub proof fn lemma_start(bytes: Seq<u8>)
    requires
        valid_utf8(bytes),
    ensures
        edge(bytes, super::starting(bytes).at),
{
    lemma_ends(bytes);
    if super::starting(bytes).at == 3 {
        if bytes.len() > 3 {
            is_char_boundary_iff_not_is_continuation_byte(bytes, 3);
            is_char_boundary_iff_is_leading_byte(bytes, 0);
            assert(is_char_boundary(bytes, 0));
            let first = length_of_first_scalar(bytes);
            assert(is_leading_byte_width_3(bytes[0])) by {
                assert(bytes[0] == 0xef);
            }
            assert(first == 3);
            assert(is_char_boundary(pop_first_scalar(bytes), 0));
        }
    }
}

/// A run ends at an edge if it begins at one, and no earlier.
proof fn lemma_run(bytes: Seq<u8>, at: int, run: Run)
    requires
        valid_utf8(bytes),
        0 <= at <= bytes.len(),
        run != Run::Continued ==> edge(bytes, at),
    ensures
        at <= super::run_end(bytes, at, run),
        edge(bytes, super::run_end(bytes, at, run)),
    decreases bytes.len() - at,
{
    lemma_ends(bytes);
    if at < bytes.len() {
        if run.spec_takes(super::byte_at(bytes, at)) {
            if run != Run::Continued {
                lemma_short(bytes, at);
            }
            lemma_run(bytes, at + 1, run);
        } else {
            is_char_boundary_iff_not_is_continuation_byte(bytes, at);
        }
    }
}

/// A line ends at an edge.
proof fn lemma_line(bytes: Seq<u8>, at: int)
    requires
        valid_utf8(bytes),
        0 <= at <= bytes.len(),
    ensures
        at <= super::line_end(bytes, at),
        edge(bytes, super::line_end(bytes, at)),
    decreases bytes.len() - at,
{
    lemma_ends(bytes);
    if at < bytes.len() {
        if super::byte_at(bytes, at) != 0x0a {
            lemma_line(bytes, at + 1);
        } else {
            lemma_short(bytes, at);
        }
    }
}

/// A comment ends at an edge.
proof fn lemma_comment(bytes: Seq<u8>, at: int, line: int, depth: nat)
    requires
        valid_utf8(bytes),
        0 <= at <= bytes.len(),
        depth == 0 ==> edge(bytes, at),
    ensures
        edge(bytes, super::comment_end(bytes, at, line, depth).at),
    decreases bytes.len() - at,
{
    lemma_ends(bytes);
    if depth == 0 || at >= bytes.len() {
    } else if super::byte_at(bytes, at) == 0x2f && super::byte_at(bytes, at + 1) == 0x2a {
        lemma_comment(bytes, at + 2, line, depth + 1);
    } else if super::byte_at(bytes, at) == 0x2a && super::byte_at(bytes, at + 1) == 0x2f {
        lemma_short(bytes, at + 1);
        lemma_comment(bytes, at + 2, line, (depth - 1) as nat);
    } else if super::byte_at(bytes, at) == 0x0a {
        lemma_comment(bytes, at + 1, line + 1, depth);
    } else {
        lemma_comment(bytes, at + 1, line, depth);
    }
}

/// Whitespace and comments end at an edge, and a comment that does not end
/// begins at one.
proof fn lemma_blank(bytes: Seq<u8>, at: int, line: int)
    requires
        valid_utf8(bytes),
        edge(bytes, at),
    ensures
        edge(bytes, super::blank_end(bytes, at, line).at),
        super::blank_end(bytes, at, line).unclosed matches Some(begin) ==> {
            &&& edge(bytes, begin)
            &&& at <= begin <= super::blank_end(bytes, at, line).at
        },
    decreases bytes.len() - at,
{
    let c = super::byte_at(bytes, at);
    let next = super::byte_at(bytes, at + 1);
    if c == 0x20 || c == 0x0d || c == 0x09 {
        lemma_short(bytes, at);
        lemma_blank(bytes, at + 1, line);
    } else if c == 0x2f && next == 0x2f {
        lemma_line(bytes, at + 1);
        lemma_blank(bytes, super::line_end(bytes, at + 1), line);
    } else if c == 0x2f && next == 0x2a {
        super::lemma_comment_end(bytes, at + 2, line, 1);
        lemma_comment(bytes, at + 2, line, 1);
        let after = super::comment_end(bytes, at + 2, line, 1);
        if after.ok {
            lemma_blank(bytes, after.at, after.line);
        }
    }
}

/// A number ends at an edge, behind where it begins.
proof fn lemma_number(bytes: Seq<u8>, start: int)
    requires
        valid_utf8(bytes),
        0 <= start < bytes.len(),
        super::is_digit(bytes[start]),
    ensures
        start < super::number_end(bytes, start),
        edge(bytes, super::number_end(bytes, start)),
{
    lemma_short(bytes, start);
    let second = super::byte_at(bytes, start + 1);
    if super::byte_at(bytes, start) == 0x30 && (second == 0x78 || second == 0x58) {
        lemma_short(bytes, start + 1);
        lemma_run(bytes, start + 2, Run::HexDigits);
    } else {
        lemma_run(bytes, start + 1, Run::Digits);
        let point = super::run_end(bytes, start + 1, Run::Digits);
        if super::byte_at(bytes, point) == 0x2e && super::is_digit(
            super::byte_at(bytes, point + 1),
        ) {
            lemma_short(bytes, point);
            lemma_run(bytes, point + 1, Run::Digits);
        }
        let fraction = if super::byte_at(bytes, point) == 0x2e && super::is_digit(
            super::byte_at(bytes, point + 1),
        ) {
            super::run_end(bytes, point + 1, Run::Digits)
        } else {
            point
        };
        let sign = super::byte_at(bytes, fraction + 1);
        if super::byte_at(bytes, fraction) == 0x65 || super::byte_at(bytes, fraction) == 0x45 {
            let ahead = if sign == 0x2b || sign == 0x2d {
                fraction + 2
            } else {
                fraction + 1
            };
            if super::is_digit(super::byte_at(bytes, ahead)) {
                lemma_short(bytes, ahead);
                lemma_run(bytes, ahead, Run::Digits);
            }
        }
    }
}

/// The rest of a string literal lies in order, between characters.
proof fn lemma_string(bytes: Seq<u8>, start: int, contents: int, s: LexState)
    requires
        valid_utf8(bytes),
        edge(bytes, start),
        edge(bytes, contents),
        start <= contents <= s.at <= bytes.len(),
    ensures
        whole(bytes, super::string_rest(bytes, start, contents, s)),
        start <= super::string_rest(bytes, start, contents, s).start,
        in_order(
            bytes,
            LexState { at: start, line: s.line - (s.at - start), ..s },
            super::string_rest(bytes, start, contents, s),
        ),
        s.line <= super::string_rest(bytes, start, contents, s).line,
        super::string_rest(bytes, start, contents, s).after.line - s.line <= super::string_rest(
            bytes,
            start,
            contents,
            s,
        ).after.at - s.at,
    decreases bytes.len() - s.at,
{
    lemma_ends(bytes);
    let c = super::byte_at(bytes, s.at);
    if s.at >= bytes.len() {
    } else if c == 0x22 {
        lemma_short(bytes, s.at);
    } else if c == 0x5c {
        if s.at + 1 < bytes.len() {
            let line = if super::byte_at(bytes, s.at + 1) == 0x0a {
                s.line + 1
            } else {
                s.line
            };
            lemma_string(bytes, start, contents, LexState { at: s.at + 2, line, ..s });
        }
    } else if c == 0x25 && super::byte_at(bytes, s.at + 1) == 0x28 {
        lemma_short(bytes, s.at);
        lemma_short(bytes, s.at + 1);
    } else if c == 0x0a {
        lemma_string(bytes, start, contents, LexState { at: s.at + 1, line: s.line + 1, ..s });
    } else {
        lemma_string(bytes, start, contents, LexState { at: s.at + 1, ..s });
    }
}

/// The rest of a raw string literal lies in order, between characters.
proof fn lemma_raw(bytes: Seq<u8>, start: int, contents: int, s: LexState)
    requires
        valid_utf8(bytes),
        edge(bytes, start),
        edge(bytes, contents),
        start <= contents <= s.at <= bytes.len(),
    ensures
        whole(bytes, super::raw_rest(bytes, start, contents, s)),
        start <= super::raw_rest(bytes, start, contents, s).start,
        in_order(
            bytes,
            LexState { at: start, line: s.line - (s.at - start), ..s },
            super::raw_rest(bytes, start, contents, s),
        ),
        s.line <= super::raw_rest(bytes, start, contents, s).line,
        super::raw_rest(bytes, start, contents, s).after.line - s.line <= super::raw_rest(
            bytes,
            start,
            contents,
            s,
        ).after.at - s.at,
    decreases bytes.len() - s.at,
{
    lemma_ends(bytes);
    if s.at >= bytes.len() {
    } else if super::byte_at(bytes, s.at) == 0x22 && super::byte_at(bytes, s.at + 1) == 0x22
        && super::byte_at(bytes, s.at + 2) == 0x22 {
        lemma_short(bytes, s.at);
        lemma_short(bytes, s.at + 2);
    } else if super::byte_at(bytes, s.at) == 0x0a {
        lemma_raw(bytes, start, contents, LexState { at: s.at + 1, line: s.line + 1, ..s });
    } else {
        lemma_raw(bytes, start, contents, LexState { at: s.at + 1, ..s });
    }
}

/// The token at a byte that is not blank lies in order, between characters.
proof fn lemma_token(bytes: Seq<u8>, s: LexState)
    requires
        valid_utf8(bytes),
        edge(bytes, s.at),
        s.at < bytes.len(),
    ensures
        whole(bytes, super::token_at(bytes, s)),
        in_order(bytes, s, super::token_at(bytes, s)),
{
    let c = super::byte_at(bytes, s.at);
    if c < 0x80 {
        lemma_short(bytes, s.at);
    }
    if c == 0x0a {
    } else if c == 0x22 {
        if super::byte_at(bytes, s.at + 1) == 0x22 && super::byte_at(bytes, s.at + 2) == 0x22 {
            lemma_short(bytes, s.at + 2);
            lemma_raw(bytes, s.at, s.at + 3, LexState { at: s.at + 3, ..s });
        } else {
            lemma_string(bytes, s.at, s.at + 1, LexState { at: s.at + 1, ..s });
        }
    } else if c == 0x5f {
        if super::byte_at(bytes, s.at + 1) == 0x5f {
            lemma_short(bytes, s.at + 1);
            lemma_run(bytes, s.at + 2, Run::NameParts);
        } else {
            lemma_run(bytes, s.at + 1, Run::NameParts);
        }
    } else if super::is_digit(c) {
        lemma_number(bytes, s.at);
    } else if super::is_name_start(c) {
        lemma_run(bytes, s.at + 1, Run::NameParts);
    } else {
        match super::operator(bytes, s.at) {
            Some((_, len)) => {
                lemma_short(bytes, s.at + len - 1);
            },
            None => {
                lemma_run(bytes, s.at + 1, Run::Continued);
            },
        }
    }
}

/// A token lies behind where the lexer was and before where it is then, covers
/// whole characters, and its line is none before the lexer's.
pub proof fn law_token_is_in_order(bytes: Seq<u8>, s: LexState)
    requires
        valid_utf8(bytes),
        edge(bytes, s.at),
    ensures
        in_order(bytes, s, super::next_from(bytes, s)),
        whole(bytes, super::next_from(bytes, s)),
{
    super::lemma_blank_end(bytes, s.at, s.line);
    lemma_blank(bytes, s.at, s.line);
    let place = super::blank_end(bytes, s.at, s.line);
    if place.unclosed is None && place.at < bytes.len() {
        if s.open.len() > 0 && super::byte_at(bytes, place.at) == 0x29 && s.open.last() == 0 {
            lemma_short(bytes, place.at);
            lemma_string(
                bytes,
                place.at,
                place.at + 1,
                LexState { at: place.at + 1, line: place.line, open: s.open.drop_last() },
            );
        } else {
            lemma_token(
                bytes,
                LexState {
                    at: place.at,
                    line: place.line,
                    open: super::counted(s.open, super::byte_at(bytes, place.at)),
                },
            );
        }
    }
}

} // verus!
