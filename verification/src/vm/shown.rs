//! How values are shown.
//!
//! Everything but the digits of a number is decided here: a shown value is a
//! run of pieces, each of them text or a number to be written out.

use vstd::prelude::*;
use vstd::string::*;
use vstd::utf8::*;

use super::Vm;
use crate::number::{is_infinite, is_nan};
use crate::object::ObjectType;
use crate::text::{push_char, push_decimal};
use crate::value::Value;

verus! {

/// What bytes show as where they are not all text.
pub uninterp spec fn lossy_text(bytes: Seq<u8>) -> Seq<char>;

/// `String::from_utf8_lossy`: the bytes as text, with a replacement character
/// for whatever is not. Bytes that are text come out as that text.
#[verifier::external_body]
pub(crate) fn lossy(bytes: &[u8]) -> (text: String)
    ensures
        text@ == lossy_text(bytes@),
        valid_utf8(bytes@) ==> text@ == decode_utf8(bytes@),
{
    String::from_utf8_lossy(bytes).into_owned()
}

/// A piece of a shown value.
pub enum Piece {
    /// Text, as it is.
    Text(String),
    /// A number, by its bits.
    Number(u64),
}

/// What a piece holds.
pub enum PieceModel {
    Text(Seq<char>),
    Number(u64),
}

impl Piece {
    /// What the piece holds.
    pub open spec fn model(&self) -> PieceModel {
        match self {
            Piece::Text(text) => PieceModel::Text(text@),
            Piece::Number(bits) => PieceModel::Number(*bits),
        }
    }
}

/// What a run of pieces holds.
pub open spec fn pieces(list: Seq<Piece>) -> Seq<PieceModel> {
    list.map_values(|piece: Piece| piece.model())
}

/// One piece of text.
pub open spec fn said(text: Seq<char>) -> Seq<PieceModel> {
    seq![PieceModel::Text(text)]
}

/// Add text to a run of pieces.
fn say(out: &mut Vec<Piece>, text: String)
    ensures
        pieces(final(out)@) == pieces(old(out)@) + said(text@),
{
    let ghost before = pieces(out@);
    out.push(Piece::Text(text));
    proof {
        assert(pieces(out@) =~= before + said(text@));
    }
}

/// Add a number to a run of pieces.
fn say_number(out: &mut Vec<Piece>, bits: u64)
    ensures
        pieces(final(out)@) == pieces(old(out)@).push(PieceModel::Number(bits)),
{
    let ghost before = pieces(out@);
    out.push(Piece::Number(bits));
    proof {
        assert(pieces(out@) =~= before.push(PieceModel::Number(bits)));
    }
}

impl Vm {
    /// How a value is shown, if nothing in it is nested deeper than the limit.
    pub open spec fn spec_shown(&self, value: Value, depth: nat) -> Option<Seq<PieceModel>>
        decreases depth, 0nat,
    {
        if value.spec_is_num() {
            Some(seq![PieceModel::Number(value.0)])
        } else if value == Value::null() {
            Some(said("null"@))
        } else if value == Value::bool(true) {
            Some(said("true"@))
        } else if value == Value::bool(false) {
            Some(said("false"@))
        } else {
            match value.spec_as_object() {
                None => Some(said("<invalid>"@)),
                Some(id) => if !self.heap@.has(id) {
                    Some(said("<collected>"@))
                } else {
                    match ObjectType::spec_from_tag(id.spec_tag()) {
                        Some(ObjectType::String) => Some(
                            said(lossy_text(self.heap@.string(id)->0.bytes@)),
                        ),
                        Some(ObjectType::Range) => {
                            let range = self.heap@.range(id)->0;
                            Some(
                                seq![PieceModel::Number(range.from)] + said(
                                    if range.is_inclusive {
                                        ".."@
                                    } else {
                                        "..."@
                                    },
                                ) + seq![PieceModel::Number(range.to)],
                            )
                        },
                        Some(ObjectType::List) => if depth == 0 {
                            None
                        } else {
                            match self.spec_shown_elements(
                                self.heap@.list(id)->0.elements@,
                                (depth - 1) as nat,
                            ) {
                                Some(inner) => Some(said("["@) + inner + said("]"@)),
                                None => None,
                            }
                        },
                        Some(ObjectType::MapObject) => if depth == 0 {
                            None
                        } else {
                            match self.spec_shown_entries(
                                self.heap@.map(id)->0.entries@,
                                (depth - 1) as nat,
                            ) {
                                Some(inner) => Some(said("{"@) + inner + said("}"@)),
                                None => None,
                            }
                        },
                        Some(ObjectType::Class) => Some(
                            said(
                                match self.heap@.string(self.heap@.class(id)->0.name) {
                                    Some(name) => super::lookup::text_or(name.bytes@, "<class>"@),
                                    None => "<class>"@,
                                },
                            ),
                        ),
                        Some(ObjectType::Instance) => Some(
                            said(
                                "instance of "@ + self.spec_class_name(
                                    self.heap@.instance(id)->0.class,
                                ),
                            ),
                        ),
                        Some(ObjectType::Fn) => Some(said("<fn>"@)),
                        Some(ObjectType::Closure) => Some(said("<fn>"@)),
                        Some(ObjectType::Fiber) => Some(said("<fiber>"@)),
                        Some(ObjectType::Upvalue) => Some(said("<upvalue>"@)),
                        None => Some(said("<collected>"@)),
                    }
                },
            }
        }
    }

    /// How values are shown, with commas between them.
    pub open spec fn spec_shown_elements(&self, values: Seq<Value>, depth: nat) -> Option<
        Seq<PieceModel>,
    >
        decreases depth, values.len() + 1,
    {
        if values.len() == 0 {
            Some(Seq::empty())
        } else {
            match (
                self.spec_shown_elements(values.drop_last(), depth),
                self.spec_shown(values.last(), depth),
            ) {
                (Some(front), Some(last)) => Some(
                    if values.len() == 1 {
                        last
                    } else {
                        front + said(", "@) + last
                    },
                ),
                _ => None,
            }
        }
    }

    /// How the entries of a map are shown, with commas between them.
    pub open spec fn spec_shown_entries(
        &self,
        entries: Seq<crate::object::MapEntry>,
        depth: nat,
    ) -> Option<Seq<PieceModel>>
        decreases depth, entries.len() + 1,
    {
        if entries.len() == 0 {
            Some(Seq::empty())
        } else {
            match (
                self.spec_shown_entries(entries.drop_last(), depth),
                self.spec_shown(entries.last().key, depth),
                self.spec_shown(entries.last().value, depth),
            ) {
                (Some(front), Some(key), Some(value)) => Some(
                    if entries.len() == 1 {
                        key + said(": "@) + value
                    } else {
                        front + said(", "@) + (key + said(": "@) + value)
                    },
                ),
                _ => None,
            }
        }
    }

    /// Add how a value is shown to a run of pieces. Says whether it could be
    /// done within the depth.
    fn show(&self, value: Value, depth: usize, out: &mut Vec<Piece>) -> (r: bool)
        requires
            self.wf(),
        ensures
            r == (self.spec_shown(value, depth as nat) is Some),
            r ==> pieces(final(out)@) == pieces(old(out)@) + self.spec_shown(
                value,
                depth as nat,
            )->0,
        decreases depth, 0nat,
    {
        let ghost before = pieces(out@);
        let ghost shown = self.spec_shown(value, depth as nat);
        if value.is_num() {
            say_number(out, value.to_bits());
            proof {
                assert(pieces(out@) =~= before + shown->0);
            }
            return true;
        }
        if value.is_null() {
            say(out, "null".to_owned());
            return true;
        }
        if value.is_true() {
            say(out, "true".to_owned());
            return true;
        }
        if value.is_false() {
            say(out, "false".to_owned());
            return true;
        }
        let id = match value.as_object() {
            None => {
                say(out, "<invalid>".to_owned());
                return true;
            },
            Some(id) => id,
        };
        match self.heap.type_of(id) {
            None => {
                say(out, "<collected>".to_owned());
                true
            },
            Some(ObjectType::String) => {
                match self.heap.string(id) {
                    Some(string) => {
                        say(out, lossy(string.bytes.as_slice()));
                    },
                    None => {},
                }
                true
            },
            Some(ObjectType::Range) => {
                match self.heap.range(id) {
                    Some(range) => {
                        say_number(out, range.from);
                        say(
                            out,
                            if range.is_inclusive {
                                "..".to_owned()
                            } else {
                                "...".to_owned()
                            },
                        );
                        say_number(out, range.to);
                        proof {
                            assert(pieces(out@) =~= before + shown->0);
                        }
                    },
                    None => {},
                }
                true
            },
            Some(ObjectType::List) => {
                if depth == 0 {
                    return false;
                }
                match self.heap.list(id) {
                    None => false,
                    Some(list) => {
                        say(out, "[".to_owned());
                        if !self.show_elements(&list.elements, depth - 1, out) {
                            return false;
                        }
                        say(out, "]".to_owned());
                        proof {
                            assert(pieces(out@) =~= before + shown->0);
                        }
                        true
                    },
                }
            },
            Some(ObjectType::MapObject) => {
                if depth == 0 {
                    return false;
                }
                match self.heap.map(id) {
                    None => false,
                    Some(map) => {
                        say(out, "{".to_owned());
                        if !self.show_entries(&map.entries, depth - 1, out) {
                            return false;
                        }
                        say(out, "}".to_owned());
                        proof {
                            assert(pieces(out@) =~= before + shown->0);
                        }
                        true
                    },
                }
            },
            Some(ObjectType::Class) => {
                match self.heap.class(id) {
                    None => {},
                    Some(class) => {
                        let text: String = match self.heap.string(class.name) {
                            Some(name) => match name.as_str() {
                                Some(text) => text.to_owned(),
                                None => "<class>".to_owned(),
                            },
                            None => "<class>".to_owned(),
                        };
                        say(out, text);
                    },
                }
                true
            },
            Some(ObjectType::Instance) => {
                match self.heap.instance(id) {
                    None => {},
                    Some(instance) => {
                        let mut text: String = "instance of ".to_owned();
                        let name = self.class_name(instance.class);
                        text.append(name.as_str());
                        say(out, text);
                    },
                }
                true
            },
            Some(ObjectType::Fn) => {
                say(out, "<fn>".to_owned());
                true
            },
            Some(ObjectType::Closure) => {
                say(out, "<fn>".to_owned());
                true
            },
            Some(ObjectType::Fiber) => {
                say(out, "<fiber>".to_owned());
                true
            },
            Some(ObjectType::Upvalue) => {
                say(out, "<upvalue>".to_owned());
                true
            },
        }
    }

    /// Values that cannot all be shown cannot be shown with more after them.
    proof fn lemma_elements_fail(&self, values: Seq<Value>, depth: nat, i: int, n: int)
        requires
            0 <= i <= n <= values.len(),
            self.spec_shown_elements(values.take(i), depth) is None,
        ensures
            self.spec_shown_elements(values.take(n), depth) is None,
        decreases n - i,
    {
        if i < n {
            assert(values.take(n).drop_last() =~= values.take(n - 1));
            self.lemma_elements_fail(values, depth, i, n - 1);
        }
    }

    /// Entries that cannot all be shown cannot be shown with more after them.
    proof fn lemma_entries_fail(
        &self,
        entries: Seq<crate::object::MapEntry>,
        depth: nat,
        i: int,
        n: int,
    )
        requires
            0 <= i <= n <= entries.len(),
            self.spec_shown_entries(entries.take(i), depth) is None,
        ensures
            self.spec_shown_entries(entries.take(n), depth) is None,
        decreases n - i,
    {
        if i < n {
            assert(entries.take(n).drop_last() =~= entries.take(n - 1));
            self.lemma_entries_fail(entries, depth, i, n - 1);
        }
    }

    /// Add how values are shown.
    fn show_elements(&self, values: &Vec<Value>, depth: usize, out: &mut Vec<Piece>) -> (r: bool)
        requires
            self.wf(),
        ensures
            r == (self.spec_shown_elements(values@, depth as nat) is Some),
            r ==> pieces(final(out)@) == pieces(old(out)@) + self.spec_shown_elements(
                values@,
                depth as nat,
            )->0,
        decreases depth, 1nat,
    {
        let ghost before = pieces(out@);
        let mut i: usize = 0;
        proof {
            assert(values@.take(0) =~= Seq::<Value>::empty());
            assert(pieces(out@) =~= before + Seq::empty());
            assert(values@.take(values@.len() as int) =~= values@);
        }
        while i < values.len()
            invariant
                self.wf(),
                i <= values@.len(),
                values@.take(values@.len() as int) == values@,
                self.spec_shown_elements(values@.take(i as int), depth as nat) is Some,
                pieces(out@) == before + self.spec_shown_elements(
                    values@.take(i as int),
                    depth as nat,
                )->0,
            decreases values@.len() - i,
        {
            let ghost front = self.spec_shown_elements(values@.take(i as int), depth as nat)->0;
            proof {
                assert(values@.take(i as int + 1).drop_last() =~= values@.take(i as int));
                assert(values@.take(i as int + 1).last() == values@[i as int]);
            }
            if i > 0 {
                say(out, ", ".to_owned());
            }
            if !self.show(values[i], depth, out) {
                proof {
                    self.lemma_elements_fail(
                        values@,
                        depth as nat,
                        i as int + 1,
                        values@.len() as int,
                    );
                }
                return false;
            }
            proof {
                let last = self.spec_shown(values@[i as int], depth as nat)->0;
                if i == 0 {
                    assert(before + front =~= before);
                } else {
                    assert(before + front + said(", "@) + last =~= before + (front + said(", "@)
                        + last));
                }
            }
            i = i + 1;
        }
        true
    }

    /// Add how the entries of a map are shown.
    fn show_entries(
        &self,
        entries: &Vec<crate::object::MapEntry>,
        depth: usize,
        out: &mut Vec<Piece>,
    ) -> (r: bool)
        requires
            self.wf(),
        ensures
            r == (self.spec_shown_entries(entries@, depth as nat) is Some),
            r ==> pieces(final(out)@) == pieces(old(out)@) + self.spec_shown_entries(
                entries@,
                depth as nat,
            )->0,
        decreases depth, 1nat,
    {
        let ghost before = pieces(out@);
        let mut i: usize = 0;
        proof {
            assert(entries@.take(0) =~= Seq::<crate::object::MapEntry>::empty());
            assert(pieces(out@) =~= before + Seq::empty());
            assert(entries@.take(entries@.len() as int) =~= entries@);
        }
        while i < entries.len()
            invariant
                self.wf(),
                i <= entries@.len(),
                entries@.take(entries@.len() as int) == entries@,
                self.spec_shown_entries(entries@.take(i as int), depth as nat) is Some,
                pieces(out@) == before + self.spec_shown_entries(
                    entries@.take(i as int),
                    depth as nat,
                )->0,
            decreases entries@.len() - i,
        {
            let ghost front = self.spec_shown_entries(entries@.take(i as int), depth as nat)->0;
            proof {
                assert(entries@.take(i as int + 1).drop_last() =~= entries@.take(i as int));
                assert(entries@.take(i as int + 1).last() == entries@[i as int]);
                if self.spec_shown_entries(entries@.take(i as int + 1), depth as nat) is None {
                    self.lemma_entries_fail(
                        entries@,
                        depth as nat,
                        i as int + 1,
                        entries@.len() as int,
                    );
                }
            }
            if i > 0 {
                say(out, ", ".to_owned());
            }
            let ghost opened = pieces(out@);
            if !self.show(entries[i].key, depth, out) {
                return false;
            }
            say(out, ": ".to_owned());
            if !self.show(entries[i].value, depth, out) {
                return false;
            }
            proof {
                let key = self.spec_shown(entries@[i as int].key, depth as nat)->0;
                let value = self.spec_shown(entries@[i as int].value, depth as nat)->0;
                assert(opened + key + said(": "@) + value =~= opened + (key + said(": "@)
                    + value));
                if i == 0 {
                    assert(before + front =~= before);
                } else {
                    assert(before + front + said(", "@) + (key + said(": "@) + value) =~= before + (
                    front + said(", "@) + (key + said(": "@) + value)));
                }
            }
            i = i + 1;
        }
        true
    }

    /// How a value is shown, if nothing in it is nested deeper than the limit.
    ///
    /// A list that holds itself is nested without end, and shows as nothing
    /// whatever the limit.
    pub fn shown(&self, value: Value, depth: usize) -> (r: Option<Vec<Piece>>)
        requires
            self.wf(),
        ensures
            match r {
                Some(list) => self.spec_shown(value, depth as nat) == Some(pieces(list@)),
                None => self.spec_shown(value, depth as nat) is None,
            },
    {
        let mut out: Vec<Piece> = Vec::new();
        if self.show(value, depth, &mut out) {
            proof {
                assert(pieces(out@) =~= self.spec_shown(value, depth as nat)->0);
            }
            Some(out)
        } else {
            None
        }
    }

    /// What a string shows as, and nothing for anything else.
    pub open spec fn spec_text(&self, value: Value) -> Option<Seq<char>> {
        match self.spec_string(value) {
            Some(bytes) => Some(lossy_text(bytes)),
            None => None,
        }
    }

    /// What a string shows as, and nothing for anything else.
    pub fn text(&self, value: Value) -> (r: Option<String>)
        requires
            self.wf(),
        ensures
            match r {
                Some(text) => self.spec_text(value) == Some(text@),
                None => self.spec_text(value) is None,
            },
            r matches Some(text) ==> {
                valid_utf8(self.spec_string(value)->0) ==> text@ == decode_utf8(
                    self.spec_string(value)->0,
                )
            },
    {
        match value.as_object() {
            None => None,
            Some(id) => match self.heap.string(id) {
                None => None,
                Some(string) => Some(lossy(string.bytes.as_slice())),
            },
        }
    }

    /// What a value is said to be by its own `toString`, given what that
    /// returned. Returning anything but a string is no error.
    pub fn stringified(&self, returned: Value) -> (text: String)
        requires
            self.wf(),
        ensures
            text@ == match self.spec_text(returned) {
                Some(text) => text,
                None => "[invalid toString]"@,
            },
    {
        match self.text(returned) {
            Some(text) => text,
            None => "[invalid toString]".to_owned(),
        }
    }
}

/// How many digits of a number are shown.
pub const SIGNIFICANT: usize = 14;

/// What a number that is not written in digits shows as, and the two zeros.
pub open spec fn spec_number_word(bits: u64) -> Option<Seq<char>> {
    if crate::number::not_a_number(bits) {
        Some("nan"@)
    } else if !crate::number::finite(bits) {
        if crate::number::negative(bits) {
            Some("-infinity"@)
        } else {
            Some("infinity"@)
        }
    } else if bits == 0 {
        Some("0"@)
    } else if bits == 0x8000_0000_0000_0000 {
        Some("-0"@)
    } else {
        None
    }
}

/// What a number that is not written in digits shows as, and the two zeros.
pub fn number_word(bits: u64) -> (r: Option<String>)
    ensures
        match r {
            Some(text) => spec_number_word(bits) == Some(text@),
            None => spec_number_word(bits) is None,
        },
{
    if is_nan(bits) {
        Some("nan".to_owned())
    } else if is_infinite(bits) {
        if bits >= 0x8000_0000_0000_0000 {
            Some("-infinity".to_owned())
        } else {
            Some("infinity".to_owned())
        }
    } else if bits == 0 {
        Some("0".to_owned())
    } else if bits == 0x8000_0000_0000_0000 {
        Some("-0".to_owned())
    } else {
        None
    }
}

/// How a number is written out.
#[derive(Clone, Copy, PartialEq, Eq, Structural, Debug)]
pub enum Notation {
    /// As a mantissa and a power of ten.
    Scientific,
    /// With so many digits behind the point.
    Fixed(usize),
}

/// How a number whose leading digit counts this power of ten is written out:
/// with a power of ten if it is below the fourth place behind the point, or
/// has more digits before it than are shown.
pub fn notation(exponent: i32) -> (r: Notation)
    ensures
        r == if exponent < -4 || exponent >= SIGNIFICANT {
            Notation::Scientific
        } else {
            Notation::Fixed((SIGNIFICANT - 1 - exponent) as usize)
        },
{
    if exponent < -4 || exponent >= SIGNIFICANT as i32 {
        Notation::Scientific
    } else {
        Notation::Fixed((SIGNIFICANT as i32 - 1 - exponent) as usize)
    }
}

/// Text without the characters of one kind at its end.
pub open spec fn without_trailing(text: Seq<char>, character: char) -> Seq<char>
    decreases text.len(),
{
    if text.len() > 0 && text.last() == character {
        without_trailing(text.drop_last(), character)
    } else {
        text
    }
}

/// A number's digits without the zeros that say nothing: those at the end, if
/// there is a point, and then the point.
pub open spec fn trimmed(text: Seq<char>) -> Seq<char> {
    if text.contains('.') {
        without_trailing(without_trailing(text, '0'), '.')
    } else {
        text
    }
}

/// Where the characters of one kind at the end of text begin.
fn trailing_from(text: &str, end: usize, character: char) -> (at: usize)
    requires
        end <= text@.len(),
    ensures
        at <= end,
        text@.take(at as int) == without_trailing(text@.take(end as int), character),
{
    let mut at: usize = end;
    while at > 0 && text.get_char(at - 1) == character
        invariant
            at <= end <= text@.len(),
            without_trailing(text@.take(at as int), character) == without_trailing(
                text@.take(end as int),
                character,
            ),
        decreases at,
    {
        proof {
            assert(text@.take(at as int).drop_last() =~= text@.take(at as int - 1));
        }
        at = at - 1;
    }
    at
}

/// A number's digits without the zeros that say nothing.
pub fn trim_trailing_zeros(text: &str) -> (r: String)
    ensures
        r@ == trimmed(text@),
{
    let count: usize = text.unicode_len();
    let mut point: bool = false;
    let mut i: usize = 0;
    while i < count
        invariant
            count == text@.len(),
            i <= count,
            point == text@.take(i as int).contains('.'),
        decreases count - i,
    {
        let character = text.get_char(i);
        proof {
            assert(text@.take(i as int + 1) =~= text@.take(i as int).push(character));
            crate::lists::lemma_pushed(text@.take(i as int), character);
        }
        if character == '.' {
            point = true;
        }
        i = i + 1;
    }
    proof {
        assert(text@.take(count as int) =~= text@);
    }
    if !point {
        return text.to_owned();
    }
    let digits: usize = trailing_from(text, count, '0');
    let end: usize = trailing_from(text, digits, '.');
    let short = text.substring_char(0, end);
    proof {
        assert(short@ =~= text@.take(end as int));
    }
    short.to_owned()
}

/// A number as a mantissa and a power of ten, the power with two digits at
/// least.
pub open spec fn scientific(mantissa: Seq<char>, exponent: int) -> Seq<char> {
    let size = if exponent < 0 {
        -exponent
    } else {
        exponent
    };
    trimmed(mantissa) + seq![
        'e',
        if exponent < 0 {
            '-'
        } else {
            '+'
        },
    ] + if size < 10 {
        seq!['0'] + crate::text::decimal(size as nat)
    } else {
        crate::text::decimal(size as nat)
    }
}

/// A number as a mantissa and a power of ten.
pub fn scientific_text(mantissa: &str, exponent: i32) -> (text: String)
    ensures
        text@ == scientific(mantissa@, exponent as int),
{
    let mut text = trim_trailing_zeros(mantissa);
    let ghost front = text@;
    push_char(&mut text, 'e');
    push_char(
        &mut text,
        if exponent < 0 {
            '-'
        } else {
            '+'
        },
    );
    let size: u64 = if exponent < 0 {
        (-(exponent as i64)) as u64
    } else {
        exponent as u64
    };
    if size < 10 {
        push_char(&mut text, '0');
    }
    push_decimal(&mut text, size);
    proof {
        assert(text@ =~= scientific(mantissa@, exponent as int));
    }
    text
}

} // verus!
