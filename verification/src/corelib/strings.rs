//! Text: searching it, cutting it and comparing it.

use vstd::prelude::*;
use vstd::string::*;
use vstd::utf8::*;

use crate::object::copy_bytes;
use crate::value::Value;
use crate::vm::shown::lossy;
use crate::vm::Vm;

verus! {

/// The bytes of a string; none for anything else.
pub open spec fn spec_bytes(vm: &Vm, value: Value) -> Seq<u8> {
    match vm.spec_string(value) {
        Some(bytes) => bytes,
        None => Seq::empty(),
    }
}

/// The bytes of a string; none for anything else.
pub fn string_bytes(vm: &Vm, value: Value) -> (bytes: Vec<u8>)
    requires
        vm.wf(),
    ensures
        bytes@ == spec_bytes(vm, value),
{
    match value.as_object() {
        Some(id) => match vm.heap.string(id) {
            Some(string) => copy_bytes(string.bytes.as_slice()),
            None => Vec::new(),
        },
        None => Vec::new(),
    }
}

/// What a string says as text; nothing for anything else.
pub open spec fn spec_text(vm: &Vm, value: Value) -> Seq<char> {
    crate::vm::shown::lossy_text(spec_bytes(vm, value))
}

/// What a string says as text; nothing for anything else.
pub fn string_text(vm: &Vm, value: Value) -> (text: String)
    requires
        vm.wf(),
    ensures
        text@ == spec_text(vm, value),
{
    let bytes: Vec<u8> = string_bytes(vm, value);
    lossy(bytes.as_slice())
}

/// Whether text is found at a place in other text.
pub open spec fn occurs_at(text: Seq<u8>, needle: Seq<u8>, at: int) -> bool {
    &&& 0 <= at
    &&& at + needle.len() <= text.len()
    &&& text.subrange(at, at + needle.len()) == needle
}

/// Where text is first found in other text, from a place on.
pub open spec fn first_at(text: Seq<u8>, needle: Seq<u8>, from: int) -> Option<int>
    decreases text.len() + 1 - from,
{
    if from < 0 || from + needle.len() > text.len() {
        None
    } else if occurs_at(text, needle, from) {
        Some(from)
    } else {
        first_at(text, needle, from + 1)
    }
}

/// Whether text is found at a place in other text.
fn is_at(text: &[u8], needle: &[u8], at: usize) -> (r: bool)
    requires
        at + needle@.len() <= text@.len(),
    ensures
        r == occurs_at(text@, needle@, at as int),
{
    let mut i: usize = 0;
    while i < needle.len()
        invariant
            at + needle@.len() <= text@.len(),
            i <= needle@.len(),
            forall|k: int| 0 <= k < i ==> text@[at + k] == needle@[k],
        decreases needle@.len() - i,
    {
        let size: usize = text.len();
        if text[at + i] != needle[i] {
            proof {
                let cut = text@.subrange(at as int, at + needle@.len());
                assert(cut[i as int] == text@[at + i]);
            }
            return false;
        }
        i = i + 1;
    }
    proof {
        assert(text@.subrange(at as int, at + needle@.len()) =~= needle@);
    }
    true
}

/// Where text is first found in other text, from a place on.
pub fn find_from(text: &[u8], needle: &[u8], from: usize) -> (r: Option<usize>)
    ensures
        match r {
            Some(at) => first_at(text@, needle@, from as int) == Some(at as int),
            None => first_at(text@, needle@, from as int) is None,
        },
        r matches Some(at) ==> from <= at && at + needle@.len() <= text@.len(),
{
    let size: usize = text.len();
    let width: usize = needle.len();
    let mut at: usize = from;
    while at <= size && width <= size - at
        invariant
            size == text@.len(),
            width == needle@.len(),
            from <= at,
            at <= size || at == from,
            first_at(text@, needle@, from as int) == first_at(text@, needle@, at as int),
        decreases size - at,
    {
        if is_at(text, needle, at) {
            return Some(at);
        }
        proof {
            if at == size {
                assert(text@.subrange(at as int, at as int) =~= needle@);
            }
        }
        at = at + 1;
    }
    None
}

/// Whether text begins with other text.
pub open spec fn begins(text: Seq<u8>, needle: Seq<u8>) -> bool {
    occurs_at(text, needle, 0)
}

/// Whether text ends with other text.
pub open spec fn ends(text: Seq<u8>, needle: Seq<u8>) -> bool {
    occurs_at(text, needle, text.len() - needle.len())
}

/// Whether text begins with other text.
pub fn begins_with(text: &[u8], needle: &[u8]) -> (r: bool)
    ensures
        r == begins(text@, needle@),
{
    needle.len() <= text.len() && is_at(text, needle, 0)
}

/// Whether text ends with other text.
pub fn ends_with(text: &[u8], needle: &[u8]) -> (r: bool)
    ensures
        r == ends(text@, needle@),
{
    needle.len() <= text.len() && is_at(text, needle, text.len() - needle.len())
}

/// The pieces of text between separators, from a place on.
pub open spec fn pieces_from(text: Seq<u8>, separator: Seq<u8>, from: int) -> Seq<Seq<u8>>
    decreases text.len() - from,
{
    if separator.len() == 0 || from < 0 || from > text.len() {
        Seq::empty()
    } else {
        match first_at(text, separator, from) {
            None => seq![text.skip(from)],
            Some(at) => if at < from || at + separator.len() > text.len() {
                Seq::empty()
            } else {
                seq![text.subrange(from, at)] + pieces_from(
                    text,
                    separator,
                    at + separator.len(),
                )
            },
        }
    }
}

/// What a run of byte strings holds.
pub open spec fn byte_views(list: Seq<Vec<u8>>) -> Seq<Seq<u8>> {
    list.map_values(|bytes: Vec<u8>| bytes@)
}

/// A part of a run of bytes.
pub fn cut(bytes: &[u8], from: usize, to: usize) -> (part: Vec<u8>)
    requires
        from <= to <= bytes@.len(),
    ensures
        part@ == bytes@.subrange(from as int, to as int),
{
    let mut part: Vec<u8> = Vec::new();
    let mut i: usize = from;
    while i < to
        invariant
            from <= i <= to <= bytes@.len(),
            part@ == bytes@.subrange(from as int, i as int),
        decreases to - i,
    {
        part.push(bytes[i]);
        proof {
            assert(bytes@.subrange(from as int, i + 1) =~= bytes@.subrange(
                from as int,
                i as int,
            ).push(bytes@[i as int]));
        }
        i = i + 1;
    }
    part
}

/// The pieces of text between separators.
pub fn split(text: &[u8], separator: &[u8]) -> (list: Vec<Vec<u8>>)
    requires
        separator@.len() > 0,
    ensures
        byte_views(list@) == pieces_from(text@, separator@, 0),
{
    let size: usize = text.len();
    let width: usize = separator.len();
    let mut list: Vec<Vec<u8>> = Vec::new();
    let mut from: usize = 0;
    let ghost all = pieces_from(text@, separator@, 0);
    proof {
        assert(byte_views(list@) + all =~= all);
    }
    loop
        invariant
            size == text@.len(),
            width == separator@.len(),
            width > 0,
            from <= size,
            all == pieces_from(text@, separator@, 0),
            byte_views(list@) + pieces_from(text@, separator@, from as int) == all,
        decreases size - from,
    {
        let ghost before = byte_views(list@);
        match find_from(text, separator, from) {
            None => {
                list.push(cut(text, from, size));
                proof {
                    assert(text@.subrange(from as int, size as int) =~= text@.skip(from as int));
                    assert(byte_views(list@) =~= before + pieces_from(
                        text@,
                        separator@,
                        from as int,
                    ));
                }
                return list;
            },
            Some(at) => {
                list.push(cut(text, from, at));
                proof {
                    let rest = pieces_from(text@, separator@, at + width);
                    assert(byte_views(list@) =~= before.push(text@.subrange(from as int, at as int)));
                    assert(byte_views(list@) + rest =~= before + pieces_from(
                        text@,
                        separator@,
                        from as int,
                    ));
                }
                from = at + width;
            },
        }
    }
}

/// Whether one run of bytes comes before another in the dictionary.
pub open spec fn bytes_below(a: Seq<u8>, b: Seq<u8>) -> bool
    decreases a.len(),
{
    if b.len() == 0 {
        false
    } else if a.len() == 0 {
        true
    } else if a[0] != b[0] {
        a[0] < b[0]
    } else {
        bytes_below(a.drop_first(), b.drop_first())
    }
}

/// Whether one run of bytes comes before another in the dictionary.
pub fn comes_before(a: &[u8], b: &[u8]) -> (r: bool)
    ensures
        r == bytes_below(a@, b@),
{
    let mut i: usize = 0;
    proof {
        assert(a@.skip(0) =~= a@);
        assert(b@.skip(0) =~= b@);
    }
    while i < a.len() && i < b.len()
        invariant
            i <= a@.len(),
            i <= b@.len(),
            bytes_below(a@, b@) == bytes_below(a@.skip(i as int), b@.skip(i as int)),
        decreases a@.len() - i,
    {
        proof {
            assert(a@.skip(i as int)[0] == a@[i as int]);
            assert(b@.skip(i as int)[0] == b@[i as int]);
            assert(a@.skip(i as int).drop_first() =~= a@.skip(i as int + 1));
            assert(b@.skip(i as int).drop_first() =~= b@.skip(i as int + 1));
        }
        if a[i] != b[i] {
            return a[i] < b[i];
        }
        i = i + 1;
    }
    i < b.len()
}

/// The dictionary's order is total.
pub proof fn law_dictionary_order(a: Seq<u8>, b: Seq<u8>)
    ensures
        bytes_below(a, b) || bytes_below(b, a) || a == b,
        !(bytes_below(a, b) && bytes_below(b, a)),
        !bytes_below(a, a),
    decreases a.len(),
{
    if a.len() > 0 && b.len() > 0 && a[0] == b[0] {
        law_dictionary_order(a.drop_first(), b.drop_first());
        if a.drop_first() == b.drop_first() {
            assert(a =~= seq![a[0]] + a.drop_first());
            assert(b =~= seq![b[0]] + b.drop_first());
        }
    } else if a.len() == 0 && b.len() == 0 {
        assert(a =~= b);
    }
    if a.len() > 0 {
        law_dictionary_order(a.drop_first(), a.drop_first());
    }
}

/// Whether a character is white space.
pub open spec fn white(c: char) -> bool {
    let n = c as u32;
    ||| 0x9 <= n <= 0xd
    ||| n == 0x20
    ||| n == 0x85
    ||| n == 0xa0
    ||| n == 0x1680
    ||| 0x2000 <= n <= 0x200a
    ||| n == 0x2028
    ||| n == 0x2029
    ||| n == 0x202f
    ||| n == 0x205f
    ||| n == 0x3000
}

/// Whether a character is white space.
fn is_white(c: char) -> (r: bool)
    ensures
        r == white(c),
{
    let n: u32 = c as u32;
    (0x9 <= n && n <= 0xd) || n == 0x20 || n == 0x85 || n == 0xa0 || n == 0x1680 || (0x2000 <= n
        && n <= 0x200a) || n == 0x2028 || n == 0x2029 || n == 0x202f || n == 0x205f || n == 0x3000
}

/// Text without the white space at its start.
pub open spec fn without_leading(text: Seq<char>) -> Seq<char>
    decreases text.len(),
{
    if text.len() > 0 && white(text[0]) {
        without_leading(text.drop_first())
    } else {
        text
    }
}

/// Text without the white space at its end.
pub open spec fn without_trailing(text: Seq<char>) -> Seq<char>
    decreases text.len(),
{
    if text.len() > 0 && white(text.last()) {
        without_trailing(text.drop_last())
    } else {
        text
    }
}

/// Text with the white space at its start cut off, or at its end, or both.
pub open spec fn trimmed(text: Seq<char>, start: bool, end: bool) -> Seq<char> {
    let front = if start {
        without_leading(text)
    } else {
        text
    };
    if end {
        without_trailing(front)
    } else {
        front
    }
}

/// Where text begins after the white space at its start.
fn leading(text: &str) -> (from: usize)
    ensures
        from <= text@.len(),
        text@.skip(from as int) == without_leading(text@),
{
    let count: usize = text.unicode_len();
    let mut from: usize = 0;
    proof {
        assert(text@.skip(0) =~= text@);
    }
    while from < count && is_white(text.get_char(from))
        invariant
            count == text@.len(),
            from <= count,
            without_leading(text@) == without_leading(text@.skip(from as int)),
        decreases count - from,
    {
        proof {
            assert(text@.skip(from as int)[0] == text@[from as int]);
            assert(text@.skip(from as int).drop_first() =~= text@.skip(from as int + 1));
        }
        from = from + 1;
    }
    proof {
        if from < count {
            assert(text@.skip(from as int)[0] == text@[from as int]);
        }
    }
    from
}

/// Where text ends before the white space at its end.
fn trailing(text: &str) -> (to: usize)
    ensures
        to <= text@.len(),
        text@.take(to as int) == without_trailing(text@),
{
    let count: usize = text.unicode_len();
    let mut to: usize = count;
    proof {
        assert(text@.take(count as int) =~= text@);
    }
    while to > 0 && is_white(text.get_char(to - 1))
        invariant
            count == text@.len(),
            to <= count,
            without_trailing(text@) == without_trailing(text@.take(to as int)),
        decreases to,
    {
        proof {
            assert(text@.take(to as int).last() == text@[to as int - 1]);
            assert(text@.take(to as int).drop_last() =~= text@.take(to as int - 1));
        }
        to = to - 1;
    }
    proof {
        if to > 0 {
            assert(text@.take(to as int).last() == text@[to as int - 1]);
        }
    }
    to
}

/// Cut off the white space at the start of text, or at its end, or both.
pub fn trim(text: &str, start: bool, end: bool) -> (r: String)
    ensures
        r@ == trimmed(text@, start, end),
{
    let count: usize = text.unicode_len();
    let front: &str = if start {
        let from: usize = leading(text);
        let part = text.substring_char(from, count);
        proof {
            assert(part@ =~= text@.skip(from as int));
        }
        part
    } else {
        text
    };
    if end {
        let to: usize = trailing(front);
        let part = front.substring_char(0, to);
        proof {
            assert(part@ =~= front@.take(to as int));
        }
        part.to_owned()
    } else {
        front.to_owned()
    }
}

/// Bytes put end to end so many times.
pub open spec fn repeated(bytes: Seq<u8>, count: nat) -> Seq<u8>
    decreases count,
{
    if count == 0 {
        Seq::empty()
    } else {
        repeated(bytes, (count - 1) as nat) + bytes
    }
}

/// Nothing, however often it is repeated.
proof fn lemma_repeated_nothing(count: nat)
    ensures
        repeated(Seq::empty(), count) == Seq::<u8>::empty(),
    decreases count,
{
    if count > 0 {
        lemma_repeated_nothing((count - 1) as nat);
        assert(repeated(Seq::empty(), count) =~= Seq::<u8>::empty());
    }
}

/// Append bytes.
pub fn append_bytes(out: &mut Vec<u8>, bytes: &[u8])
    ensures
        final(out)@ == old(out)@ + bytes@,
{
    let ghost before = out@;
    let mut i: usize = 0;
    while i < bytes.len()
        invariant
            i <= bytes@.len(),
            out@ == before + bytes@.take(i as int),
        decreases bytes@.len() - i,
    {
        out.push(bytes[i]);
        proof {
            assert(out@ =~= before + bytes@.take(i as int + 1));
        }
        i = i + 1;
    }
    proof {
        assert(bytes@.take(i as int) =~= bytes@);
    }
}

/// Put bytes end to end so many times.
pub fn repeat(bytes: &[u8], count: usize) -> (out: Vec<u8>)
    ensures
        out@ == repeated(bytes@, count as nat),
{
    let mut out: Vec<u8> = Vec::new();
    if bytes.len() == 0 {
        proof {
            assert(bytes@ =~= Seq::<u8>::empty());
            lemma_repeated_nothing(count as nat);
        }
        return out;
    }
    let mut i: usize = 0;
    while i < count
        invariant
            i <= count,
            out@ == repeated(bytes@, i as nat),
        decreases count - i,
    {
        append_bytes(&mut out, bytes);
        i = i + 1;
    }
    out
}

/// The end of the character that begins at a place.
pub open spec fn character_end(text: Seq<u8>, at: int) -> int
    decreases text.len() - at,
{
    if at + 1 >= text.len() || is_char_boundary(text, at + 1) {
        at + 1
    } else {
        character_end(text, at + 1)
    }
}

/// The end of the character that begins at a place.
pub fn end_of_character(text: &str, at: usize) -> (end: usize)
    requires
        at < encode_utf8(text@).len(),
    ensures
        end == character_end(encode_utf8(text@), at as int),
        at < end <= encode_utf8(text@).len(),
{
    let ghost bytes = encode_utf8(text@);
    let size: usize = text.as_bytes().len();
    let mut end: usize = at + 1;
    while end < size && !text.is_char_boundary(end)
        invariant
            bytes == encode_utf8(text@),
            size == bytes.len(),
            at < end <= size,
            character_end(bytes, at as int) == character_end(bytes, end - 1),
        decreases size - end,
    {
        end = end + 1;
    }
    end
}

/// `char::from_u32`: the character with a number, if there is one. There is
/// none for a surrogate, and none past the last code point.
#[verifier::external_body]
fn character(n: u32) -> (r: Option<char>)
    ensures
        match r {
            Some(c) => is_scalar(n) && c == n as char,
            None => !is_scalar(n),
        },
{
    char::from_u32(n)
}

/// The text that one character is, if a number is that of one.
pub fn text_of_code_point(n: u32) -> (r: Option<String>)
    ensures
        match r {
            Some(text) => is_scalar(n) && text@ == seq![n as char],
            None => !is_scalar(n),
        },
{
    match character(n) {
        Some(c) => {
            let mut text = String::new();
            crate::text::push_char(&mut text, c);
            Some(text)
        },
        None => None,
    }
}

} // verus!
