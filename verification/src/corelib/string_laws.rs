//! What holds of the methods of strings.

use vstd::prelude::*;
use vstd::utf8::*;

use super::object_laws::Call;
use super::primitive::Primitive;
use super::strings;
use crate::value::Value;

verus! {

/// The bytes of the text that the receiver or an argument is.
pub open spec fn text(call: Call, index: int) -> Seq<u8> {
    super::string_methods::text_bytes(&call.before, call.argument(index))
}

/// The bytes that the receiver or an argument has.
pub open spec fn bytes(call: Call, index: int) -> Seq<u8> {
    strings::spec_bytes(&call.before, call.argument(index))
}

/// Whether one text is in another at a place.
pub open spec fn is_at(whole: Seq<u8>, part: Seq<u8>, place: int) -> bool {
    &&& 0 <= place
    &&& place + part.len() <= whole.len()
    &&& forall|i: int| 0 <= i < part.len() ==> #[trigger] whole[place + i] == part[i]
}

/// What it is for one text to be in another.
proof fn lemma_is_at(whole: Seq<u8>, part: Seq<u8>, place: int)
    ensures
        strings::occurs_at(whole, part, place) == is_at(whole, part, place),
{
    if 0 <= place && place + part.len() <= whole.len() {
        let cut = whole.subrange(place, place + part.len());
        assert forall|i: int| 0 <= i < part.len() implies cut[i] == #[trigger] whole[place + i] by {
        }
        if is_at(whole, part, place) {
            assert forall|i: int| 0 <= i < part.len() implies cut[i] == part[i] by {
                assert(whole[place + i] == part[i]);
            }
            assert(cut =~= part);
        }
    }
}

/// Where one text is first found in another.
proof fn lemma_first(whole: Seq<u8>, part: Seq<u8>, from: int)
    requires
        0 <= from,
    ensures
        match strings::first_at(whole, part, from) {
            Some(place) => {
                &&& from <= place
                &&& is_at(whole, part, place)
                &&& forall|i: int| from <= i < place ==> !#[trigger] is_at(whole, part, i)
            },
            None => forall|i: int| from <= i ==> !#[trigger] is_at(whole, part, i),
        },
    decreases whole.len() + 1 - from,
{
    if from + part.len() <= whole.len() {
        lemma_is_at(whole, part, from);
        if !strings::occurs_at(whole, part, from) {
            lemma_first(whole, part, from + 1);
        }
    }
}

/// A string contains another where it is found at some place, begins with it
/// where it is found at the start, and ends with it where it is found at the
/// end.
pub proof fn law_what_a_string_contains(call: Call)
    ensures
        call.of(Primitive::StringContains, 1) ==> call.says(
            exists|place: int| is_at(text(call, 0), text(call, 1), place),
        ),
        call.of(Primitive::StringStartsWith, 1) ==> call.says(
            is_at(text(call, 0), text(call, 1), 0),
        ),
        call.of(Primitive::StringEndsWith, 1) ==> call.says(
            is_at(text(call, 0), text(call, 1), text(call, 0).len() - text(call, 1).len()),
        ),
        call.of(Primitive::StringIsEmpty, 0) ==> call.says(bytes(call, 0).len() == 0),
        call.of(Primitive::StringCount, 0) ==> call.gives(
            super::list_laws::index(bytes(call, 0).len()),
        ),
{
    lemma_first(text(call, 0), text(call, 1), 0);
    lemma_is_at(text(call, 0), text(call, 1), 0);
    lemma_is_at(text(call, 0), text(call, 1), text(call, 0).len() - text(call, 1).len());
    if exists|place: int| is_at(text(call, 0), text(call, 1), place) {
        let place = choose|place: int| is_at(text(call, 0), text(call, 1), place);
        assert(0 <= place);
    }
}

/// The index of a string in another is the first place at which it is found, or
/// a number below zero where there is none.
pub proof fn law_index_of_a_string_is_the_first(call: Call, place: int)
    requires
        call.of(Primitive::StringIndexOf, 1),
    ensures
        is_at(text(call, 0), text(call, 1), place) && (forall|i: int|
            0 <= i < place ==> !#[trigger] is_at(text(call, 0), text(call, 1), i)) ==> call.gives(
            super::list_laws::index(place as nat),
        ),
        (forall|i: int| !#[trigger] is_at(text(call, 0), text(call, 1), i)) ==> exists|r: u64|
            #[trigger] call.gives(Value::num(r)) && crate::number::worth(r)
                == -crate::number::one(),
{
    lemma_first(text(call, 0), text(call, 1), 0);
    match strings::first_at(text(call, 0), text(call, 1), 0) {
        Some(found) => {
            assert(is_at(text(call, 0), text(call, 1), found));
        },
        None => {
            crate::number::lemma_unit();
            assert(call.gives(Value::num(crate::number::MINUS_ONE)));
        },
    }
}

/// The order of strings agrees with itself: one of two is at most the other
/// where it is not greater, and at least where it is not less; what is less
/// than another has the other greater.
pub proof fn law_order_of_strings_agrees(a: Call, b: Call, truth: bool)
    requires
        a.asks_as(b),
        a.says(truth),
        a.before.spec_string(a.argument(0)) is Some,
        a.before.spec_string(a.argument(1)) is Some,
    ensures
        a.of(Primitive::StringLess, 1) && b.of(Primitive::StringAtLeast, 1) ==> b.says(!truth),
        a.of(Primitive::StringGreater, 1) && b.of(Primitive::StringAtMost, 1) ==> b.says(!truth),
{
    lemma_truths();
}

/// The truth values differ.
proof fn lemma_truths()
    ensures
        Value::bool(true) != Value::bool(false),
{
    crate::value::law_kinds_exclusive(Value::bool(true));
    crate::value::law_kinds_exclusive(Value::bool(false));
}

/// Where two strings first differ, the smaller byte comes first; a string that
/// begins another comes before it.
pub proof fn law_strings_are_ordered_by_their_bytes(call: Call, at: int)
    requires
        call.before.spec_string(call.argument(0)) is Some,
        call.before.spec_string(call.argument(1)) is Some,
        0 <= at <= bytes(call, 0).len(),
        at <= bytes(call, 1).len(),
        forall|i: int| 0 <= i < at ==> #[trigger] bytes(call, 0)[i] == bytes(call, 1)[i],
        at == bytes(call, 0).len() || at == bytes(call, 1).len() || bytes(call, 0)[at] != bytes(
            call,
            1,
        )[at],
    ensures
        ({
            let less = at < bytes(call, 1).len() && (at == bytes(call, 0).len() || bytes(
                call,
                0,
            )[at] < bytes(call, 1)[at]);
            let greater = at < bytes(call, 0).len() && (at == bytes(call, 1).len() || bytes(
                call,
                0,
            )[at] > bytes(call, 1)[at]);
            &&& call.of(Primitive::StringLess, 1) ==> call.says(less)
            &&& call.of(Primitive::StringGreater, 1) ==> call.says(greater)
            &&& call.of(Primitive::StringAtMost, 1) ==> call.says(!greater)
            &&& call.of(Primitive::StringAtLeast, 1) ==> call.says(!less)
        }),
{
    lemma_below(bytes(call, 0), bytes(call, 1), at);
    lemma_below(bytes(call, 1), bytes(call, 0), at);
}

/// The first difference decides.
proof fn lemma_below(a: Seq<u8>, b: Seq<u8>, at: int)
    requires
        0 <= at <= a.len(),
        at <= b.len(),
        forall|i: int| 0 <= i < at ==> #[trigger] a[i] == b[i],
        at == a.len() || at == b.len() || a[at] != b[at],
    ensures
        strings::bytes_below(a, b) == (at < b.len() && (at == a.len() || a[at] < b[at])),
    decreases at,
{
    if at > 0 {
        assert(a[0] == b[0]);
        let c = a.drop_first();
        let d = b.drop_first();
        assert forall|i: int| 0 <= i < at - 1 implies #[trigger] c[i] == d[i] by {
            assert(a[i + 1] == b[i + 1]);
        }
        lemma_below(c, d, at - 1);
    }
}

/// What came of a method that makes a string.
pub open spec fn made(call: Call) -> Seq<u8> {
    call.after.spec_string(call.value())->0
}

/// Two strings put together are the first and behind it the second.
pub proof fn law_strings_put_together(call: Call)
    requires
        call.of(Primitive::StringAdd, 1),
        call.before.spec_string(call.argument(1)) matches Some(bytes) && valid_utf8(bytes),
    ensures
        call.reply is Done && call.reply->Done_0 is Ok,
        call.after.spec_string(call.value()) is Some,
        made(call).len() == text(call, 0).len() + text(call, 1).len(),
        is_at(made(call), text(call, 0), 0),
        is_at(made(call), text(call, 1), text(call, 0).len() as int),
{
    broadcast use crate::value::law_object_round_trip;

}

/// A string repeated is so many times as long, and is itself again at every
/// multiple of its length.
pub proof fn law_string_repeated(call: Call, n: nat)
    requires
        call.of(Primitive::StringRepeat, 1),
        call.argument(1).spec_is_num(),
        crate::number::finite(call.argument(1).0),
        crate::number::worth(call.argument(1).0) == n * crate::number::one(),
        n <= usize::MAX,
        text(call, 0).len() * n <= isize::MAX,
    ensures
        call.reply is Done && call.reply->Done_0 is Ok,
        call.after.spec_string(call.value()) is Some,
        made(call).len() == n * text(call, 0).len(),
        forall|k: int|
            0 <= k < n ==> is_at(made(call), text(call, 0), #[trigger] (k * text(call, 0).len())),
{
    broadcast use crate::value::law_object_round_trip;

    let bits = call.argument(1).0;
    crate::number::law_integers_survive(n as int, bits);
    assert(crate::number::magnitude(0) == 0);
    lemma_repeated(text(call, 0), n);
}

/// What is repeated is itself at every multiple of its length.
proof fn lemma_repeated(part: Seq<u8>, n: nat)
    ensures
        strings::repeated(part, n).len() == n * part.len(),
        forall|k: int|
            0 <= k < n ==> is_at(strings::repeated(part, n), part, #[trigger] (k * part.len())),
    decreases n,
{
    if n > 0 {
        let m = (n - 1) as nat;
        lemma_repeated(part, m);
        let fewer = strings::repeated(part, m);
        let whole = strings::repeated(part, n);
        assert(whole == fewer + part);
        assert(n * part.len() == m * part.len() + part.len()) by (nonlinear_arith)
            requires
                m == n - 1,
                n > 0,
        ;
        assert forall|k: int| 0 <= k < n implies is_at(
            whole,
            part,
            #[trigger] (k * part.len()),
        ) by {
            if k < m {
                let place = k * part.len();
                assert(is_at(fewer, part, place));
                assert forall|i: int| 0 <= i < part.len() implies #[trigger] whole[place + i]
                    == part[i] by {
                    assert(fewer[place + i] == part[i]);
                }
            } else {
                assert(k == m);
                let place = k * part.len();
                assert(place == fewer.len());
                assert forall|i: int| 0 <= i < part.len() implies #[trigger] whole[place + i]
                    == part[i] by {
                }
            }
        }
    } else {
        assert(0 * part.len() == 0) by (nonlinear_arith);
    }
}

/// Pieces with a separator between each two.
pub open spec fn joined(pieces: Seq<Seq<u8>>, separator: Seq<u8>) -> Seq<u8>
    decreases pieces.len(),
{
    if pieces.len() == 0 {
        Seq::empty()
    } else if pieces.len() == 1 {
        pieces[0]
    } else {
        pieces[0] + separator + joined(pieces.drop_first(), separator)
    }
}

/// A string that is split falls into pieces that hold the separator nowhere,
/// and with the separator between each two are the string again.
pub proof fn law_split_pieces_make_the_string(call: Call, parts: Seq<Value>)
    requires
        call.of(Primitive::StringSplit, 1),
        text(call, 1).len() > 0,
        super::lists::spec_elements(&call.after, call.value()) == Some(parts),
    ensures
        exists|pieces: Seq<Seq<u8>>|
            #![trigger joined(pieces, text(call, 1))]
            {
                &&& pieces.len() == parts.len()
                &&& forall|i: int|
                    0 <= i < parts.len() ==> call.after.spec_string(#[trigger] parts[i]) == Some(
                        pieces[i],
                    )
                &&& joined(pieces, text(call, 1)) == text(call, 0)
                &&& forall|i: int, place: int|
                    0 <= i < pieces.len() ==> !#[trigger] is_at(pieces[i], text(call, 1), place)
            },
{
    let pieces = strings::pieces_from(text(call, 0), text(call, 1), 0);
    lemma_pieces(text(call, 0), text(call, 1), 0);
    assert(text(call, 0).skip(0) =~= text(call, 0));
    assert(joined(pieces, text(call, 1)) == text(call, 0));
}

/// What the pieces of a string make.
proof fn lemma_pieces(whole: Seq<u8>, separator: Seq<u8>, from: int)
    requires
        separator.len() > 0,
        0 <= from <= whole.len(),
    ensures
        ({
            let pieces = strings::pieces_from(whole, separator, from);
            &&& pieces.len() > 0
            &&& joined(pieces, separator) == whole.skip(from)
            &&& forall|i: int, place: int|
                0 <= i < pieces.len() ==> !#[trigger] is_at(pieces[i], separator, place)
        }),
    decreases whole.len() - from,
{
    lemma_first(whole, separator, from);
    let pieces = strings::pieces_from(whole, separator, from);
    match strings::first_at(whole, separator, from) {
        None => {
            assert(pieces =~= seq![whole.skip(from)]);
            assert forall|i: int, place: int| 0 <= i < pieces.len() implies !#[trigger] is_at(
                pieces[i],
                separator,
                place,
            ) by {
                if is_at(pieces[i], separator, place) {
                    lemma_part_is_in_whole(whole, from, whole.len() as int, separator, place);
                }
            }
        },
        Some(at) => {
            let next = at + separator.len();
            lemma_pieces(whole, separator, next);
            let rest = strings::pieces_from(whole, separator, next);
            let first = whole.subrange(from, at);
            assert(pieces == seq![first] + rest);
            assert(pieces.drop_first() =~= rest);
            assert(pieces[0] == first);
            assert(whole.skip(from) =~= first + separator + whole.skip(next)) by {
                assert forall|i: int| 0 <= i < separator.len() implies whole[at + i]
                    == separator[i] by {
                }
            }
            assert forall|i: int, place: int| 0 <= i < pieces.len() implies !#[trigger] is_at(
                pieces[i],
                separator,
                place,
            ) by {
                if i == 0 {
                    if is_at(first, separator, place) {
                        lemma_part_is_in_whole(whole, from, at, separator, place);
                    }
                } else {
                    assert(pieces[i] == rest[i - 1]);
                    assert(!is_at(rest[i - 1], separator, place));
                }
            }
        },
    }
}

/// What is in a part of a string is in the string.
proof fn lemma_part_is_in_whole(
    whole: Seq<u8>,
    from: int,
    to: int,
    part: Seq<u8>,
    place: int,
)
    requires
        0 <= from <= to <= whole.len(),
        is_at(whole.subrange(from, to), part, place),
    ensures
        is_at(whole, part, from + place),
{
    let cut = whole.subrange(from, to);
    assert forall|i: int| 0 <= i < part.len() implies #[trigger] whole[from + place + i]
        == part[i] by {
        assert(cut[place + i] == part[i]);
    }
}

/// What is left of a text that is trimmed: a part of it, with nothing but white
/// space before and behind, and none at an end that is trimmed.
pub proof fn law_trimming_takes_the_white_ends(whole: Seq<char>, start: bool, end: bool)
    ensures
        ({
            let left = strings::trimmed(whole, start, end);
            &&& exists|from: int|
                0 <= from && from + left.len() <= whole.len() && left == #[trigger] whole.subrange(
                    from,
                    from + left.len(),
                ) && (forall|i: int| 0 <= i < from ==> strings::white(#[trigger] whole[i])) && (
                forall|i: int|
                    from + left.len() <= i < whole.len() ==> strings::white(#[trigger] whole[i]))
                    && (!start ==> from == 0) && (!end ==> from + left.len() == whole.len())
            &&& start && left.len() > 0 ==> !strings::white(left[0])
            &&& end && left.len() > 0 ==> !strings::white(left.last())
        }),
{
    lemma_leading(whole);
    let front = if start {
        strings::without_leading(whole)
    } else {
        whole
    };
    lemma_trailing(front);
    let left = strings::trimmed(whole, start, end);
    let from = whole.len() - front.len();
    assert(left =~= whole.subrange(from, from + left.len()));
    assert forall|i: int| from + left.len() <= i < whole.len() implies strings::white(
        #[trigger] whole[i],
    ) by {
        assert(whole[i] == front[i - from]);
    }
    if start && left.len() > 0 {
        assert(left[0] == front[0]);
    }
}

/// What is left behind white space.
proof fn lemma_leading(whole: Seq<char>)
    ensures
        ({
            let left = strings::without_leading(whole);
            let from = whole.len() - left.len();
            &&& 0 <= from
            &&& left == whole.skip(from)
            &&& forall|i: int| 0 <= i < from ==> strings::white(#[trigger] whole[i])
            &&& left.len() > 0 ==> !strings::white(left[0])
        }),
    decreases whole.len(),
{
    if whole.len() > 0 && strings::white(whole[0]) {
        let rest = whole.drop_first();
        lemma_leading(rest);
        let left = strings::without_leading(whole);
        let from = whole.len() - left.len();
        assert(left =~= whole.skip(from));
        assert forall|i: int| 0 <= i < from implies strings::white(#[trigger] whole[i]) by {
            if i > 0 {
                assert(whole[i] == rest[i - 1]);
            }
        }
    } else {
        assert(whole.skip(0) =~= whole);
    }
}

/// What is left before white space.
proof fn lemma_trailing(whole: Seq<char>)
    ensures
        ({
            let left = strings::without_trailing(whole);
            &&& left.len() <= whole.len()
            &&& left == whole.take(left.len() as int)
            &&& forall|i: int| left.len() <= i < whole.len() ==> strings::white(#[trigger] whole[i])
            &&& left.len() > 0 ==> !strings::white(left.last())
        }),
    decreases whole.len(),
{
    if whole.len() > 0 && strings::white(whole.last()) {
        let rest = whole.drop_last();
        lemma_trailing(rest);
        let left = strings::without_trailing(whole);
        assert(left =~= whole.take(left.len() as int));
        assert forall|i: int| left.len() <= i < whole.len() implies strings::white(
            #[trigger] whole[i],
        ) by {
            if i < rest.len() {
                assert(whole[i] == rest[i]);
            }
        }
    } else {
        assert(whole.take(whole.len() as int) =~= whole);
    }
}

/// Trimming a string trims the text at both ends, at the start or at the end,
/// as it says.
pub proof fn law_trimming_a_string(call: Call, start: bool, end: bool)
    requires
        call.of(
            if start && end {
                Primitive::StringTrim
            } else if start {
                Primitive::StringTrimStart
            } else {
                Primitive::StringTrimEnd
            },
            0,
        ),
        start || end,
    ensures
        call.after.spec_string(call.value()) == Some(
            encode_utf8(
                strings::trimmed(
                    strings::spec_text(&call.before, call.argument(0)),
                    start,
                    end,
                ),
            ),
        ),
{
    broadcast use crate::value::law_object_round_trip;

}

/// Whether a place is where the character at another ends.
pub open spec fn character_ends(whole: Seq<u8>, at: int, end: int) -> bool {
    &&& at < end <= whole.len()
    &&& end == whole.len() || is_char_boundary(whole, end)
    &&& forall|i: int| at < i < end ==> !#[trigger] is_char_boundary(whole, i)
}

/// Where a character ends.
proof fn lemma_character_end(whole: Seq<u8>, at: int)
    requires
        0 <= at < whole.len(),
    ensures
        character_ends(whole, at, strings::character_end(whole, at)),
    decreases whole.len() - at,
{
    if !(at + 1 >= whole.len() || is_char_boundary(whole, at + 1)) {
        lemma_character_end(whole, at + 1);
    }
}

/// Only one place is where a character ends.
proof fn lemma_one_end(whole: Seq<u8>, at: int, a: int, b: int)
    requires
        character_ends(whole, at, a),
        character_ends(whole, at, b),
    ensures
        a == b,
{
    if a < b {
        assert(!is_char_boundary(whole, a));
    } else if b < a {
        assert(!is_char_boundary(whole, b));
    }
}

/// Iterating a string goes from character to character: to the first to begin
/// with, from one to where it ends, and after the last there is none. What is
/// read is the character, from where it starts to where it ends.
pub proof fn law_string_is_iterated_by_characters(call: Call, at: int, end: int)
    requires
        text(call, 0).len() < crate::number::MAX_COUNT,
        text(call, 0).len() <= usize::MAX,
        0 <= at < text(call, 0).len(),
        is_char_boundary(text(call, 0), at),
        character_ends(text(call, 0), at, end),
        call.argument(1) == super::list_laws::index(at as nat),
    ensures
        call.of(Primitive::StringIterate, 1) ==> call.gives(
            if end < text(call, 0).len() {
                super::list_laws::index(end as nat)
            } else {
                Value::bool(false)
            },
        ),
        call.of(Primitive::StringIteratorValue, 1) ==> {
            &&& call.after.spec_string(call.value()) is Some
            &&& made(call).len() == end - at
            &&& is_at(text(call, 0), made(call), at)
        },
{
    broadcast use crate::value::law_object_round_trip;

    super::list_laws::lemma_index(at as nat);
    lemma_character_end(text(call, 0), at);
    lemma_one_end(text(call, 0), at, end, strings::character_end(text(call, 0), at));
}

/// Iterating a string begins with its first character, if it has one.
pub proof fn law_string_begins_with_its_first(call: Call)
    requires
        call.of(Primitive::StringIterate, 1),
        call.argument(1) == Value::null(),
    ensures
        call.gives(
            if text(call, 0).len() > 0 {
                super::list_laws::index(0)
            } else {
                Value::bool(false)
            },
        ),
{
}

/// The bytes of a string are numbers, one for each byte, and its code points
/// one for each character of its text, in order.
pub proof fn law_bytes_and_code_points(call: Call)
    ensures
        call.of(Primitive::StringBytes, 0) ==> {
            &&& super::lists::spec_elements(&call.after, call.value()) matches Some(list)
            &&& list.len() == bytes(call, 0).len()
            &&& forall|i: int|
                0 <= i < list.len() ==> #[trigger] list[i] == super::list_laws::index(
                    bytes(call, 0)[i] as nat,
                )
        },
        call.of(Primitive::StringCodePoints, 0) ==> {
            let characters = strings::spec_text(&call.before, call.argument(0));
            &&& super::lists::spec_elements(&call.after, call.value()) matches Some(list)
            &&& list.len() == characters.len()
            &&& forall|i: int|
                0 <= i < list.len() ==> #[trigger] list[i] == super::list_laws::index(
                    characters[i] as u32 as nat,
                )
        },
{
    broadcast use crate::value::law_object_round_trip;

}

/// A string made of a byte is that byte, and one made of a code point is that
/// character.
pub proof fn law_strings_made_of_numbers(call: Call, n: nat)
    requires
        call.argument(1) == super::list_laws::index(n),
        n < crate::number::MAX_COUNT,
    ensures
        call.of(Primitive::StringFromByte, 1) && n < 256 && call.reply->Done_0 is Ok
            ==> call.after.spec_string(call.value()) == Some(seq![n as u8]),
        call.of(Primitive::StringFromCodePoint, 1) && (n < 0xd800 || 0xe000 <= n <= 0x10ffff)
            ==> call.after.spec_string(call.value()) == Some(encode_utf8(seq![n as char])),
{
    broadcast use crate::value::law_object_round_trip;

    super::list_laws::lemma_index(n);
}

} // verus!
