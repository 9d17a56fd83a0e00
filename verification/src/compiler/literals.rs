//! What the literals of a source are worth.

use vstd::prelude::*;

use super::grammar;
use crate::corelib::strings::cut;
use crate::lexer::{Token, TokenKind};
use crate::object::Object;
use crate::value::Value;
use crate::vm::Vm;

verus! {

/// What the byte after a backslash stands for, if it stands for another.
pub open spec fn spec_escape(byte: u8) -> Option<u8> {
    if byte == 0x6e {
        Some(0x0a)
    } else if byte == 0x72 {
        Some(0x0d)
    } else if byte == 0x74 {
        Some(0x09)
    } else if byte == 0x30 {
        Some(0x00)
    } else if byte == 0x22 || byte == 0x5c || byte == 0x25 {
        Some(byte)
    } else if byte == 0x61 {
        Some(0x07)
    } else if byte == 0x62 {
        Some(0x08)
    } else if byte == 0x65 {
        Some(0x1b)
    } else if byte == 0x66 {
        Some(0x0c)
    } else if byte == 0x76 {
        Some(0x0b)
    } else {
        None
    }
}

/// What the byte after a backslash stands for, if it stands for another.
pub fn escape(byte: u8) -> (r: Option<u8>)
    ensures
        r == spec_escape(byte),
{
    if byte == 0x6e {
        Some(0x0a)
    } else if byte == 0x72 {
        Some(0x0d)
    } else if byte == 0x74 {
        Some(0x09)
    } else if byte == 0x30 {
        Some(0x00)
    } else if byte == 0x22 || byte == 0x5c || byte == 0x25 {
        Some(byte)
    } else if byte == 0x61 {
        Some(0x07)
    } else if byte == 0x62 {
        Some(0x08)
    } else if byte == 0x65 {
        Some(0x1b)
    } else if byte == 0x66 {
        Some(0x0c)
    } else if byte == 0x76 {
        Some(0x0b)
    } else {
        None
    }
}

/// A string literal with its escapes resolved. A backslash before anything
/// else, or at the end, stays.
pub open spec fn unescaped(raw: Seq<u8>) -> Seq<u8>
    decreases raw.len(),
{
    if raw.len() == 0 {
        raw
    } else if raw[0] != 0x5c || raw.len() == 1 {
        seq![raw[0]] + unescaped(raw.skip(1))
    } else {
        match spec_escape(raw[1]) {
            Some(byte) => seq![byte] + unescaped(raw.skip(2)),
            None => seq![raw[0], raw[1]] + unescaped(raw.skip(2)),
        }
    }
}

/// A string literal without a backslash is what it says.
pub proof fn law_plain_text_is_itself(raw: Seq<u8>)
    requires
        !raw.contains(0x5c),
    ensures
        unescaped(raw) == raw,
    decreases raw.len(),
{
    if raw.len() > 0 {
        assert(raw[0] != 0x5c);
        assert forall|i: int| 0 <= i < raw.skip(1).len() implies raw.skip(1)[i] != 0x5c by {
            assert(raw.skip(1)[i] == raw[i + 1]);
        }
        law_plain_text_is_itself(raw.skip(1));
        assert(seq![raw[0]] + raw.skip(1) =~= raw);
    }
}

/// Resolving escapes makes no text longer.
pub proof fn law_unescaping_never_lengthens(raw: Seq<u8>)
    ensures
        unescaped(raw).len() <= raw.len(),
    decreases raw.len(),
{
    if raw.len() > 0 {
        if raw[0] != 0x5c || raw.len() == 1 {
            law_unescaping_never_lengthens(raw.skip(1));
        } else {
            law_unescaping_never_lengthens(raw.skip(2));
        }
    }
}

/// Resolve the escapes of a string literal.
pub fn unescape(raw: &[u8]) -> (bytes: Vec<u8>)
    ensures
        bytes@ == unescaped(raw@),
{
    let mut bytes: Vec<u8> = Vec::new();
    let mut at: usize = 0;
    proof {
        assert(raw@.skip(0) =~= raw@);
    }
    while at < raw.len()
        invariant
            at <= raw@.len(),
            bytes@ + unescaped(raw@.skip(at as int)) == unescaped(raw@),
        decreases raw@.len() - at,
    {
        let ghost rest = raw@.skip(at as int);
        if raw[at] != 0x5c || at + 1 == raw.len() {
            proof {
                assert(rest.skip(1) =~= raw@.skip(at + 1));
                assert(bytes@ + (seq![rest[0]] + unescaped(rest.skip(1))) =~= bytes@.push(rest[0])
                    + unescaped(rest.skip(1)));
            }
            bytes.push(raw[at]);
            at += 1;
        } else {
            proof {
                assert(rest.skip(2) =~= raw@.skip(at + 2));
            }
            match escape(raw[at + 1]) {
                Some(byte) => {
                    proof {
                        assert(bytes@ + (seq![byte] + unescaped(rest.skip(2))) =~= bytes@.push(byte)
                            + unescaped(rest.skip(2)));
                    }
                    bytes.push(byte);
                },
                None => {
                    proof {
                        assert(bytes@ + (seq![rest[0], rest[1]] + unescaped(rest.skip(2)))
                            =~= bytes@.push(rest[0]).push(rest[1]) + unescaped(rest.skip(2)));
                    }
                    bytes.push(raw[at]);
                    bytes.push(raw[at + 1]);
                },
            }
            at += 2;
        }
    }
    proof {
        assert(bytes@ + unescaped(raw@.skip(at as int)) =~= bytes@);
    }
    bytes
}

/// What a token that is a number is worth, given what numbers it was read as.
pub open spec fn number_at(numbers: Seq<Option<u64>>, i: int) -> Option<Value> {
    if i < numbers.len() {
        match numbers[i] {
            Some(bits) => Some(Value::num(bits)),
            None => None,
        }
    } else {
        None
    }
}

/// Whether a token is worth a string.
pub open spec fn is_text(kind: TokenKind) -> bool {
    kind == TokenKind::String || kind == TokenKind::Interpolation
}

/// Whether a value is what a token is worth.
pub open spec fn worth(
    vm: &Vm,
    bytes: Seq<u8>,
    token: Token,
    number: Option<Value>,
    literal: Option<Value>,
) -> bool {
    if is_text(token.kind) {
        literal is Some && vm.spec_string(literal->0) == Some(
            unescaped(grammar::slice(bytes, token)),
        )
    } else if token.kind == TokenKind::Number {
        literal == number
    } else {
        literal is None
    }
}

/// Make what the literals among some tokens are worth, given what the numbers
/// among them were read as. There may be no room for the strings.
pub fn make_literals(
    vm: &mut Vm,
    source: &[u8],
    tokens: &Vec<Token>,
    numbers: &Vec<Option<u64>>,
) -> (r: Option<Vec<Option<Value>>>)
    requires
        old(vm).wf(),
    ensures
        final(vm).wf(),
        *final(vm) == (Vm { heap: final(vm).heap, ..*old(vm) }),
        final(vm).heap@.keeps(old(vm).heap@),
        old(vm).heap.has_room(tokens@.len() as int) ==> r is Some,
        r is None ==> !final(vm).heap.has_room(1),
        r matches Some(literals) ==> literals@.len() == tokens@.len() && forall|i: int|
            0 <= i < tokens@.len() ==> worth(
                final(vm),
                source@,
                #[trigger] tokens@[i],
                number_at(numbers@, i),
                literals@[i],
            ),
{
    let ghost before = *vm;
    let mut literals: Vec<Option<Value>> = Vec::new();
    let mut i: usize = 0;
    while i < tokens.len()
        invariant
            before == *old(vm),
            vm.wf(),
            *vm == (Vm { heap: vm.heap, ..before }),
            vm.heap@.keeps(before.heap@),
            i <= tokens@.len(),
            literals@.len() == i,
            before.heap.has_room(tokens@.len() as int) ==> vm.heap.has_room(tokens@.len() - i),
            forall|k: int|
                0 <= k < i ==> worth(
                    vm,
                    source@,
                    #[trigger] tokens@[k],
                    number_at(numbers@, k),
                    literals@[k],
                ),
        decreases tokens@.len() - i,
    {
        let token = tokens[i];
        proof {
            if vm.heap.has_room(tokens@.len() - i) {
                vm.heap.lemma_room(tokens@.len() - i, 1);
                vm.heap.lemma_room(tokens@.len() - i, tokens@.len() - i - 1);
            }
        }
        if token.kind == TokenKind::String || token.kind == TokenKind::Interpolation {
            if !vm.heap.fits_more(1) {
                return None;
            }
            let ghost mid = *vm;
            proof {
                mid.heap.lemma_slots(1, 1);
            }
            let text = if token.start <= token.end && token.end <= source.len() {
                unescape(cut(source, token.start, token.end).as_slice())
            } else {
                Vec::new()
            };
            let value = vm.new_string_bytes(text);
            literals.push(Some(value));
            proof {
                let id = value.spec_as_object()->0;
                vm.heap.law_allocation_keeps(&mid.heap, id, Object::String(vm.heap@.string(id)->0));
                vm.heap@.lemma_kept_on(mid.heap@, before.heap@);
                assert forall|k: int| 0 <= k < i + 1 implies worth(
                    vm,
                    source@,
                    #[trigger] tokens@[k],
                    number_at(numbers@, k),
                    literals@[k],
                ) by {
                    if k < i {
                        assert(worth(
                            &mid,
                            source@,
                            tokens@[k],
                            number_at(numbers@, k),
                            literals@[k],
                        ));
                    }
                }
            }
        } else if token.kind == TokenKind::Number && i < numbers.len() {
            match numbers[i] {
                Some(bits) => {
                    literals.push(Some(Value::num(bits)));
                },
                None => {
                    literals.push(None);
                },
            }
        } else {
            literals.push(None);
        }
        i += 1;
    }
    Some(literals)
}

/// A byte as it can be written in a string.
pub open spec fn written(byte: u8) -> Seq<u8> {
    let backslash = '\\' as u8;
    if byte == 0x0a {
        seq![backslash, 'n' as u8]
    } else if byte == 0x0d {
        seq![backslash, 'r' as u8]
    } else if byte == 0x09 {
        seq![backslash, 't' as u8]
    } else if byte == 0x00 {
        seq![backslash, '0' as u8]
    } else if byte == 0x07 {
        seq![backslash, 'a' as u8]
    } else if byte == 0x08 {
        seq![backslash, 'b' as u8]
    } else if byte == 0x1b {
        seq![backslash, 'e' as u8]
    } else if byte == 0x0c {
        seq![backslash, 'f' as u8]
    } else if byte == 0x0b {
        seq![backslash, 'v' as u8]
    } else if byte == '"' as u8 || byte == '%' as u8 || byte == backslash {
        seq![backslash, byte]
    } else {
        seq![byte]
    }
}

/// Bytes as they can be written in a string.
pub open spec fn all_written(bytes: Seq<u8>) -> Seq<u8>
    decreases bytes.len(),
{
    if bytes.len() == 0 {
        bytes
    } else {
        written(bytes[0]) + all_written(bytes.skip(1))
    }
}

/// A string is what was written: bytes written with escapes wherever there is
/// one for them mean those bytes.
pub proof fn law_escapes_mean_what_was_written(bytes: Seq<u8>)
    ensures
        unescaped(all_written(bytes)) == bytes,
    decreases bytes.len(),
{
    if bytes.len() > 0 {
        let rest = bytes.skip(1);
        law_escapes_mean_what_was_written(rest);
        let first = written(bytes[0]);
        let raw = all_written(bytes);
        assert(raw == first + all_written(rest));
        if first.len() == 1 {
            assert(raw[0] == bytes[0]);
            assert(raw.skip(1) =~= all_written(rest));
            assert(raw[0] != 0x5c);
        } else {
            assert(raw[0] == first[0] && raw[1] == first[1]);
            assert(raw.skip(2) =~= all_written(rest));
            assert(raw[0] == 0x5c);
            assert(spec_escape(raw[1]) == Some(bytes[0]));
        }
        assert(seq![bytes[0]] + rest =~= bytes);
    }
}

} // verus!
