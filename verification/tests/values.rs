//! Values, handles, numbers and digests.

use wren::compiler::literals::{escape, unescape};
use wren::compiler::words::{clamp_line, infix_precedence, signature, tighter, Precedence};
use wren::corelib::arguments::{resolve_index, signature_for};
use wren::hex;
use wren::math::{ceil, floor, whole};
use wren::number;
use wren::sha256;
use wren::{ObjectId, TokenKind, Value};

#[test]
fn a_handle_is_a_tag_and_an_index() {
    let id = ObjectId::tagged(3, 77);
    assert_eq!(id.tag(), 3);
    assert_eq!(id.index(), 77);
    assert_eq!(ObjectId::new(5).raw(), 5);
}

#[test]
fn a_value_is_one_kind_of_thing() {
    let id = ObjectId::tagged(1, 9);
    let object = Value::object(id);
    assert_eq!(object.as_object(), Some(id));
    assert!(!object.is_num() && !object.is_bool() && !object.is_null());
    let number = Value::num(1.5f64.to_bits());
    assert_eq!(number.as_num(), Some(1.5f64.to_bits()));
    assert_eq!(number.as_object(), None);
    assert!(Value::null().is_falsy());
    assert!(Value::bool(false).is_falsy());
    assert!(!Value::bool(true).is_falsy());
    assert!(!Value::num(0.0f64.to_bits()).is_falsy());
    assert!(Value::undefined().is_undefined());
    assert_eq!(Value::from_bits(number.to_bits()), number);
}

#[test]
fn numbers_round_as_doubles_do() {
    for n in [0.0f64, -0.0, 0.5, -0.5, 1.0, -1.5, 2.5, 1e15 + 0.5, -7.999, 1e300, f64::INFINITY] {
        let bits = n.to_bits();
        assert_eq!(f64::from_bits(number::truncated(bits)), n.trunc());
        assert_eq!(f64::from_bits(number::floored(bits)), n.floor());
        assert_eq!(f64::from_bits(number::raised(bits)), n.ceil());
        assert_eq!(number::absolute(bits), n.abs().to_bits());
        assert_eq!(number::negated(bits), (-n).to_bits());
        assert_eq!(number::to_u32(bits), n as u32);
        assert_eq!(number::to_i64(bits), n as i64);
        assert_eq!(number::is_integer(bits), n.is_finite() && n == n.trunc());
    }
    assert_eq!(number::to_u32(f64::NAN.to_bits()), 0);
    assert!(number::is_nan(f64::NAN.to_bits()));
}

#[test]
fn numbers_are_ordered_as_doubles_are() {
    let all = [f64::NEG_INFINITY, -2.0, -0.0, 0.0, 1e-300, 3.0, f64::INFINITY, f64::NAN];
    for a in all {
        for b in all {
            assert_eq!(number::less(a.to_bits(), b.to_bits()), a < b);
            assert_eq!(number::same(a.to_bits(), b.to_bits()), a == b);
        }
    }
}

#[test]
fn whole_numbers_are_made_exactly() {
    for n in [0u64, 1, 2, 255, 4096, 1 << 52, 1 << 53] {
        assert_eq!(number::from_u64(n), (n as f64).to_bits());
    }
    assert_eq!(number::from_i64(-5), (-5.0f64).to_bits());
    assert_eq!(number::counted(12), 12.0f64.to_bits());
}

#[test]
fn whole_number_maths() {
    assert_eq!(whole::sqrt(0), 0);
    assert_eq!(whole::sqrt(99), 9);
    assert_eq!(whole::sqrt(100), 10);
    assert_eq!(whole::sqrt(i32::MAX - 1), 46340);
    assert_eq!(whole::abs(-3), 3);
    assert_eq!(whole::abs(i32::MIN), i32::MIN);
    assert_eq!(whole::floor(7), 7);
}

#[test]
fn hexadecimal_is_read() {
    assert_eq!(hex::parse(b"ff"), Some(255));
    assert_eq!(hex::parse(b"+1A"), Some(26));
    assert_eq!(hex::parse(b""), None);
    assert_eq!(hex::parse(b"+"), None);
    assert_eq!(hex::parse(b"1g"), None);
    assert_eq!(hex::parse(b"ffffffffffffffff"), Some(u64::MAX));
    assert_eq!(hex::parse(b"10000000000000000"), None);
}

#[test]
fn escapes_are_resolved() {
    assert_eq!(unescape(b"plain"), b"plain".to_vec());
    assert_eq!(unescape(b"a\\nb"), b"a\nb".to_vec());
    assert_eq!(unescape(b"\\a\\b\\e\\f\\v\\0\\r\\t"), vec![7, 8, 27, 12, 11, 0, 13, 9]);
    assert_eq!(unescape(b"\\\"\\\\\\%"), b"\"\\%".to_vec());
    assert_eq!(unescape(b"\\q"), b"\\q".to_vec());
    assert_eq!(unescape(b"end\\"), b"end\\".to_vec());
    assert_eq!(escape(b'n'), Some(b'\n'));
    assert_eq!(escape(b'z'), None);
}

#[test]
fn signatures_tell_arities_apart() {
    assert_eq!(signature("foo", 0), "foo");
    assert_eq!(signature("foo", 1), "foo(_)");
    assert_eq!(signature("foo", 2), "foo(_,_)");
    assert_eq!(signature_for("call", 0), "call()");
    assert_eq!(signature_for("call", 3), "call(_,_,_)");
}

#[test]
fn precedence_climbs() {
    assert_eq!(infix_precedence(TokenKind::Plus), Precedence::Term);
    assert_eq!(infix_precedence(TokenKind::Star), Precedence::Factor);
    assert_eq!(infix_precedence(TokenKind::Comma), Precedence::Nothing);
    assert_eq!(tighter(Precedence::Term), Precedence::Factor);
    assert_eq!(tighter(Precedence::Call), Precedence::Call);
    assert_eq!(clamp_line(70000), u16::MAX);
    assert_eq!(clamp_line(7), 7);
}

#[test]
fn indices_count_from_either_end() {
    assert_eq!(resolve_index(0.0f64.to_bits(), 3).ok(), Some(0));
    assert_eq!(resolve_index((-1.0f64).to_bits(), 3).ok(), Some(2));
    assert_eq!(resolve_index(3.0f64.to_bits(), 3).unwrap_err().message, "Index out of bounds.");
}

#[test]
fn digests_are_known() {
    assert_eq!(
        sha256::to_hex(&sha256::digest(b"")),
        "e3b0c44298fc1c149afbf4c8996fb92427ae41e4649b934ca495991b7852b855"
    );
    assert_eq!(
        sha256::to_hex(&sha256::digest(b"abc")),
        "ba7816bf8f01cfea414140de5dae2223b00361a396177a9cb410ff61f20015ad"
    );
    assert_eq!(
        sha256::to_hex(&sha256::digest(
            b"abcdbcdecdefdefgefghfghighijhijkijkljklmklmnlmnomnopnopq"
        )),
        "248d6a61d20638b8e5c026930c3e6039a33ce45964ff2167f6ecedd419db06c1"
    );
}

#[test]
fn whatever_a_number_is_made_of_is_a_number() {
    for bits in [0x7ffc_0000_0000_0001, 0x7ffc_0000_0000_0003, 0xffff_0000_0000_0010, u64::MAX] {
        let value = Value::num(bits);
        assert!(value.is_num());
        assert!(!value.is_null() && !value.is_bool() && value.as_object().is_none());
        assert!(f64::from_bits(value.as_num().unwrap()).is_nan());
    }
    assert_eq!(Value::num(0xfff8_0000_0000_0000).as_num(), Some(0xfff8_0000_0000_0000));
}

#[test]
fn rounding_keeps_the_sign_of_zero() {
    let minus_zero = (-0.0f64).to_bits();
    assert_eq!(ceil((-0.5f64).to_bits()), minus_zero);
    assert_eq!(floor(minus_zero), minus_zero);
    assert_eq!(ceil(minus_zero), minus_zero);
    assert_eq!(floor(0.5f64.to_bits()), 0);
    assert_eq!(floor((-0.5f64).to_bits()), (-1.0f64).to_bits());
    assert_eq!(ceil(0.5f64.to_bits()), 1.0f64.to_bits());
}
