//! SHA-256, for stamping compiled bytecode with the source it came from.
//!
//! A compiled file records the digest of its source, so that a build can tell
//! whether the bytecode is current. It is a matching check.

use vstd::prelude::*;

use crate::text::push_char;

verus! {

/// The first thirty-two bits of the fractional parts of the cube roots of the
/// first sixty-four primes.
pub const K: [u32; 64] = [
    0x428a2f98, 0x71374491, 0xb5c0fbcf, 0xe9b5dba5, 0x3956c25b, 0x59f111f1, 0x923f82a4, 0xab1c5ed5,
    0xd807aa98, 0x12835b01, 0x243185be, 0x550c7dc3, 0x72be5d74, 0x80deb1fe, 0x9bdc06a7, 0xc19bf174,
    0xe49b69c1, 0xefbe4786, 0x0fc19dc6, 0x240ca1cc, 0x2de92c6f, 0x4a7484aa, 0x5cb0a9dc, 0x76f988da,
    0x983e5152, 0xa831c66d, 0xb00327c8, 0xbf597fc7, 0xc6e00bf3, 0xd5a79147, 0x06ca6351, 0x14292967,
    0x27b70a85, 0x2e1b2138, 0x4d2c6dfc, 0x53380d13, 0x650a7354, 0x766a0abb, 0x81c2c92e, 0x92722c85,
    0xa2bfe8a1, 0xa81a664b, 0xc24b8b70, 0xc76c51a3, 0xd192e819, 0xd6990624, 0xf40e3585, 0x106aa070,
    0x19a4c116, 0x1e376c08, 0x2748774c, 0x34b0bcb5, 0x391c0cb3, 0x4ed8aa4a, 0x5b9cca4f, 0x682e6ff3,
    0x748f82ee, 0x78a5636f, 0x84c87814, 0x8cc70208, 0x90befffa, 0xa4506ceb, 0xbef9a3f7, 0xc67178f2,
];

/// Addition modulo two to the thirty-second.
#[verifier::opaque]
pub open spec fn plus(a: u32, b: u32) -> u32 {
    ((a + b) % 0x1_0000_0000) as u32
}

/// A word with its bits turned to the right.
#[verifier::opaque]
pub open spec fn turned(word: u32, by: u32) -> u32 {
    (word >> by) | (word << (32 - by) as u32)
}

/// The eight working words.
#[derive(Clone, Copy, PartialEq, Eq, Structural, Debug)]
pub struct State {
    pub a: u32,
    pub b: u32,
    pub c: u32,
    pub d: u32,
    pub e: u32,
    pub f: u32,
    pub g: u32,
    pub h: u32,
}

/// Four bytes as a word, the first one highest.
pub open spec fn word_of(bytes: Seq<u8>, at: int) -> u32 {
    (bytes[at] * 0x100_0000 + bytes[at + 1] * 0x1_0000 + bytes[at + 2] * 0x100 + bytes[at
        + 3]) as u32
}

/// The first `n` words of the message schedule of a block.
pub open spec fn schedule(block: Seq<u8>, n: nat) -> Seq<u32>
    decreases n,
{
    if n == 0 {
        Seq::empty()
    } else {
        let before = schedule(block, (n - 1) as nat);
        let t = n - 1;
        if t < 16 {
            before.push(word_of(block, 4 * t))
        } else {
            before.push(next_word(before))
        }
    }
}

/// The word of the schedule after sixteen or more.
pub open spec fn next_word(before: Seq<u32>) -> u32 {
    let t = before.len() as int;
    let x = before[t - 15];
    let y = before[t - 2];
    let s0 = turned(x, 7) ^ turned(x, 18) ^ (x >> 3);
    let s1 = turned(y, 17) ^ turned(y, 19) ^ (y >> 10);
    plus(plus(plus(before[t - 16], s0), before[t - 7]), s1)
}

/// The constant of a round.
#[verifier::opaque]
pub open spec fn spec_key(i: int) -> u32 {
    K@[i]
}

/// One round.
pub open spec fn round(s: State, k: u32, w: u32) -> State {
    let s1 = turned(s.e, 6) ^ turned(s.e, 11) ^ turned(s.e, 25);
    let choice = (s.e & s.f) ^ (!s.e & s.g);
    let first = plus(plus(plus(plus(s.h, s1), choice), k), w);
    let s0 = turned(s.a, 2) ^ turned(s.a, 13) ^ turned(s.a, 22);
    let majority = (s.a & s.b) ^ (s.a & s.c) ^ (s.b & s.c);
    let second = plus(s0, majority);
    State {
        a: plus(first, second),
        b: s.a,
        c: s.b,
        d: s.c,
        e: plus(s.d, first),
        f: s.e,
        g: s.f,
        h: s.g,
    }
}

/// The first `n` rounds.
pub open spec fn rounds(s: State, words: Seq<u32>, n: nat) -> State
    decreases n,
{
    if n == 0 {
        s
    } else {
        round(rounds(s, words, (n - 1) as nat), spec_key(n - 1), words[n - 1])
    }
}

/// What a block makes of the state.
pub open spec fn compressed(s: State, block: Seq<u8>) -> State {
    let r = rounds(s, schedule(block, 64), 64);
    State {
        a: plus(s.a, r.a),
        b: plus(s.b, r.b),
        c: plus(s.c, r.c),
        d: plus(s.d, r.d),
        e: plus(s.e, r.e),
        f: plus(s.f, r.f),
        g: plus(s.g, r.g),
        h: plus(s.h, r.h),
    }
}

/// What the first `n` blocks make of the initial state.
pub open spec fn folded(message: Seq<u8>, n: nat) -> State
    decreases n,
{
    if n == 0 {
        initial()
    } else {
        compressed(
            folded(message, (n - 1) as nat),
            message.subrange(64 * (n - 1), 64 * n as int),
        )
    }
}

/// The fractional parts of the square roots of the first eight primes.
pub open spec fn initial() -> State {
    State {
        a: 0x6a09e667,
        b: 0xbb67ae85,
        c: 0x3c6ef372,
        d: 0xa54ff53a,
        e: 0x510e527f,
        f: 0x9b05688c,
        g: 0x1f83d9ab,
        h: 0x5be0cd19,
    }
}

/// One of the bytes of a number, counted from the lowest.
pub open spec fn byte_of(n: int, at: int) -> u8
    decreases at,
{
    if at <= 0 {
        (n % 256) as u8
    } else {
        byte_of(n / 256, at - 1)
    }
}

/// A number as `n` bytes, the highest first.
pub open spec fn big_endian(value: int, n: nat) -> Seq<u8> {
    Seq::new(n, |i: int| byte_of(value, n - 1 - i))
}

/// How many zeros stand between the end mark and the length.
pub open spec fn zeros(len: int) -> int {
    (119 - len % 64) % 64
}

/// The message with its end mark, its zeros and its length in bits.
pub open spec fn padded(message: Seq<u8>) -> Seq<u8> {
    message.push(0x80) + Seq::new(zeros(message.len() as int) as nat, |i: int| 0u8) + big_endian(
        (8 * message.len() as int) % 0x1_0000_0000_0000_0000,
        8,
    )
}

/// The eight words as bytes.
pub open spec fn state_bytes(s: State) -> Seq<u8> {
    big_endian(s.a as int, 4) + big_endian(s.b as int, 4) + big_endian(s.c as int, 4) + big_endian(
        s.d as int,
        4,
    ) + big_endian(s.e as int, 4) + big_endian(s.f as int, 4) + big_endian(s.g as int, 4)
        + big_endian(s.h as int, 4)
}

/// The digest of a message.
pub open spec fn spec_digest(message: Seq<u8>) -> Seq<u8> {
    let whole = padded(message);
    state_bytes(folded(whole, (whole.len() / 64) as nat))
}

/// Turn the bits of a word to the right.
fn turn(word: u32, by: u32) -> (r: u32)
    requires
        0 < by < 32,
    ensures
        r == turned(word, by),
{
    proof {
        reveal(turned);
    }
    (word >> by) | (word << (32 - by))
}

/// Addition modulo two to the thirty-second.
fn sum(a: u32, b: u32) -> (r: u32)
    ensures
        r == plus(a, b),
{
    proof {
        reveal(plus);
    }
    a.wrapping_add(b)
}

/// One round.
fn mix(s: State, k: u32, w: u32) -> (r: State)
    ensures
        r == round(s, k, w),
{
    let s1: u32 = turn(s.e, 6) ^ turn(s.e, 11) ^ turn(s.e, 25);
    let choice: u32 = (s.e & s.f) ^ (!s.e & s.g);
    let first: u32 = sum(sum(sum(sum(s.h, s1), choice), k), w);
    let s0: u32 = turn(s.a, 2) ^ turn(s.a, 13) ^ turn(s.a, 22);
    let majority: u32 = (s.a & s.b) ^ (s.a & s.c) ^ (s.b & s.c);
    let second: u32 = sum(s0, majority);
    State {
        a: sum(first, second),
        b: s.a,
        c: s.b,
        d: s.c,
        e: sum(s.d, first),
        f: s.e,
        g: s.f,
        h: s.g,
    }
}

/// A constant of a round.
fn key(i: usize) -> (k: u32)
    requires
        i < 64,
    ensures
        k == spec_key(i as int),
{
    proof {
        reveal(spec_key);
    }
    K[i]
}

/// A word of the schedule past the first sixteen.
fn later_word(words: &Vec<u32>) -> (w: u32)
    requires
        16 <= words@.len() < 64,
    ensures
        w == next_word(words@),
{
    let t: usize = words.len();
    let x: u32 = words[t - 15];
    let y: u32 = words[t - 2];
    let s0: u32 = turn(x, 7) ^ turn(x, 18) ^ (x >> 3);
    let s1: u32 = turn(y, 17) ^ turn(y, 19) ^ (y >> 10);
    sum(sum(sum(words[t - 16], s0), words[t - 7]), s1)
}

/// Four bytes as a word, the first one highest.
fn read_word(bytes: &Vec<u8>, at: usize) -> (word: u32)
    requires
        at + 4 <= bytes@.len(),
    ensures
        word == word_of(bytes@, at as int),
{
    let total: usize = bytes.len();
    bytes[at] as u32 * 0x100_0000 + bytes[at + 1] as u32 * 0x1_0000 + bytes[at + 2] as u32 * 0x100
        + bytes[at + 3] as u32
}

/// One 64-byte block of a message into the state.
fn compress(state: State, message: &Vec<u8>, start: usize) -> (r: State)
    requires
        start + 64 <= message@.len(),
    ensures
        r == compressed(state, message@.subrange(start as int, start + 64)),
{
    let ghost block = message@.subrange(start as int, start + 64);
    let total: usize = message.len();
    let mut words: Vec<u32> = Vec::new();
    let mut t: usize = 0;
    while t < 64
        invariant
            t <= 64,
            start + 64 <= total,
            total == message@.len(),
            block == message@.subrange(start as int, start + 64),
            words@ == schedule(block, t as nat),
            words@.len() == t,
        decreases 64 - t,
    {
        if t < 16 {
            words.push(read_word(message, start + 4 * t));
        } else {
            words.push(later_word(&words));
        }
        t = t + 1;
    }
    let mut s: State = state;
    let mut i: usize = 0;
    while i < 64
        invariant
            i <= 64,
            words@.len() == 64,
            s == rounds(state, words@, i as nat),
        decreases 64 - i,
    {
        s = mix(s, key(i), words[i]);
        i = i + 1;
    }
    State {
        a: sum(state.a, s.a),
        b: sum(state.b, s.b),
        c: sum(state.c, s.c),
        d: sum(state.d, s.d),
        e: sum(state.e, s.e),
        f: sum(state.f, s.f),
        g: sum(state.g, s.g),
        h: sum(state.h, s.h),
    }
}

/// Append a number as `n` bytes, the highest first.
fn push_big_endian(out: &mut Vec<u8>, value: u64, n: usize)
    requires
        n <= 8,
    ensures
        final(out)@ == old(out)@ + big_endian(value as int, n as nat),
{
    let ghost before = out@;
    let mut left: usize = n;
    while left > 0
        invariant
            left <= n <= 8,
            out@ == before + big_endian(value as int, n as nat).take(n - left),
        decreases left,
    {
        left = left - 1;
        let mut rest: u64 = value;
        let mut k: usize = 0;
        while k < left
            invariant
                k <= left < 8,
                byte_of(rest as int, left - k) == byte_of(value as int, left as int),
            decreases left - k,
        {
            rest = rest / 256;
            k = k + 1;
        }
        out.push((rest % 256) as u8);
        proof {
            let all = big_endian(value as int, n as nat);
            assert(out@.last() == all[n - left - 1]);
            assert(all.take(n - left) =~= all.take(n - left - 1).push(all[n - left - 1]));
        }
    }
    proof {
        assert(big_endian(value as int, n as nat).take(n as int) =~= big_endian(
            value as int,
            n as nat,
        ));
    }
}

/// The digest of a message.
pub fn digest(bytes: &[u8]) -> (out: [u8; 32])
    requires
        bytes@.len() + 72 <= usize::MAX,
    ensures
        out@ == spec_digest(bytes@),
{
    let message: Vec<u8> = pad(bytes);
    let count: usize = message.len() / 64;
    let mut state: State = State {
        a: 0x6a09e667,
        b: 0xbb67ae85,
        c: 0x3c6ef372,
        d: 0xa54ff53a,
        e: 0x510e527f,
        f: 0x9b05688c,
        g: 0x1f83d9ab,
        h: 0x5be0cd19,
    };
    let mut i: usize = 0;
    while i < count
        invariant
            i <= count,
            64 * count <= message.len(),
            state == folded(message@, i as nat),
        decreases count - i,
    {
        state = compress(state, &message, 64 * i);
        i = i + 1;
    }
    let mut out: Vec<u8> = Vec::new();
    push_big_endian(&mut out, state.a as u64, 4);
    push_big_endian(&mut out, state.b as u64, 4);
    push_big_endian(&mut out, state.c as u64, 4);
    push_big_endian(&mut out, state.d as u64, 4);
    push_big_endian(&mut out, state.e as u64, 4);
    push_big_endian(&mut out, state.f as u64, 4);
    push_big_endian(&mut out, state.g as u64, 4);
    push_big_endian(&mut out, state.h as u64, 4);
    let mut fixed: [u8; 32] = [0; 32];
    let mut k: usize = 0;
    proof {
        assert(out@ =~= state_bytes(state));
    }
    while k < 32
        invariant
            k <= 32,
            out@.len() == 32,
            forall|j: int| 0 <= j < k ==> fixed@[j] == out@[j],
        decreases 32 - k,
    {
        fixed[k] = out[k];
        k = k + 1;
    }
    proof {
        assert(fixed@ =~= out@);
    }
    fixed
}

/// The zeros end where the length fits.
proof fn lemma_zeros(len: int, added: int)
    requires
        0 <= len,
        0 <= added < 64,
    ensures
        0 <= zeros(len) < 64,
        ((len + 1 + added) % 64 == 56) == (added == zeros(len)),
{
}

/// The length of a message in bits.
fn bit_length(len: usize) -> (bits: u64)
    ensures
        bits == (8 * len as int) % 0x1_0000_0000_0000_0000,
{
    (len as u64).wrapping_mul(8)
}

/// The message with its end mark, its zeros and its length in bits.
fn pad(bytes: &[u8]) -> (message: Vec<u8>)
    requires
        bytes@.len() + 72 <= usize::MAX,
    ensures
        message@ == padded(bytes@),
        message@.len() % 64 == 0,
{
    let length_bits: u64 = bit_length(bytes.len());
    let mut message: Vec<u8> = Vec::new();
    message.extend_from_slice(bytes);
    proof {
        assert(message@ =~= bytes@);
    }
    message.push(0x80);
    let ghost marked = message@;
    let ghost want = zeros(bytes@.len() as int);
    let mut added: usize = 0;
    proof {
        lemma_zeros(bytes@.len() as int, 0);
        assert(message@ =~= marked + Seq::new(0, |i: int| 0u8));
    }
    while message.len() % 64 != 56
        invariant
            marked.len() == bytes@.len() + 1,
            bytes@.len() + 72 <= usize::MAX,
            want == zeros(bytes@.len() as int),
            added <= want < 64,
            message@ == marked + Seq::new(added as nat, |i: int| 0u8),
        decreases want - added,
    {
        proof {
            lemma_zeros(bytes@.len() as int, added as int);
        }
        message.push(0);
        added = added + 1;
        proof {
            assert(message@ =~= marked + Seq::new(added as nat, |i: int| 0u8));
        }
    }
    proof {
        lemma_zeros(bytes@.len() as int, added as int);
    }
    push_big_endian(&mut message, length_bits, 8);
    message
}

/// The lowercase hexadecimal digit of a number below sixteen.
pub open spec fn hex_digit(n: int) -> char {
    if n < 10 {
        (0x30 + n) as char
    } else {
        (0x57 + n) as char
    }
}

/// The lowercase hexadecimal digit of a number below sixteen.
fn hex_char(n: u8) -> (c: char)
    requires
        n < 16,
    ensures
        c == hex_digit(n as int),
{
    if n < 10 {
        (0x30 + n) as char
    } else {
        (0x57 + n) as char
    }
}

/// A digest as lowercase hexadecimal, for a file a person will read.
pub fn to_hex(digest: &[u8; 32]) -> (text: String)
    ensures
        text@ == Seq::new(
            64,
            |i: int|
                if i % 2 == 0 {
                    hex_digit(digest@[i / 2] as int / 16)
                } else {
                    hex_digit(digest@[i / 2] as int % 16)
                },
        ),
{
    let ghost all = Seq::new(
        64,
        |i: int|
            if i % 2 == 0 {
                hex_digit(digest@[i / 2] as int / 16)
            } else {
                hex_digit(digest@[i / 2] as int % 16)
            },
    );
    let mut text: String = String::new();
    let mut i: usize = 0;
    while i < 32
        invariant
            i <= 32,
            text@ == all.take(2 * i as int),
            all.len() == 64,
            forall|k: int|
                0 <= k < 64 ==> #[trigger] all[k] == if k % 2 == 0 {
                    hex_digit(digest@[k / 2] as int / 16)
                } else {
                    hex_digit(digest@[k / 2] as int % 16)
                },
        decreases 32 - i,
    {
        let byte: u8 = digest[i];
        push_char(&mut text, hex_char(byte / 16));
        push_char(&mut text, hex_char(byte % 16));
        proof {
            assert(text@ =~= all.take(2 * i as int + 2));
        }
        i = i + 1;
    }
    proof {
        assert(all.take(64) =~= all);
    }
    text
}

} // verus!
