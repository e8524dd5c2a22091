//! Base64 with the standard alphabet and `=` padding: how file data travels inside a JSON frame.

use crate::text::chars_of;
use vstd::prelude::*;

verus! {

/// The character for the six bits `v`.
pub open spec fn b64_char(v: int) -> char {
    if v < 26 {
        (65 + v) as char
    } else if v < 52 {
        (71 + v) as char
    } else if v < 62 {
        (v - 4) as char
    } else if v == 62 {
        '+'
    } else {
        '/'
    }
}

/// The six bits that a character stands for; nothing for a character outside the alphabet.
pub open spec fn b64_value(c: char) -> Option<int> {
    if 'A' <= c && c <= 'Z' {
        Some(c as int - 65)
    } else if 'a' <= c && c <= 'z' {
        Some(c as int - 71)
    } else if '0' <= c && c <= '9' {
        Some(c as int + 4)
    } else if c == '+' {
        Some(62)
    } else if c == '/' {
        Some(63)
    } else {
        None
    }
}

/// The text for a run of bytes: four characters for every three bytes, padded with `=` at the end.
pub open spec fn encoded(b: Seq<u8>) -> Seq<char>
    decreases b.len(),
{
    if b.len() == 0 {
        Seq::empty()
    } else if b.len() == 1 {
        seq![b64_char(b[0] as int / 4), b64_char(b[0] % 4 * 16), '=', '=']
    } else if b.len() == 2 {
        seq![
            b64_char(b[0] as int / 4),
            b64_char(b[0] % 4 * 16 + b[1] / 16),
            b64_char(b[1] % 16 * 4),
            '=',
        ]
    } else {
        seq![
            b64_char(b[0] as int / 4),
            b64_char(b[0] % 4 * 16 + b[1] / 16),
            b64_char(b[1] % 16 * 4 + b[2] / 64),
            b64_char(b[2] as int % 64),
        ] + encoded(b.skip(3))
    }
}

/// The six-bit values in a text: up to the first `=`, passing over characters outside the alphabet.
pub open spec fn sextets(s: Seq<char>) -> Seq<int>
    decreases s.len(),
{
    if s.len() == 0 || s[0] == '=' {
        Seq::empty()
    } else {
        match b64_value(s[0]) {
            Some(v) => seq![v] + sextets(s.skip(1)),
            None => sextets(s.skip(1)),
        }
    }
}

/// The bytes in a run of six-bit values: three for every four of them, and as many whole bytes as
/// the rest holds.
pub open spec fn packed(v: Seq<int>) -> Seq<u8>
    decreases v.len(),
{
    if v.len() < 2 {
        Seq::empty()
    } else if v.len() == 2 {
        seq![(v[0] * 4 + v[1] / 16) as u8]
    } else if v.len() == 3 {
        seq![(v[0] * 4 + v[1] / 16) as u8, (v[1] % 16 * 16 + v[2] / 4) as u8]
    } else {
        seq![
            (v[0] * 4 + v[1] / 16) as u8,
            (v[1] % 16 * 16 + v[2] / 4) as u8,
            (v[2] % 4 * 64 + v[3]) as u8,
        ] + packed(v.skip(4))
    }
}

/// The bytes that a text stands for.
pub open spec fn decoded(s: Seq<char>) -> Seq<u8> {
    packed(sextets(s))
}

proof fn lemma_char_value(v: int)
    requires
        0 <= v < 64,
    ensures
        b64_char(v) != '=',
        b64_value(b64_char(v)) == Some(v),
{
}

proof fn lemma_sextets_digit(v: int, rest: Seq<char>)
    requires
        0 <= v < 64,
    ensures
        sextets(seq![b64_char(v)] + rest) == seq![v] + sextets(rest),
{
    lemma_char_value(v);
    let s = seq![b64_char(v)] + rest;
    assert(s.skip(1) =~= rest);
}

proof fn lemma_sextets_quad(a: int, b: int, c: int, d: int, rest: Seq<char>)
    requires
        0 <= a < 64,
        0 <= b < 64,
        0 <= c < 64,
        0 <= d < 64,
    ensures
        sextets(seq![b64_char(a), b64_char(b), b64_char(c), b64_char(d)] + rest) == seq![a, b, c, d]
            + sextets(rest),
{
    let r1 = seq![b64_char(d)] + rest;
    let r2 = seq![b64_char(c)] + r1;
    let r3 = seq![b64_char(b)] + r2;
    lemma_sextets_digit(d, rest);
    lemma_sextets_digit(c, r1);
    lemma_sextets_digit(b, r2);
    lemma_sextets_digit(a, r3);
    assert(seq![b64_char(a), b64_char(b), b64_char(c), b64_char(d)] + rest =~= seq![b64_char(a)]
        + r3);
    assert(seq![a] + (seq![b] + (seq![c] + (seq![d] + sextets(rest)))) =~= seq![a, b, c, d]
        + sextets(rest));
}

/// Decoding gives back what was encoded, whatever the bytes.
#[verifier::spinoff_prover]
#[verifier::rlimit(30)]
pub proof fn decoding_undoes_encoding(b: Seq<u8>)
    ensures
        decoded(encoded(b)) == b,
    decreases b.len(),
{
    if b.len() == 0 {
        assert(decoded(encoded(b)) =~= b);
    } else if b.len() == 1 {
        let (x, y) = (b[0] as int / 4, b[0] as int % 4 * 16);
        let t1 = seq!['=', '='];
        let t2 = seq![b64_char(y)] + t1;
        lemma_sextets_digit(y, t1);
        lemma_sextets_digit(x, t2);
        assert(encoded(b) =~= seq![b64_char(x)] + t2);
        assert(sextets(t1) =~= Seq::<int>::empty());
        assert(sextets(encoded(b)) =~= seq![x, y]);
        assert(decoded(encoded(b)) =~= b);
    } else if b.len() == 2 {
        let (x, y, z) = (
            b[0] as int / 4,
            b[0] as int % 4 * 16 + b[1] as int / 16,
            b[1] as int % 16 * 4,
        );
        let t1 = seq!['='];
        let t2 = seq![b64_char(z)] + t1;
        let t3 = seq![b64_char(y)] + t2;
        lemma_sextets_digit(z, t1);
        lemma_sextets_digit(y, t2);
        lemma_sextets_digit(x, t3);
        assert(encoded(b) =~= seq![b64_char(x)] + t3);
        assert(sextets(t1) =~= Seq::<int>::empty());
        assert(sextets(encoded(b)) =~= seq![x, y, z]);
        assert(decoded(encoded(b)) =~= b);
    } else {
        let (x, y, z, w) = (
            b[0] as int / 4,
            b[0] as int % 4 * 16 + b[1] as int / 16,
            b[1] as int % 16 * 4 + b[2] as int / 64,
            b[2] as int % 64,
        );
        let rest = b.skip(3);
        decoding_undoes_encoding(rest);
        lemma_sextets_quad(x, y, z, w, encoded(rest));
        let v = sextets(encoded(b));
        assert(v == seq![x, y, z, w] + sextets(encoded(rest)));
        assert(v.skip(4) =~= sextets(encoded(rest)));
        assert(decoded(encoded(b)) =~= b);
    }
}

/// Four characters stand for every three bytes begun.
pub proof fn encoded_length(b: Seq<u8>)
    ensures
        encoded(b).len() == (b.len() + 2) / 3 * 4,
    decreases b.len(),
{
    if b.len() >= 3 {
        encoded_length(b.skip(3));
    }
}

/// The character for the six bits `v`.
fn digit_char(v: u8) -> (c: char)
    requires
        v < 64,
    ensures
        c == b64_char(v as int),
{
    if v < 26 {
        (65u8 + v) as char
    } else if v < 52 {
        (71u8 + v) as char
    } else if v < 62 {
        (v - 4u8) as char
    } else if v == 62 {
        '+'
    } else {
        '/'
    }
}

/// The text for a run of bytes.
pub fn base64_encode(input: &[u8]) -> (out: String)
    ensures
        out@ == encoded(input@),
{
    let mut out = String::new();
    let mut i: usize = 0;
    assert(input@.skip(0) =~= input@);
    while input.len() - i >= 3
        invariant
            i <= input.len(),
            out@ + encoded(input@.skip(i as int)) == encoded(input@),
        decreases input.len() - i,
    {
        let (a, b, c): (u8, u8, u8) = (input[i], input[i + 1], input[i + 2]);
        let ghost was = out@;
        let ghost rest = input@.skip(i as int);
        out.push(digit_char(a / 4));
        out.push(digit_char(a % 4 * 16 + b / 16));
        out.push(digit_char(b % 16 * 4 + c / 64));
        out.push(digit_char(c % 64));
        i += 3;
        assert(rest.skip(3) =~= input@.skip(i as int));
        assert(out@ + encoded(rest.skip(3)) =~= was + encoded(rest));
    }
    let ghost was = out@;
    let ghost rest = input@.skip(i as int);
    if input.len() - i == 1 {
        let a: u8 = input[i];
        out.push(digit_char(a / 4));
        out.push(digit_char(a % 4 * 16));
        out.push('=');
        out.push('=');
    } else if input.len() - i == 2 {
        let (a, b): (u8, u8) = (input[i], input[i + 1]);
        out.push(digit_char(a / 4));
        out.push(digit_char(a % 4 * 16 + b / 16));
        out.push(digit_char(b % 16 * 4));
        out.push('=');
    }
    assert(out@ =~= was + encoded(rest));
    out
}

/// The six-bit values in a text.
fn sextets_of(s: &str) -> (out: Vec<u8>)
    ensures
        Seq::new(out@.len(), |i: int| out@[i] as int) == sextets(s@),
        forall|i: int| 0 <= i < out@.len() ==> #[trigger] out@[i] < 64,
{
    let v = chars_of(s);
    let mut out: Vec<u8> = Vec::new();
    let mut i: usize = 0;
    assert(v@.skip(0) =~= v@);
    assert(Seq::new(out@.len(), |i: int| out@[i] as int) + sextets(v@.skip(0)) =~= sextets(s@));
    while i < v.len() && v[i] != '='
        invariant
            i <= v.len(),
            v@ == s@,
            Seq::new(out@.len(), |i: int| out@[i] as int) + sextets(v@.skip(i as int)) == sextets(
                s@,
            ),
            forall|i: int| 0 <= i < out@.len() ==> #[trigger] out@[i] < 64,
        decreases v.len() - i,
    {
        let c = v[i];
        let ghost was = out@;
        assert(v@.skip(i as int).skip(1) =~= v@.skip(i as int + 1));
        let d: u32 = c as u32;
        let digit: u8 = if 'A' <= c && c <= 'Z' {
            (d - 65) as u8
        } else if 'a' <= c && c <= 'z' {
            (d - 71) as u8
        } else if '0' <= c && c <= '9' {
            (d + 4) as u8
        } else if c == '+' {
            62
        } else if c == '/' {
            63
        } else {
            64
        };
        if digit < 64 {
            out.push(digit);
        }
        assert(Seq::new(out@.len(), |i: int| out@[i] as int) + sextets(v@.skip(i as int + 1))
            =~= Seq::new(was.len(), |i: int| was[i] as int) + sextets(v@.skip(i as int)));
        i += 1;
    }
    assert(sextets(v@.skip(i as int)) =~= Seq::<int>::empty());
    assert(Seq::new(out@.len(), |i: int| out@[i] as int) =~= sextets(s@));
    out
}

/// The bytes that a text stands for. Decoding stops at the first `=`; characters outside the
/// alphabet are passed over.
pub fn base64_decode(input: &str) -> (out: Vec<u8>)
    ensures
        out@ == decoded(input@),
{
    let v = sextets_of(input);
    let ghost vals = sextets(input@);
    let mut out: Vec<u8> = Vec::new();
    let mut i: usize = 0;
    assert(vals.skip(0) =~= vals);
    while v.len() - i >= 4
        invariant
            i <= v.len(),
            vals == Seq::new(v@.len(), |i: int| v@[i] as int),
            forall|i: int| 0 <= i < v@.len() ==> #[trigger] v@[i] < 64,
            out@ + packed(vals.skip(i as int)) == packed(vals),
        decreases v.len() - i,
    {
        let (a, b, c, d): (u8, u8, u8, u8) = (v[i], v[i + 1], v[i + 2], v[i + 3]);
        let ghost was = out@;
        let ghost rest = vals.skip(i as int);
        out.push(a * 4 + b / 16);
        out.push(b % 16 * 16 + c / 4);
        out.push(c % 4 * 64 + d);
        i += 4;
        assert(rest.skip(4) =~= vals.skip(i as int));
        assert(out@ + packed(rest.skip(4)) =~= was + packed(rest));
    }
    let ghost was = out@;
    let ghost rest = vals.skip(i as int);
    if v.len() - i >= 2 {
        let (a, b): (u8, u8) = (v[i], v[i + 1]);
        out.push(a * 4 + b / 16);
        if v.len() - i == 3 {
            let c: u8 = v[i + 2];
            out.push(b % 16 * 16 + c / 4);
        }
    }
    assert(out@ =~= was + packed(rest));
    out
}

/// The alphabet is the usual one: the upper-case letters, the lower-case letters, the digits, `+` and
/// `/`, in this order.
pub proof fn the_alphabet_is_the_usual_one(v: int)
    requires
        0 <= v < 64,
    ensures
        v < 26 ==> b64_char(v) as u32 == 'A' as u32 + v,
        26 <= v < 52 ==> b64_char(v) as u32 == 'a' as u32 + (v - 26),
        52 <= v < 62 ==> b64_char(v) as u32 == '0' as u32 + (v - 52),
        v == 62 ==> b64_char(v) == '+',
        v == 63 ==> b64_char(v) == '/',
        b64_value(b64_char(v)) == Some(v),
{
    lemma_char_value(v);
}

/// Three bytes are written as four characters, which stand for the same number of 24 bits, six bits
/// each from the highest on; one or two bytes at the end are filled up with zero bits, and with `=`
/// in place of the characters that hold nothing else.
pub proof fn three_bytes_are_four_characters(b: Seq<u8>)
    requires
        b.len() > 0,
    ensures
        ({
            let n = b[0] * 65_536 + (if b.len() > 1 { b[1] * 256 } else { 0 }) + (if b.len() > 2 {
                b[2] as int
            } else {
                0
            });
            let s = encoded(b);
            &&& s.len() >= 4
            &&& s[0] == b64_char(n / 262_144)
            &&& s[1] == b64_char(n / 4_096 % 64)
            &&& s[2] == (if b.len() > 1 { b64_char(n / 64 % 64) } else { '=' })
            &&& s[3] == (if b.len() > 2 { b64_char(n % 64) } else { '=' })
            &&& b.len() > 3 ==> s.skip(4) == encoded(b.skip(3))
            &&& b.len() <= 3 ==> s.len() == 4
        }),
{
    let s = encoded(b);
    let x = b[0];
    let y = if b.len() > 1 { b[1] } else { 0u8 };
    let z = if b.len() > 2 { b[2] } else { 0u8 };
    lemma_six_bits(x, y, z);
    if b.len() >= 3 {
        assert(s.skip(4) =~= encoded(b.skip(3)));
    }
}

proof fn lemma_six_bits(x: u8, y: u8, z: u8)
    ensures
        ({
            let n = x * 65_536 + y * 256 + z;
            &&& n / 262_144 == x as int / 4
            &&& n / 4_096 % 64 == x % 4 * 16 + y / 16
            &&& n / 64 % 64 == y % 16 * 4 + z / 64
            &&& n % 64 == z as int % 64
        }),
{
    let n = x * 65_536 + y * 256 + z;
    let (a, b) = (x as int / 4, x as int % 4);
    let (c, d) = (y as int / 16, y as int % 16);
    let (e, f) = (z as int / 64, z as int % 64);
    assert(n == a * 262_144 + b * 65_536 + c * 4_096 + d * 256 + e * 64 + f);
    assert(n / 262_144 == a);
    assert(n / 4_096 == a * 64 + b * 16 + c);
    assert((a * 64 + b * 16 + c) % 64 == b * 16 + c);
    assert(n / 64 == a * 4_096 + b * 1_024 + c * 64 + d * 4 + e);
    assert((a * 4_096 + b * 1_024 + c * 64 + d * 4 + e) % 64 == d * 4 + e);
}

/// Characters outside the alphabet are passed over, and nothing is read behind the first `=`.
pub proof fn other_characters_are_passed_over(a: Seq<char>, c: char, b: Seq<char>)
    requires
        forall|i: int| 0 <= i < a.len() ==> #[trigger] a[i] != '=',
        !('A' <= c && c <= 'Z'),
        !('a' <= c && c <= 'z'),
        !('0' <= c && c <= '9'),
        c != '+',
        c != '/',
    ensures
        c != '=' ==> decoded(a + seq![c] + b) == decoded(a + b),
        c == '=' ==> decoded(a + seq![c] + b) == decoded(a),
{
    lemma_passed_over(a, c, b);
}

proof fn lemma_passed_over(a: Seq<char>, c: char, b: Seq<char>)
    requires
        forall|i: int| 0 <= i < a.len() ==> #[trigger] a[i] != '=',
        c == '=' || b64_value(c) is None,
    ensures
        c != '=' ==> sextets(a + seq![c] + b) == sextets(a + b),
        c == '=' ==> sextets(a + seq![c] + b) == sextets(a),
    decreases a.len(),
{
    let s = a + seq![c] + b;
    if a.len() == 0 {
        assert(s[0] == c);
        assert(s.skip(1) =~= b);
        assert(a + b =~= b);
    } else {
        let t = a.skip(1);
        assert forall|i: int| 0 <= i < t.len() implies #[trigger] t[i] != '=' by {
            assert(t[i] == a[i + 1]);
        }
        lemma_passed_over(t, c, b);
        assert(s[0] == a[0] && a[0] != '=');
        assert(s.skip(1) =~= t + seq![c] + b);
        assert((a + b).skip(1) =~= t + b);
        assert((a + b)[0] == a[0]);
    }
}

} // verus!
