//! Base64, as used by the OSC 52 clipboard sequence.

use vstd::prelude::*;
use vstd::string::*;

verus! {

/// The digit of a six bit value.
pub open spec fn symbol(value: int) -> char {
    if value < 26 {
        (65 + value) as char
    } else if value < 52 {
        (97 + value - 26) as char
    } else if value < 62 {
        (48 + value - 52) as char
    } else if value == 62 {
        '+'
    } else {
        '/'
    }
}

/// The four symbols of up to three bytes. The bytes are read as one number in
/// base 256, filled up with zeros, which is then written in base 64; a symbol
/// that holds no bit of the input is an equals sign.
pub open spec fn quad(bytes: Seq<u8>) -> Seq<char> {
    let first = bytes[0] as int;
    let second = if bytes.len() > 1 { bytes[1] as int } else { 0 };
    let third = if bytes.len() > 2 { bytes[2] as int } else { 0 };
    let number = first * 65536 + second * 256 + third;
    seq![
        symbol(number / 262144),
        symbol((number / 4096) % 64),
        if bytes.len() > 1 { symbol((number / 64) % 64) } else { '=' },
        if bytes.len() > 2 { symbol(number % 64) } else { '=' },
    ]
}

/// The base64 text of a byte string.
pub open spec fn base64(bytes: Seq<u8>) -> Seq<char>
    decreases bytes.len(),
{
    if bytes.len() == 0 {
        Seq::empty()
    } else if bytes.len() <= 3 {
        quad(bytes)
    } else {
        quad(bytes.take(3)) + base64(bytes.skip(3))
    }
}

/// The base64 text has four characters for every three bytes or part of them.
pub proof fn base64_length(bytes: Seq<u8>)
    ensures
        base64(bytes).len() == (bytes.len() + 2) / 3 * 4,
    decreases bytes.len(),
{
    if bytes.len() > 3 {
        base64_length(bytes.skip(3));
    }
}

/// The value of a base64 digit.
pub open spec fn symbol_value(c: char) -> int {
    let n = c as int;
    if 65 <= n && n <= 90 {
        n - 65
    } else if 97 <= n && n <= 122 {
        n - 97 + 26
    } else if 48 <= n && n <= 57 {
        n - 48 + 52
    } else if c == '+' {
        62
    } else {
        63
    }
}

/// The bytes that four symbols stand for.
pub open spec fn unquad(q: Seq<char>) -> Seq<u8> {
    let a = symbol_value(q[0]);
    let b = symbol_value(q[1]);
    let c = if q[2] == '=' { 0 } else { symbol_value(q[2]) };
    let d = if q[3] == '=' { 0 } else { symbol_value(q[3]) };
    let number = a * 262144 + b * 4096 + c * 64 + d;
    let first = (number / 65536) as u8;
    let second = ((number / 256) % 256) as u8;
    let third = (number % 256) as u8;
    if q[2] == '=' {
        seq![first]
    } else if q[3] == '=' {
        seq![first, second]
    } else {
        seq![first, second, third]
    }
}

/// The bytes that a base64 text stands for.
pub open spec fn unbase64(text: Seq<char>) -> Seq<u8>
    decreases text.len(),
{
    if text.len() < 4 {
        Seq::empty()
    } else {
        unquad(text.take(4)) + unbase64(text.skip(4))
    }
}

proof fn lemma_symbol(value: int)
    requires
        0 <= value < 64,
    ensures
        symbol_value(symbol(value)) == value,
        symbol(value) != '=',
{
}

/// Three bytes as one number, taken apart in base 64 and in base 256.
proof fn lemma_number(first: u8, second: u8, third: u8) -> (number: u32)
    ensures
        number == first * 65536 + second * 256 + third,
        number / 262144 < 64,
        number / 262144 * 262144 + (number / 4096) % 64 * 4096 + (number / 64) % 64 * 64 + number
            % 64 == number,
        number / 65536 == first,
        (number / 256) % 256 == second,
        number % 256 == third,
        third == 0 ==> number % 64 == 0,
        third == 0 && second == 0 ==> (number / 64) % 64 == 0,
        number / 262144 == first >> 2u8,
        (number / 4096) % 64 == ((first & 3u8) << 4u8) | (second >> 4u8),
        (number / 64) % 64 == ((second & 15u8) << 2u8) | (third >> 6u8),
        number % 64 == third & 63u8,
{
    let number: u32 = (first as u32 * 65536 + second as u32 * 256 + third as u32) as u32;
    assert(number / 262144 < 64 && number / 262144 * 262144 + (number / 4096) % 64 * 4096 + (number
        / 64) % 64 * 64 + number % 64 == number && number / 65536 == first && (number / 256) % 256
        == second && number % 256 == third && (third == 0 ==> number % 64 == 0) && (third == 0
        && second == 0 ==> (number / 64) % 64 == 0)) by (bit_vector)
        requires
            number == first as u32 * 65536 + second as u32 * 256 + third as u32,
    ;
    assert(number / 262144 == first >> 2u8 && (number / 4096) % 64 == ((first & 3u8) << 4u8) | (
    second >> 4u8) && (number / 64) % 64 == ((second & 15u8) << 2u8) | (third >> 6u8) && number % 64
        == third & 63u8) by (bit_vector)
        requires
            number == first as u32 * 65536 + second as u32 * 256 + third as u32,
    ;
    number
}

proof fn lemma_unquad(bytes: Seq<u8>)
    requires
        1 <= bytes.len() <= 3,
    ensures
        unquad(quad(bytes)) == bytes,
{
    let first = bytes[0];
    let second = if bytes.len() > 1 { bytes[1] } else { 0 };
    let third = if bytes.len() > 2 { bytes[2] } else { 0 };
    let number = lemma_number(first, second, third);
    lemma_symbol((number / 262144) as int);
    lemma_symbol(((number / 4096) % 64) as int);
    lemma_symbol(((number / 64) % 64) as int);
    lemma_symbol((number % 64) as int);
    assert(unquad(quad(bytes)) =~= bytes);
}

/// Reading back a base64 text gives the bytes that it was made of.
pub proof fn base64_reads_back(bytes: Seq<u8>)
    ensures
        unbase64(base64(bytes)) == bytes,
    decreases bytes.len(),
{
    if bytes.len() == 0 {
        assert(unbase64(base64(bytes)) =~= bytes);
    } else if bytes.len() <= 3 {
        lemma_unquad(bytes);
        let text = base64(bytes);
        assert(text.take(4) =~= quad(bytes));
        assert(unbase64(text.skip(4)) =~= Seq::<u8>::empty());
        assert(unbase64(text) =~= bytes);
    } else {
        let head = bytes.take(3);
        let text = base64(bytes);
        lemma_unquad(head);
        base64_reads_back(bytes.skip(3));
        assert(text.take(4) =~= quad(head));
        assert(text.skip(4) =~= base64(bytes.skip(3)));
        assert(unbase64(text) =~= head + bytes.skip(3));
        assert(head + bytes.skip(3) =~= bytes);
    }
}

/// The digit of a six bit value.
fn base64_symbol(value: u8) -> (r: char)
    requires
        value < 64,
    ensures
        r == symbol(value as int),
{
    if value < 26 {
        (65 + value) as char
    } else if value < 52 {
        (97 + (value - 26)) as char
    } else if value < 62 {
        (48 + (value - 52)) as char
    } else if value == 62 {
        '+'
    } else {
        '/'
    }
}

/// Encodes a byte string in base64 with padding.
pub fn base64_encode(bytes: &[u8]) -> (r: String)
    ensures
        r@ == base64(bytes@),
{
    let mut encoded = String::new();
    let mut i: usize = 0;
    assert(bytes@.skip(0) =~= bytes@);
    assert(encoded@ + base64(bytes@.skip(0)) =~= base64(bytes@));
    while i < bytes.len()
        invariant
            i <= bytes@.len(),
            encoded@ + base64(bytes@.skip(i as int)) == base64(bytes@),
        decreases bytes@.len() - i,
    {
        let ghost rest = bytes@.skip(i as int);
        let ghost head = encoded@;
        let left: usize = bytes.len() - i;
        let first: u8 = bytes[i];
        let second: u8 = if left > 1 { bytes[i + 1] } else { 0 };
        let third: u8 = if left > 2 { bytes[i + 2] } else { 0 };
        proof {
            let number = lemma_number(first, second, third);
        }
        encoded.push(base64_symbol(first >> 2));
        encoded.push(base64_symbol(((first & 3) << 4) | (second >> 4)));
        if left > 1 {
            encoded.push(base64_symbol(((second & 15) << 2) | (third >> 6)));
        } else {
            encoded.push('=');
        }
        if left > 2 {
            encoded.push(base64_symbol(third & 63));
        } else {
            encoded.push('=');
        }
        let step: usize = if left < 3 { left } else { 3 };
        proof {
            let chunk = rest.take(step as int);
            assert(encoded@ =~= head + quad(chunk));
            if left <= 3 {
                assert(chunk =~= rest);
                assert(base64(bytes@.skip(i + step)) =~= Seq::<char>::empty());
                assert(encoded@ + base64(bytes@.skip(i + step)) =~= head + base64(rest));
            } else {
                assert(rest.skip(3) =~= bytes@.skip(i + 3));
                assert(encoded@ + base64(bytes@.skip(i + 3)) =~= head + (quad(chunk) + base64(
                    rest.skip(3),
                )));
            }
        }
        i = i + step;
    }
    assert(base64(bytes@.skip(i as int)) =~= Seq::<char>::empty());
    assert(encoded@ =~= base64(bytes@));
    encoded
}

} // verus!
