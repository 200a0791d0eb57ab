//! Percent-encoding for URLs.

use vstd::prelude::*;

verus! {

/// Whether a byte stands for itself: an ASCII letter or digit, or one of
/// `-` `.` `_` `~`; the separator `/` too where paths are encoded whole.
pub open spec fn plain_byte(b: u8, slash: bool) -> bool {
    (65 <= b && b <= 90) || (97 <= b && b <= 122) || (48 <= b && b <= 57) || b == 45 || b == 46
        || b == 95 || b == 126 || (slash && b == 47)
}

/// The digit for a value below sixteen, in upper case.
pub open spec fn upper_hex(d: u8) -> char {
    if d < 10 {
        ((48 + d) as u8) as char
    } else {
        ((55 + d) as u8) as char
    }
}

/// One byte encoded: itself, or a percent sign and its two hexadecimal digits.
pub open spec fn escaped(b: u8, slash: bool) -> Seq<char> {
    if plain_byte(b, slash) {
        seq![b as char]
    } else {
        seq!['%', upper_hex(b / 16), upper_hex(b % 16)]
    }
}

/// Bytes encoded one after the other.
pub open spec fn encoded(bytes: Seq<u8>, slash: bool) -> Seq<char>
    decreases bytes.len(),
{
    if bytes.len() == 0 {
        Seq::<char>::empty()
    } else {
        encoded(bytes.drop_last(), slash) + escaped(bytes.last(), slash)
    }
}

/// A text encoded by its UTF-8 bytes.
pub open spec fn encoded_text(s: Seq<char>, slash: bool) -> Seq<char> {
    encoded(vstd::utf8::encode_utf8(s), slash)
}

fn upper_hex_digit(d: u8) -> (r: char)
    requires
        d < 16,
    ensures
        r == upper_hex(d),
{
    if d < 10 {
        (48 + d) as char
    } else {
        (55 + d) as char
    }
}

/// A text encoded by its UTF-8 bytes.
pub fn encode(s: &str, slash: bool) -> (r: String)
    ensures
        r@ == encoded_text(s@, slash),
{
    let bytes = s.as_bytes();
    let mut out = String::new();
    let mut i: usize = 0;
    assert(out@ =~= encoded(bytes@.take(0), slash));
    while i < bytes.len()
        invariant
            i <= bytes.len(),
            out@ == encoded(bytes@.take(i as int), slash),
        decreases bytes.len() - i,
    {
        let b: u8 = bytes[i];
        let ghost before = out@;
        proof {
            assert(bytes@.take(i + 1).drop_last() =~= bytes@.take(i as int));
            assert(bytes@.take(i + 1).last() == b);
        }
        if (65 <= b && b <= 90) || (97 <= b && b <= 122) || (48 <= b && b <= 57) || b == 45 || b
            == 46 || b == 95 || b == 126 || (slash && b == 47) {
            out.push(b as char);
        } else {
            out.push('%');
            out.push(upper_hex_digit(b / 16));
            out.push(upper_hex_digit(b % 16));
        }
        assert(out@ =~= before + escaped(b, slash));
        i += 1;
    }
    assert(bytes@.take(i as int) =~= bytes@);
    out
}

/// Whether a character may stand in an encoded text.
pub open spec fn url_safe(c: char, slash: bool) -> bool {
    c == '%' || ('A' <= c && c <= 'Z') || ('a' <= c && c <= 'z') || ('0' <= c && c <= '9') || c == '-'
        || c == '.' || c == '_' || c == '~' || (slash && c == '/')
}

/// An encoded text holds nothing but unreserved characters and escapes.
pub proof fn law_encoded_is_url_safe(bytes: Seq<u8>, slash: bool)
    ensures
        forall|i: int| 0 <= i < encoded(bytes, slash).len() ==> url_safe(#[trigger] encoded(bytes, slash)[i], slash),
    decreases bytes.len(),
{
    if bytes.len() > 0 {
        law_encoded_is_url_safe(bytes.drop_last(), slash);
        let head = encoded(bytes.drop_last(), slash);
        let tail = escaped(bytes.last(), slash);
        let all = encoded(bytes, slash);
        assert forall|i: int| 0 <= i < all.len() implies url_safe(#[trigger] all[i], slash) by {
            if i < head.len() {
                assert(all[i] == head[i]);
            } else {
                assert(all[i] == tail[i - head.len()]);
            }
        }
    }
}

/// The value of a hexadecimal digit.
pub open spec fn hex_value(c: char) -> nat {
    if '0' <= c && c <= '9' {
        (c as u32 - '0' as u32) as nat
    } else {
        (c as u32 - 'A' as u32 + 10) as nat
    }
}

/// The bytes that an encoded text stands for: an escape is the byte of its two digits,
/// any other character is itself.
pub open spec fn decoded(s: Seq<char>) -> Seq<u8>
    decreases s.len(),
{
    if s.len() == 0 {
        Seq::<u8>::empty()
    } else if s[0] == '%' && s.len() >= 3 {
        seq![(16 * hex_value(s[1]) + hex_value(s[2])) as u8] + decoded(s.skip(3))
    } else {
        seq![s[0] as u8] + decoded(s.skip(1))
    }
}

proof fn lemma_decode_one(b: u8, slash: bool, rest: Seq<char>)
    ensures
        decoded(escaped(b, slash) + rest) == seq![b] + decoded(rest),
{
    let s = escaped(b, slash) + rest;
    if plain_byte(b, slash) {
        assert(s[0] == b as char);
        assert(s.skip(1) =~= rest);
        assert((b as char) as u8 == b);
        assert(b as char != '%');
    } else {
        assert(s[0] == '%' && s[1] == upper_hex(b / 16) && s[2] == upper_hex(b % 16));
        assert(s.skip(3) =~= rest);
        lemma_hex_digit(b / 16);
        lemma_hex_digit(b % 16);
        assert(16 * (b / 16) + b % 16 == b);
    }
}

proof fn lemma_hex_digit(d: u8)
    requires
        d < 16,
    ensures
        hex_value(upper_hex(d)) == d,
{
}

proof fn lemma_encoded_front(bytes: Seq<u8>, slash: bool)
    requires
        bytes.len() > 0,
    ensures
        encoded(bytes, slash) == escaped(bytes[0], slash) + encoded(bytes.skip(1), slash),
    decreases bytes.len(),
{
    if bytes.len() == 1 {
        assert(bytes.drop_last() =~= Seq::<u8>::empty());
        assert(bytes.skip(1) =~= Seq::<u8>::empty());
        assert(encoded(bytes.drop_last(), slash) =~= Seq::<char>::empty());
        assert(encoded(bytes, slash) =~= escaped(bytes[0], slash));
    } else {
        let less = bytes.drop_last();
        lemma_encoded_front(less, slash);
        assert(bytes.skip(1).drop_last() =~= less.skip(1));
        assert(bytes.skip(1).last() == bytes.last());
        assert(encoded(bytes, slash) =~= escaped(bytes[0], slash) + encoded(bytes.skip(1), slash));
    }
}

/// Decoding gives back what was encoded, so that different texts never get the same
/// address.
pub proof fn law_decoding_undoes_encoding(bytes: Seq<u8>, slash: bool)
    ensures
        decoded(encoded(bytes, slash)) == bytes,
    decreases bytes.len(),
{
    if bytes.len() > 0 {
        lemma_encoded_front(bytes, slash);
        lemma_decode_one(bytes[0], slash, encoded(bytes.skip(1), slash));
        law_decoding_undoes_encoding(bytes.skip(1), slash);
        assert(seq![bytes[0]] + bytes.skip(1) =~= bytes);
    }
}

/// A path keeps its separators, and nothing else is a separator in it.
pub proof fn law_separators_are_kept(bytes: Seq<u8>)
    ensures
        encoded(bytes, true).filter(|c: char| c == '/').len() == bytes.filter(
            |b: u8| b == 47,
        ).len(),
    decreases bytes.len(),
{
    reveal(Seq::filter);
    if bytes.len() > 0 {
        let head = encoded(bytes.drop_last(), true);
        let b = bytes.last();
        let sep = |c: char| c == '/';
        law_separators_are_kept(bytes.drop_last());
        if plain_byte(b, true) {
            let all = encoded(bytes, true);
            assert(all =~= head.push(b as char));
            assert(all.drop_last() =~= head);
            assert((b as char == '/') == (b == 47));
        } else {
            let one = head.push('%');
            let two = one.push(upper_hex(b / 16));
            let three = two.push(upper_hex(b % 16));
            assert(encoded(bytes, true) =~= three);
            assert(three.drop_last() =~= two);
            assert(two.drop_last() =~= one);
            assert(one.drop_last() =~= head);
            assert(one.filter(sep) == head.filter(sep));
            assert(two.filter(sep) == one.filter(sep));
            assert(three.filter(sep) == two.filter(sep));
        }
    }
}

} // verus!
