//! Percent-encoding of path segments in links, and decoding of request paths.
use vstd::prelude::*;
use vstd::utf8::{decode_utf8, encode_utf8, is_ascii_chars, valid_utf8};

verus! {

/// Whether the byte is an ASCII letter or digit.
pub open spec fn is_ascii_alnum(b: u8) -> bool {
    (48 <= b <= 57) || (65 <= b <= 90) || (97 <= b <= 122)
}

/// The upper-case hex digit for `d < 16`, as an ASCII byte.
pub open spec fn hex_digit_byte(d: u8) -> u8 {
    if d < 10 {
        (48 + d) as u8
    } else {
        (55 + d) as u8
    }
}

/// How one byte appears in encoded text: itself if it is an ASCII letter or
/// digit, else `%` and two upper-case hex digits.
pub open spec fn encode_byte(b: u8) -> Seq<char> {
    if is_ascii_alnum(b) {
        seq![b as char]
    } else {
        seq!['%', hex_digit_byte(b / 16) as char, hex_digit_byte(b % 16) as char]
    }
}

/// The percent-encoding of `b` in which only ASCII letters and digits stand for
/// themselves.
pub open spec fn percent_encoded(b: Seq<u8>) -> Seq<char>
    decreases b.len(),
{
    if b.len() == 0 {
        seq![]
    } else {
        encode_byte(b[0]) + percent_encoded(b.skip(1))
    }
}

/// The value of a hex digit of either case.
pub open spec fn hex_value(c: u8) -> Option<u8> {
    if 48 <= c <= 57 {
        Some((c - 48) as u8)
    } else if 65 <= c <= 70 {
        Some((c - 55) as u8)
    } else if 97 <= c <= 102 {
        Some((c - 87) as u8)
    } else {
        None
    }
}

/// `b` with each `%` followed by two hex digits replaced by the byte they
/// spell; any other byte, a lone `%` included, is kept.
pub open spec fn percent_decoded(b: Seq<u8>) -> Seq<u8>
    decreases b.len(),
{
    if b.len() == 0 {
        seq![]
    } else if b[0] == 37 && b.len() >= 3 && hex_value(b[1]) is Some && hex_value(b[2]) is Some {
        seq![(hex_value(b[1])->0 * 16 + hex_value(b[2])->0) as u8] + percent_decoded(b.skip(3))
    } else {
        seq![b[0]] + percent_decoded(b.skip(1))
    }
}

/// What `String::from_utf8_lossy` makes of bytes: their text, with each
/// invalid sequence replaced by U+FFFD.
pub uninterp spec fn lossy_text(b: Seq<u8>) -> Seq<char>;

/// Relies on `percent_encoding::utf8_percent_encode` with `NON_ALPHANUMERIC`,
/// shown through `Display`: each byte of the UTF-8 form that is not an ASCII
/// letter or digit becomes `%XX` (upper-case hex, `percent_encode_byte`).
#[verifier::external_body]
fn utf8_percent_encode_alnum(s: &str) -> (r: String)
    ensures
        r@ == percent_encoded(encode_utf8(s@)),
{
    percent_encoding::utf8_percent_encode(s, percent_encoding::NON_ALPHANUMERIC).to_string()
}

/// Relies on `percent_encoding::percent_decode_str` (each `%` with two hex digits
/// becomes that byte, see `after_percent_sign`) and on its `decode_utf8_lossy`,
/// which keeps valid UTF-8 as it is.
#[verifier::external_body]
fn percent_decode_lossy(s: &str) -> (r: String)
    ensures
        r@ == lossy_text(percent_decoded(encode_utf8(s@))),
        valid_utf8(percent_decoded(encode_utf8(s@))) ==> r@ == decode_utf8(
            percent_decoded(encode_utf8(s@)),
        ),
{
    percent_encoding::percent_decode_str(s).decode_utf8_lossy().into_owned()
}

/// Percent-encodes a path segment for a link: all but ASCII letters and digits.
pub fn percent_encode_path(s: &str) -> (r: String)
    ensures
        r@ == percent_encoded(encode_utf8(s@)),
{
    utf8_percent_encode_alnum(s)
}

/// Decodes `%XX` escapes of a request path; bytes that do not form UTF-8 come
/// out as U+FFFD.
pub fn percent_decode(s: &str) -> (r: String)
    ensures
        r@ == lossy_text(percent_decoded(encode_utf8(s@))),
        valid_utf8(percent_decoded(encode_utf8(s@))) ==> r@ == decode_utf8(
            percent_decoded(encode_utf8(s@)),
        ),
{
    percent_decode_lossy(s)
}

/// The bytes of an ASCII text.
pub open spec fn ascii_bytes(c: Seq<char>) -> Seq<u8> {
    Seq::new(c.len(), |i: int| c[i] as u8)
}

proof fn lemma_encoded_ascii(b: Seq<u8>)
    ensures
        is_ascii_chars(percent_encoded(b)),
    decreases b.len(),
{
    if b.len() > 0 {
        lemma_encoded_ascii(b.skip(1));
        let e = encode_byte(b[0]);
        let rest = percent_encoded(b.skip(1));
        assert forall|i: int| 0 <= i < percent_encoded(b).len() implies '\0' <= #[trigger] percent_encoded(b)[i] <= '\u{7f}' by {
            if i < e.len() {
                assert(percent_encoded(b)[i] == e[i]);
            } else {
                assert(percent_encoded(b)[i] == rest[i - e.len()]);
            }
        }
    }
}

proof fn lemma_decode_encoded(b: Seq<u8>)
    ensures
        percent_decoded(ascii_bytes(percent_encoded(b))) == b,
    decreases b.len(),
{
    if b.len() == 0 {
        assert(ascii_bytes(percent_encoded(b)) =~= seq![]);
    } else {
        let x = b[0];
        let e = encode_byte(x);
        let rest = percent_encoded(b.skip(1));
        let all = ascii_bytes(percent_encoded(b));
        lemma_decode_encoded(b.skip(1));
        assert(all =~= ascii_bytes(e) + ascii_bytes(rest));
        if is_ascii_alnum(x) {
            assert(all[0] == x);
            assert(all.skip(1) =~= ascii_bytes(rest));
        } else {
            let hi = x / 16;
            let lo = x % 16;
            assert(all[0] == 37);
            assert(all[1] == hex_digit_byte(hi));
            assert(all[2] == hex_digit_byte(lo));
            assert(hex_value(hex_digit_byte(hi)) == Some(hi));
            assert(hex_value(hex_digit_byte(lo)) == Some(lo));
            assert(all.skip(3) =~= ascii_bytes(rest));
        }
        assert(b =~= seq![x] + b.skip(1));
    }
}

/// Decoding undoes encoding: for every text `s`, decoding the percent-encoding
/// of `s` gives valid UTF-8 whose text is `s` again.
pub proof fn lemma_percent_round_trip(s: Seq<char>)
    ensures
        valid_utf8(percent_decoded(encode_utf8(percent_encoded(encode_utf8(s))))),
        decode_utf8(percent_decoded(encode_utf8(percent_encoded(encode_utf8(s))))) == s,
{
    let b = encode_utf8(s);
    let e = percent_encoded(b);
    lemma_encoded_ascii(b);
    vstd::utf8::is_ascii_chars_encode_utf8(e);
    assert(encode_utf8(e) =~= ascii_bytes(e));
    lemma_decode_encoded(b);
    vstd::utf8::encode_utf8_valid_utf8(s);
    vstd::utf8::encode_utf8_decode_utf8(s);
}

} // verus!
