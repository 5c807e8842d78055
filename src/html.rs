//! Pure text transforms of the HTML index: escaping, sizes, icons.
use vstd::prelude::*;
use chrono::{Datelike, Timelike};
use vstd::arithmetic::div_mod::lemma_fundamental_div_mod_converse;

use crate::text::{ascii_lowered, push_zero_padded, zero_padded, chars_of, extension, extension_of, lower_of, lowercase, same_text, decimal, digit, digit_char, is_digit, lemma_decimal_digits, push_char, push_decimal, push_str};

verus! {

/// The entity text that stands for one character in HTML.
pub open spec fn escape_char(c: char) -> Seq<char> {
    if c == '&' {
        seq!['&', 'a', 'm', 'p', ';']
    } else if c == '<' {
        seq!['&', 'l', 't', ';']
    } else if c == '>' {
        seq!['&', 'g', 't', ';']
    } else if c == '"' {
        seq!['&', 'q', 'u', 'o', 't', ';']
    } else if c == '\'' {
        seq!['&', '#', 'x', '2', '7', ';']
    } else {
        seq![c]
    }
}

/// `s` with each of `& < > " '` replaced by its entity.
pub open spec fn escaped(s: Seq<char>) -> Seq<char>
    decreases s.len(),
{
    if s.len() == 0 {
        seq![]
    } else {
        escaped(s.drop_last()) + escape_char(s.last())
    }
}

/// Whether `c` has a meaning of its own in HTML markup or attribute values.
pub open spec fn is_markup_char(c: char) -> bool {
    c == '<' || c == '>' || c == '"' || c == '\''
}

/// Escapes text for use in HTML content and quoted attribute values.
pub fn html_escape(s: &str) -> (r: String)
    ensures
        r@ == escaped(s@),
{
    let v = chars_of(s);
    let mut out = String::new();
    let mut i: usize = 0;
    while i < v.len()
        invariant
            v@ == s@,
            i <= v.len(),
            out@ == escaped(v@.take(i as int)),
        decreases v.len() - i,
    {
        let c = v[i];
        let ghost before = out@;
        if c == '&' {
            proof { reveal_strlit("&amp;"); }
            push_str(&mut out, "&amp;");
        } else if c == '<' {
            proof { reveal_strlit("&lt;"); }
            push_str(&mut out, "&lt;");
        } else if c == '>' {
            proof { reveal_strlit("&gt;"); }
            push_str(&mut out, "&gt;");
        } else if c == '"' {
            proof { reveal_strlit("&quot;"); }
            push_str(&mut out, "&quot;");
        } else if c == '\'' {
            proof { reveal_strlit("&#x27;"); }
            push_str(&mut out, "&#x27;");
        } else {
            push_char(&mut out, c);
        }
        assert(out@ =~= before + escape_char(c));
        assert(v@.take(i + 1).drop_last() =~= v@.take(i as int));
        i = i + 1;
    }
    assert(v@.take(i as int) =~= s@);
    out
}

/// Escaping works character by character: the escape of a concatenation is the
/// concatenation of the escapes.
pub proof fn lemma_escape_concat(a: Seq<char>, b: Seq<char>)
    ensures
        escaped(a + b) == escaped(a) + escaped(b),
    decreases b.len(),
{
    if b.len() == 0 {
        assert(a + b =~= a);
        assert(escaped(a) + escaped(b) =~= escaped(a));
    } else {
        assert((a + b).drop_last() =~= a + b.drop_last());
        assert((a + b).last() == b.last());
        lemma_escape_concat(a, b.drop_last());
        assert(escaped(a) + escaped(b) =~= escaped(a) + escaped(b.drop_last()) + escape_char(b.last()));
    }
}

/// Escaping is monotone: the escape of a prefix is a prefix of the escape.
pub proof fn lemma_escape_monotone(a: Seq<char>, b: Seq<char>)
    requires
        a.is_prefix_of(b),
    ensures
        escaped(a).is_prefix_of(escaped(b)),
{
    let rest = b.subrange(a.len() as int, b.len() as int);
    assert(b =~= a + rest);
    lemma_escape_concat(a, rest);
    assert(escaped(b).subrange(0, escaped(a).len() as int) =~= escaped(a));
}

/// No escaped text holds `<`, `>`, `"` or `'`: they only appear as entities.
pub proof fn lemma_escape_no_markup(s: Seq<char>)
    ensures
        forall|i: int| 0 <= i < escaped(s).len() ==> !is_markup_char(#[trigger] escaped(s)[i]),
    decreases s.len(),
{
    if s.len() > 0 {
        lemma_escape_no_markup(s.drop_last());
        let e = escaped(s.drop_last());
        let t = escape_char(s.last());
        assert forall|i: int| 0 <= i < escaped(s).len() implies !is_markup_char(#[trigger] escaped(s)[i]) by {
            if i >= e.len() {
                assert(escaped(s)[i] == t[i - e.len()]);
            } else {
                assert(escaped(s)[i] == e[i]);
            }
        }
    }
}

/// Whether `s` starts with the entity text `e`.
pub open spec fn starts_with_text(s: Seq<char>, e: Seq<char>) -> bool {
    s.len() >= e.len() && s.take(e.len() as int) == e
}

pub open spec fn amp_entity() -> Seq<char> {
    seq!['&', 'a', 'm', 'p', ';']
}

pub open spec fn lt_entity() -> Seq<char> {
    seq!['&', 'l', 't', ';']
}

pub open spec fn gt_entity() -> Seq<char> {
    seq!['&', 'g', 't', ';']
}

pub open spec fn quot_entity() -> Seq<char> {
    seq!['&', 'q', 'u', 'o', 't', ';']
}

pub open spec fn hex_apos_entity() -> Seq<char> {
    seq!['&', '#', 'x', '2', '7', ';']
}

pub open spec fn dec_apos_entity() -> Seq<char> {
    seq!['&', '#', '3', '9', ';']
}

pub open spec fn named_apos_entity() -> Seq<char> {
    seq!['&', 'a', 'p', 'o', 's', ';']
}

/// `s` with the entities `&amp; &lt; &gt; &quot; &#x27; &#39; &apos;` replaced by
/// the characters they stand for, read from left to right.
pub open spec fn unescaped(s: Seq<char>) -> Seq<char>
    decreases s.len(),
{
    if s.len() == 0 {
        seq![]
    } else if starts_with_text(s, amp_entity()) {
        seq!['&'] + unescaped(s.skip(5))
    } else if starts_with_text(s, lt_entity()) {
        seq!['<'] + unescaped(s.skip(4))
    } else if starts_with_text(s, gt_entity()) {
        seq!['>'] + unescaped(s.skip(4))
    } else if starts_with_text(s, quot_entity()) {
        seq!['"'] + unescaped(s.skip(6))
    } else if starts_with_text(s, hex_apos_entity()) {
        seq!['\''] + unescaped(s.skip(6))
    } else if starts_with_text(s, dec_apos_entity()) {
        seq!['\''] + unescaped(s.skip(5))
    } else if starts_with_text(s, named_apos_entity()) {
        seq!['\''] + unescaped(s.skip(6))
    } else {
        seq![s[0]] + unescaped(s.skip(1))
    }
}

/// Whether the characters of `v` from `i` on start with `pat`.
fn text_at(v: &Vec<char>, i: usize, pat: &str) -> (r: bool)
    requires
        i <= v@.len(),
    ensures
        r == starts_with_text(v@.skip(i as int), pat@),
{
    let p = chars_of(pat);
    let n = v.len();
    if p.len() > n - i {
        return false;
    }
    let mut k: usize = 0;
    while k < p.len()
        invariant
            p@ == pat@,
            n == v@.len(),
            i + p@.len() <= n,
            k <= p@.len(),
            forall|j: int| 0 <= j < k ==> v@[i + j] == p@[j],
        decreases p.len() - k,
    {
        if v[i + k] != p[k] {
            assert(v@.skip(i as int).take(p@.len() as int)[k as int] != pat@[k as int]);
            return false;
        }
        k = k + 1;
    }
    assert(v@.skip(i as int).take(p@.len() as int) =~= pat@);
    true
}

/// Decodes the HTML entities that the remote leaves in names.
pub fn html_unescape(s: &str) -> (r: String)
    ensures
        r@ == unescaped(s@),
{
    let v = chars_of(s);
    let mut out = String::new();
    let mut i: usize = 0;
    proof {
        reveal_strlit("&amp;");
        reveal_strlit("&lt;");
        reveal_strlit("&gt;");
        reveal_strlit("&quot;");
        reveal_strlit("&#x27;");
        reveal_strlit("&#39;");
        reveal_strlit("&apos;");
        assert("&amp;"@ =~= amp_entity());
        assert("&lt;"@ =~= lt_entity());
        assert("&gt;"@ =~= gt_entity());
        assert("&quot;"@ =~= quot_entity());
        assert("&#x27;"@ =~= hex_apos_entity());
        assert("&#39;"@ =~= dec_apos_entity());
        assert("&apos;"@ =~= named_apos_entity());
        assert(v@.skip(0) =~= v@);
    }
    while i < v.len()
        invariant
            v@ == s@,
            i <= v@.len(),
            out@ + unescaped(v@.skip(i as int)) == unescaped(s@),
            "&amp;"@ == amp_entity(),
            "&lt;"@ == lt_entity(),
            "&gt;"@ == gt_entity(),
            "&quot;"@ == quot_entity(),
            "&#x27;"@ == hex_apos_entity(),
            "&#39;"@ == dec_apos_entity(),
            "&apos;"@ == named_apos_entity(),
        decreases v.len() - i,
    {
        let ghost rest = v@.skip(i as int);
        let ghost before = out@;
        let step: usize;
        let c: char;
        if text_at(&v, i, "&amp;") {
            c = '&';
            step = 5;
        } else if text_at(&v, i, "&lt;") {
            c = '<';
            step = 4;
        } else if text_at(&v, i, "&gt;") {
            c = '>';
            step = 4;
        } else if text_at(&v, i, "&quot;") {
            c = '"';
            step = 6;
        } else if text_at(&v, i, "&#x27;") {
            c = '\'';
            step = 6;
        } else if text_at(&v, i, "&#39;") {
            c = '\'';
            step = 5;
        } else if text_at(&v, i, "&apos;") {
            c = '\'';
            step = 6;
        } else {
            c = v[i];
            step = 1;
        }
        push_char(&mut out, c);
        proof {
            assert(unescaped(rest) == seq![c] + unescaped(rest.skip(step as int)));
            assert(rest.skip(step as int) =~= v@.skip(i + step));
            assert(out@ + unescaped(v@.skip(i + step)) =~= before + unescaped(rest));
        }
        i = i + step;
    }
    assert(v@.skip(i as int) =~= seq![]);
    assert(out@ + unescaped(v@.skip(i as int)) =~= out@);
    out
}

proof fn lemma_unescape_one(c: char, x: Seq<char>)
    ensures
        unescaped(escape_char(c) + x) == seq![c] + unescaped(x),
{
    let e = escape_char(c);
    let s = e + x;
    assert(s.skip(e.len() as int) =~= x);
    assert(s.take(e.len() as int) =~= e);
    if c == '&' {
    } else if c == '<' {
        assert(s[1] == 'l');
    } else if c == '>' {
        assert(s[1] == 'g');
    } else if c == '"' {
        assert(s[1] == 'q');
    } else if c == '\'' {
        assert(s[1] == '#');
        assert(s[2] == 'x');
    } else {
        assert(s[0] == c);
    }
}

/// Decoding entities undoes escaping: every text survives an escape followed by
/// an unescape unchanged.
pub proof fn lemma_unescape_escape(s: Seq<char>)
    ensures
        unescaped(escaped(s)) == s,
    decreases s.len(),
{
    if s.len() > 0 {
        let rest = s.skip(1);
        assert(s =~= seq![s[0]] + rest);
        lemma_escape_concat(seq![s[0]], rest);
        assert(seq![s[0]].drop_last() =~= Seq::<char>::empty());
        assert(escaped(seq![s[0]].drop_last()) =~= Seq::<char>::empty());
        assert(seq![s[0]].last() == s[0]);
        assert(escaped(seq![s[0]]) =~= escape_char(s[0]));
        lemma_unescape_one(s[0], escaped(rest));
        lemma_unescape_escape(rest);
    }
}

pub const KB: u64 = 1024;
pub const MB: u64 = 1048576;
pub const GB: u64 = 1073741824;
pub const TB: u64 = 1099511627776;

/// `size / unit` in tenths, rounded to the nearest tenth, ties to even.
pub open spec fn tenths(size: nat, unit: nat) -> nat
    recommends
        unit > 0,
{
    let f = (size * 10) / unit;
    let rem = (size * 10) % unit;
    if 2 * rem > unit || (2 * rem == unit && f % 2 == 1) {
        f + 1
    } else {
        f
    }
}

/// The index of the unit a size is shown in: 0 for bytes up to 4 for terabytes.
pub open spec fn size_unit_index(size: nat) -> nat {
    if size >= TB {
        4
    } else if size >= GB {
        3
    } else if size >= MB {
        2
    } else if size >= KB {
        1
    } else {
        0
    }
}

pub open spec fn unit_of_index(k: nat) -> nat {
    if k == 4 {
        TB as nat
    } else if k == 3 {
        GB as nat
    } else if k == 2 {
        MB as nat
    } else {
        KB as nat
    }
}

/// The number shown for a size: bytes, or tenths of the unit it is shown in.
pub open spec fn size_amount(size: nat) -> nat {
    let k = size_unit_index(size);
    if k == 0 {
        size
    } else {
        tenths(size, unit_of_index(k))
    }
}

pub open spec fn unit_suffix(k: nat) -> Seq<char> {
    if k == 4 {
        seq![' ', 'T', 'B']
    } else if k == 3 {
        seq![' ', 'G', 'B']
    } else if k == 2 {
        seq![' ', 'M', 'B']
    } else if k == 1 {
        seq![' ', 'K', 'B']
    } else {
        seq![' ', 'B']
    }
}

/// Human-readable size: whole bytes below 1 KB, else the 1024-based unit with
/// one decimal.
pub open spec fn size_text(size: nat) -> Seq<char> {
    let k = size_unit_index(size);
    let a = size_amount(size);
    if k == 0 {
        decimal(a) + unit_suffix(0)
    } else {
        decimal(a / 10) + seq!['.', digit_char(a % 10)] + unit_suffix(k)
    }
}

proof fn lemma_split_tenths(size: nat, unit: nat, q: nat, r: nat, f: nat, rem: nat)
    requires
        unit > 0,
        size == q * unit + r,
        r < unit,
        r * 10 == f * unit + rem,
        rem < unit,
    ensures
        (size * 10) / unit == q * 10 + f,
        (size * 10) % unit == rem,
{
    assert(size * 10 == (q * 10 + f) * unit + rem) by (nonlinear_arith)
        requires
            size == q * unit + r,
            r * 10 == f * unit + rem,
    ;
    lemma_fundamental_div_mod_converse((size * 10) as int, unit as int, (q * 10 + f) as int, rem as int);
}

/// Appends the number of tenths shown for `size` in `unit`, and the suffix.
fn push_scaled(out: &mut String, size: u64, unit: u64, k: Ghost<nat>)
    requires
        unit == unit_of_index(k@),
        1 <= k@ <= 4,
        size >= unit,
    ensures
        final(out)@ == old(out)@ + decimal(tenths(size as nat, unit as nat) / 10) + seq![
            '.',
            digit_char(tenths(size as nat, unit as nat) % 10),
        ],
{
    let q = size / unit;
    let r = size % unit;
    assert(q <= size / 1024) by {
        vstd::arithmetic::div_mod::lemma_div_is_ordered_by_denominator(size as int, 1024, unit as int);
    }
    assert(size / 1024 <= u64::MAX / 1024) by {
        vstd::arithmetic::div_mod::lemma_div_is_ordered(size as int, u64::MAX as int, 1024);
    }
    let f = (r * 10) / unit;
    let rem = (r * 10) % unit;
    proof {
        vstd::arithmetic::div_mod::lemma_fundamental_div_mod(size as int, unit as int);
        vstd::arithmetic::div_mod::lemma_fundamental_div_mod((r * 10) as int, unit as int);
        vstd::arithmetic::mul::lemma_mul_is_commutative(unit as int, q as int);
        vstd::arithmetic::mul::lemma_mul_is_commutative(unit as int, f as int);
        assert(f < 10) by (nonlinear_arith)
            requires
                r < unit,
                r * 10 == f * unit + rem,
                rem >= 0,
                unit > 0,
        ;
        lemma_split_tenths(size as nat, unit as nat, q as nat, r as nat, f as nat, rem as nat);
    }
    let mut t = q * 10 + f;
    if 2 * rem > unit || (2 * rem == unit && t % 2 == 1) {
        t = t + 1;
    }
    assert(t == tenths(size as nat, unit as nat));
    push_decimal(out, t / 10);
    push_char(out, '.');
    push_char(out, digit(t % 10));
    assert(final(out)@ =~= old(out)@ + decimal(tenths(size as nat, unit as nat) / 10) + seq![
        '.',
        digit_char(tenths(size as nat, unit as nat) % 10),
    ]);
}

proof fn lemma_tenths_monotone(a: nat, b: nat, unit: nat)
    requires
        unit > 0,
        a <= b,
    ensures
        tenths(a, unit) <= tenths(b, unit),
{
    let fa = (a * 10) / unit;
    let fb = (b * 10) / unit;
    vstd::arithmetic::div_mod::lemma_div_is_ordered((a * 10) as int, (b * 10) as int, unit as int);
    if fa == fb {
        vstd::arithmetic::div_mod::lemma_fundamental_div_mod((a * 10) as int, unit as int);
        vstd::arithmetic::div_mod::lemma_fundamental_div_mod((b * 10) as int, unit as int);
    }
}

/// The shown size never decreases as the byte count grows: either it moves to a
/// larger unit, or it stays in the same unit with a number at least as large.
pub proof fn lemma_size_text_monotone(a: nat, b: nat)
    requires
        a <= b,
    ensures
        size_unit_index(a) < size_unit_index(b) || (size_unit_index(a) == size_unit_index(b)
            && size_amount(a) <= size_amount(b)),
{
    let k = size_unit_index(a);
    if k == size_unit_index(b) && k > 0 {
        lemma_tenths_monotone(a, b, unit_of_index(k));
    }
}

/// The quantity a shown size stands for, in tenths of a byte: the number shown
/// times its unit.
pub open spec fn shown_tenth_bytes(size: nat) -> nat {
    let k = size_unit_index(size);
    if k == 0 {
        10 * size
    } else {
        size_amount(size) * unit_of_index(k)
    }
}

proof fn lemma_tenths_range(size: nat, unit: nat)
    requires
        unit > 0,
        unit <= size,
        size < 1024 * unit,
    ensures
        10 <= tenths(size, unit) <= 10240,
{
    let f = (size * 10) / unit;
    vstd::arithmetic::div_mod::lemma_fundamental_div_mod((size * 10) as int, unit as int);
    let rem = (size * 10) % unit;
    assert(10 <= f <= 10239) by (nonlinear_arith)
        requires
            unit <= size,
            size < 1024 * unit,
            size * 10 == unit * f + rem,
            0 <= rem < unit,
    ;
}

proof fn lemma_tenths_at_least(size: nat, unit: nat)
    requires
        unit > 0,
        unit <= size,
    ensures
        tenths(size, unit) >= 10,
{
    let f = (size * 10) / unit;
    vstd::arithmetic::div_mod::lemma_fundamental_div_mod((size * 10) as int, unit as int);
    let rem = (size * 10) % unit;
    assert(f >= 10) by (nonlinear_arith)
        requires
            unit <= size,
            size * 10 == unit * f + rem,
            0 <= rem < unit,
    ;
}

/// The shown size never stands for less as the byte count grows: the number
/// shown times its unit is monotone, across unit changes too.
pub proof fn lemma_size_value_monotone(a: nat, b: nat)
    requires
        a <= b,
    ensures
        shown_tenth_bytes(a) <= shown_tenth_bytes(b),
{
    let ka = size_unit_index(a);
    let kb = size_unit_index(b);
    lemma_size_text_monotone(a, b);
    if ka == kb {
        if ka > 0 {
            let u = unit_of_index(ka);
            assert(size_amount(a) <= size_amount(b));
            assert(size_amount(a) * u <= size_amount(b) * u) by (nonlinear_arith)
                requires
                    size_amount(a) <= size_amount(b),
            ;
        }
    } else {
        let ub = unit_of_index(kb);
        lemma_tenths_at_least(b, ub);
        assert(shown_tenth_bytes(b) >= 10 * ub) by (nonlinear_arith)
            requires
                shown_tenth_bytes(b) == size_amount(b) * ub,
                size_amount(b) >= 10,
        ;
        if ka == 0 {
            assert(10 * a <= 10 * ub);
        } else {
            let ua = unit_of_index(ka);
            lemma_tenths_range(a, ua);
            assert(1024 * ua <= ub);
            assert(shown_tenth_bytes(a) <= 10240 * ua) by (nonlinear_arith)
                requires
                    shown_tenth_bytes(a) == size_amount(a) * ua,
                    size_amount(a) <= 10240,
            ;
        }
    }
}

/// A shown size has at most one digit after the decimal point: a `.` is always
/// followed by one digit and then the space before the unit.
pub proof fn lemma_size_text_one_decimal(size: nat)
    ensures
        forall|i: int|
            0 <= i < size_text(size).len() && #[trigger] size_text(size)[i] == '.' ==> i + 2 < size_text(
                size,
            ).len() && is_digit(size_text(size)[i + 1]) && size_text(size)[i + 2] == ' ',
{
    let k = size_unit_index(size);
    let a = size_amount(size);
    let t = size_text(size);
    if k == 0 {
        lemma_decimal_digits(a);
        let d = decimal(a);
        assert forall|i: int| 0 <= i < t.len() implies #[trigger] t[i] != '.' by {
            if i < d.len() {
                assert(t[i] == d[i]);
            }
        }
    } else {
        lemma_decimal_digits(a / 10);
        let d = decimal(a / 10);
        assert(t.len() == d.len() + 2 + unit_suffix(k).len());
        assert forall|i: int| 0 <= i < t.len() && #[trigger] t[i] == '.' implies i + 2 < t.len()
            && is_digit(t[i + 1]) && t[i + 2] == ' ' by {
            if i < d.len() {
                assert(t[i] == d[i]);
            } else if i > d.len() {
                assert(t[i] == unit_suffix(k)[i - d.len() - 2]);
            } else {
                assert(t[i + 1] == digit_char(a % 10));
                assert(t[i + 2] == unit_suffix(k)[0]);
            }
        }
    }
}

/// Formats a byte count for display (`1023 B`, `1.0 KB`, `1.5 KB`, ...).
pub fn format_size(size: u64) -> (r: String)
    ensures
        r@ == size_text(size as nat),
{
    let mut out = String::new();
    if size >= TB {
        push_scaled(&mut out, size, TB, Ghost(4));
        proof { reveal_strlit(" TB"); }
        push_str(&mut out, " TB");
    } else if size >= GB {
        push_scaled(&mut out, size, GB, Ghost(3));
        proof { reveal_strlit(" GB"); }
        push_str(&mut out, " GB");
    } else if size >= MB {
        push_scaled(&mut out, size, MB, Ghost(2));
        proof { reveal_strlit(" MB"); }
        push_str(&mut out, " MB");
    } else if size >= KB {
        push_scaled(&mut out, size, KB, Ghost(1));
        proof { reveal_strlit(" KB"); }
        push_str(&mut out, " KB");
    } else {
        push_decimal(&mut out, size);
        proof { reveal_strlit(" B"); }
        push_str(&mut out, " B");
    }
    assert(out@ =~= size_text(size as nat));
    out
}

/// The icon shown for a lower-case file extension.
pub open spec fn ext_icon(e: Seq<char>) -> Seq<char> {
    if e == "jpg"@ || e == "jpeg"@ || e == "png"@ || e == "gif"@ || e == "bmp"@ || e == "webp"@ || e == "svg"@ || e == "ico"@ {
        "🖼️"@
    } else if e == "mp4"@ || e == "avi"@ || e == "mkv"@ || e == "mov"@ || e == "wmv"@ || e == "flv"@ || e == "webm"@ || e == "m4v"@ || e == "ts"@ {
        "🎬"@
    } else if e == "mp3"@ || e == "wav"@ || e == "flac"@ || e == "aac"@ || e == "ogg"@ || e == "wma"@ || e == "m4a"@ {
        "🎵"@
    } else if e == "pdf"@ {
        "📕"@
    } else if e == "doc"@ || e == "docx"@ {
        "📝"@
    } else if e == "xls"@ || e == "xlsx"@ {
        "📊"@
    } else if e == "ppt"@ || e == "pptx"@ {
        "📎"@
    } else if e == "zip"@ || e == "rar"@ || e == "7z"@ || e == "tar"@ || e == "gz"@ || e == "bz2"@ || e == "xz"@ {
        "📦"@
    } else if e == "txt"@ || e == "md"@ || e == "log"@ || e == "csv"@ {
        "📄"@
    } else if e == "exe"@ || e == "msi"@ || e == "dmg"@ || e == "app"@ || e == "deb"@ || e == "rpm"@ {
        "⚙️"@
    } else if e == "html"@ || e == "css"@ || e == "js"@ || e == "json"@ || e == "xml"@ || e == "yaml"@ || e == "yml"@ || e == "toml"@ || e == "rs"@ || e == "py"@ || e == "java"@ || e == "c"@ || e == "cpp"@ || e == "go"@ || e == "rb"@ || e == "php"@ || e == "sh"@ {
        "💻"@
    } else {
        "📄"@
    }
}

/// The icon for a lower-case file extension.
pub fn icon_for_extension(ext: &str) -> (r: &'static str)
    ensures
        r@ == ext_icon(ext@),
{
    if same_text(ext, "jpg") || same_text(ext, "jpeg") || same_text(ext, "png") || same_text(ext, "gif") || same_text(ext, "bmp") || same_text(ext, "webp") || same_text(ext, "svg") || same_text(ext, "ico") {
        "🖼️"
    } else if same_text(ext, "mp4") || same_text(ext, "avi") || same_text(ext, "mkv") || same_text(ext, "mov") || same_text(ext, "wmv") || same_text(ext, "flv") || same_text(ext, "webm") || same_text(ext, "m4v") || same_text(ext, "ts") {
        "🎬"
    } else if same_text(ext, "mp3") || same_text(ext, "wav") || same_text(ext, "flac") || same_text(ext, "aac") || same_text(ext, "ogg") || same_text(ext, "wma") || same_text(ext, "m4a") {
        "🎵"
    } else if same_text(ext, "pdf") {
        "📕"
    } else if same_text(ext, "doc") || same_text(ext, "docx") {
        "📝"
    } else if same_text(ext, "xls") || same_text(ext, "xlsx") {
        "📊"
    } else if same_text(ext, "ppt") || same_text(ext, "pptx") {
        "📎"
    } else if same_text(ext, "zip") || same_text(ext, "rar") || same_text(ext, "7z") || same_text(ext, "tar") || same_text(ext, "gz") || same_text(ext, "bz2") || same_text(ext, "xz") {
        "📦"
    } else if same_text(ext, "txt") || same_text(ext, "md") || same_text(ext, "log") || same_text(ext, "csv") {
        "📄"
    } else if same_text(ext, "exe") || same_text(ext, "msi") || same_text(ext, "dmg") || same_text(ext, "app") || same_text(ext, "deb") || same_text(ext, "rpm") {
        "⚙️"
    } else if same_text(ext, "html") || same_text(ext, "css") || same_text(ext, "js") || same_text(ext, "json") || same_text(ext, "xml") || same_text(ext, "yaml") || same_text(ext, "yml") || same_text(ext, "toml") || same_text(ext, "rs") || same_text(ext, "py") || same_text(ext, "java") || same_text(ext, "c") || same_text(ext, "cpp") || same_text(ext, "go") || same_text(ext, "rb") || same_text(ext, "php") || same_text(ext, "sh") {
        "💻"
    } else {
        "📄"
    }
}

/// The icon glyph shown beside a file, chosen by its extension, whatever its case.
pub fn file_icon(name: &str) -> (r: &'static str)
    ensures
        r@ == ext_icon(lower_of(extension(name@))),
        vstd::utf8::is_ascii_chars(extension(name@)) ==> r@ == ext_icon(ascii_lowered(extension(name@))),
{
    let ext = extension_of(name);
    let lower = lowercase(ext.as_str());
    icon_for_extension(lower.as_str())
}

/// A moment as a calendar date and a time of day, to the minute.
#[derive(Debug, Clone, Copy, PartialEq, Eq)]
pub struct CivilTime {
    pub year: i32,
    pub month: u32,
    pub day: u32,
    pub hour: u32,
    pub minute: u32,
}

/// The UTC calendar date and time of a Unix timestamp in seconds, or `None`
/// outside the range the calendar supports.
pub uninterp spec fn civil_of(secs: int) -> Option<CivilTime>;

/// The UTC calendar date and time of a Unix timestamp in seconds, in the
/// proleptic Gregorian calendar (days to civil date by eras of 400 years).
pub open spec fn civil_from_secs(secs: int) -> CivilTime {
    let days = secs / 86400;
    let sod = secs % 86400;
    let z = days + 719468;
    let era = z / 146097;
    let doe = z - era * 146097;
    let yoe = (doe - doe / 1460 + doe / 36524 - doe / 146096) / 365;
    let doy = doe - (365 * yoe + yoe / 4 - yoe / 100);
    let mp = (5 * doy + 2) / 153;
    let d = doy - (153 * mp + 2) / 5 + 1;
    let m = if mp < 10 {
        mp + 3
    } else {
        mp - 9
    };
    let y = yoe + era * 400 + if m <= 2 {
        1int
    } else {
        0int
    };
    CivilTime {
        year: y as i32,
        month: m as u32,
        day: d as u32,
        hour: (sod / 3600) as u32,
        minute: (sod % 3600 / 60) as u32,
    }
}

/// The first second of the year 10000.
pub const YEAR_10000_SECS: i64 = 253402300800;

/// Relies on `chrono::DateTime::from_timestamp` (and its `Datelike` /
/// `Timelike` fields): the UTC date and time of a timestamp in the proleptic
/// Gregorian calendar, a function of the seconds alone; `None` out of chrono's
/// range, which reaches far beyond the year 9999.
#[verifier::external_body]
fn civil_from_unix(secs: i64) -> (r: Option<CivilTime>)
    ensures
        r == civil_of(secs as int),
        0 <= secs < YEAR_10000_SECS ==> r == Some(civil_from_secs(secs as int)),
{
    chrono::DateTime::from_timestamp(secs, 0).map(
        |dt| CivilTime {
            year: dt.year(),
            month: dt.month(),
            day: dt.day(),
            hour: dt.hour(),
            minute: dt.minute(),
        },
    )
}

/// Offset of the displayed time zone (UTC+8) in seconds.
pub const DISPLAY_OFFSET_SECS: u64 = 28800;

/// A year as `%Y` shows it: four digits from 0 to 9999, else signed.
pub open spec fn year_text(y: int) -> Seq<char> {
    if 0 <= y <= 9999 {
        zero_padded(y as nat, 4)
    } else if y > 9999 {
        seq!['+'] + decimal(y as nat)
    } else {
        seq!['-'] + zero_padded((-y) as nat, 4)
    }
}

/// `YYYY-MM-DD HH:MM`.
pub open spec fn civil_text(c: CivilTime) -> Seq<char> {
    year_text(c.year as int) + seq!['-'] + zero_padded(c.month as nat, 2) + seq!['-']
        + zero_padded(c.day as nat, 2) + seq![' '] + zero_padded(c.hour as nat, 2) + seq![':']
        + zero_padded(c.minute as nat, 2)
}

/// The text of a timestamp in milliseconds, in UTC+8; `-` if out of range.
pub open spec fn timestamp_text(ts_millis: nat) -> Seq<char> {
    match civil_of((ts_millis / 1000 + DISPLAY_OFFSET_SECS) as int) {
        Some(c) => civil_text(c),
        None => seq!['-'],
    }
}

/// Shows a calendar moment as `YYYY-MM-DD HH:MM`.
pub fn format_civil(c: &CivilTime) -> (r: String)
    ensures
        r@ == civil_text(*c),
{
    let mut out = String::new();
    if c.year >= 0 && c.year <= 9999 {
        push_zero_padded(&mut out, c.year as u64, 4);
    } else if c.year > 9999 {
        push_char(&mut out, '+');
        push_decimal(&mut out, c.year as u64);
    } else {
        push_char(&mut out, '-');
        let y: i64 = c.year as i64;
        push_zero_padded(&mut out, (-y) as u64, 4);
    }
    push_char(&mut out, '-');
    push_zero_padded(&mut out, c.month as u64, 2);
    push_char(&mut out, '-');
    push_zero_padded(&mut out, c.day as u64, 2);
    push_char(&mut out, ' ');
    push_zero_padded(&mut out, c.hour as u64, 2);
    push_char(&mut out, ':');
    push_zero_padded(&mut out, c.minute as u64, 2);
    assert(out@ =~= civil_text(*c));
    out
}

/// Shows a timestamp in milliseconds as `YYYY-MM-DD HH:MM` in UTC+8.
pub fn format_timestamp(ts_millis: u64) -> (r: String)
    ensures
        r@ == timestamp_text(ts_millis as nat),
        ts_millis / 1000 + DISPLAY_OFFSET_SECS < YEAR_10000_SECS ==> r@ == civil_text(
            civil_from_secs((ts_millis / 1000 + DISPLAY_OFFSET_SECS) as int),
        ),
{
    let secs: u64 = ts_millis / 1000 + DISPLAY_OFFSET_SECS;
    match civil_from_unix(secs as i64) {
        Some(c) => format_civil(&c),
        None => {
            let mut out = String::new();
            push_char(&mut out, '-');
            assert(out@ =~= seq!['-']);
            out
        },
    }
}

} // verus!
