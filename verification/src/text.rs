//! Text that keys, names and tables are made of.

use vstd::arithmetic::power::pow;
use vstd::prelude::*;

use crate::identity;

verus! {

/// What a text holds.
pub type Chars = Seq<char>;

/// The last `width` decimal digits of a number, as bytes, padded with zeros
/// in front.
pub open spec fn padded_digits(n: nat, width: nat) -> Seq<u8>
    decreases width,
{
    if width == 0 {
        Seq::empty()
    } else {
        padded_digits(n / 10, (width - 1) as nat).push((48 + n % 10) as u8)
    }
}

/// Byte strings in dictionary order.
pub open spec fn bytes_before(a: Seq<u8>, b: Seq<u8>) -> bool
    decreases a.len(),
{
    if b.len() == 0 {
        false
    } else if a.len() == 0 {
        true
    } else if a[0] != b[0] {
        a[0] < b[0]
    } else {
        bytes_before(a.drop_first(), b.drop_first())
    }
}

/// Text in the order of its UTF-8 bytes.
pub open spec fn text_before(a: Seq<char>, b: Seq<char>) -> bool {
    bytes_before(vstd::utf8::encode_utf8(a), vstd::utf8::encode_utf8(b))
}

/// Two byte strings agree before a place and differ there.
pub open spec fn first_smaller_at(a: Seq<u8>, b: Seq<u8>, k: int) -> bool {
    0 <= k < a.len() && k < b.len() && a.take(k) == b.take(k) && a[k] < b[k]
}

pub proof fn smaller_at_first_difference(a: Seq<u8>, b: Seq<u8>, k: int)
    requires
        first_smaller_at(a, b, k),
    ensures
        bytes_before(a, b),
    decreases k,
{
    if k > 0 {
        let x = a.drop_first();
        let y = b.drop_first();
        assert(a.take(k)[0] == b.take(k)[0]);
        assert(x.take(k - 1) =~= a.take(k).drop_first());
        assert(y.take(k - 1) =~= b.take(k).drop_first());
        smaller_at_first_difference(x, y, k - 1);
    }
}

/// Dictionary order is a strict total order: nothing comes before itself, of
/// two different strings one comes before the other, and only one does.
pub proof fn bytes_before_is_total(a: Seq<u8>, b: Seq<u8>)
    ensures
        !bytes_before(a, a),
        !(bytes_before(a, b) && bytes_before(b, a)),
        a == b || bytes_before(a, b) || bytes_before(b, a),
    decreases a.len(),
{
    if a.len() > 0 {
        bytes_before_is_total(a.drop_first(), a.drop_first());
    }
    if a.len() > 0 && b.len() > 0 {
        let x = a.drop_first();
        let y = b.drop_first();
        bytes_before_is_total(x, y);
        if a[0] == b[0] && x == y {
            assert(a =~= seq![a[0]] + x);
            assert(b =~= seq![b[0]] + y);
        }
    } else if a.len() == 0 && b.len() == 0 {
        assert(a =~= b);
    }
}

pub proof fn bytes_before_is_transitive(a: Seq<u8>, b: Seq<u8>, c: Seq<u8>)
    requires
        bytes_before(a, b),
        bytes_before(b, c),
    ensures
        bytes_before(a, c),
    decreases a.len(),
{
    if a.len() > 0 && b.len() > 0 && c.len() > 0 && a[0] == b[0] && b[0] == c[0] {
        bytes_before_is_transitive(a.drop_first(), b.drop_first(), c.drop_first());
    }
}

/// Different text has different bytes.
pub proof fn bytes_determine_text(a: Seq<char>, b: Seq<char>)
    requires
        vstd::utf8::encode_utf8(a) == vstd::utf8::encode_utf8(b),
    ensures
        a == b,
{
    vstd::utf8::encode_utf8_decode_utf8(a);
    vstd::utf8::encode_utf8_decode_utf8(b);
}

/// The order of text is a strict total order.
pub proof fn text_before_is_total(a: Seq<char>, b: Seq<char>)
    ensures
        !text_before(a, a),
        !(text_before(a, b) && text_before(b, a)),
        a == b || text_before(a, b) || text_before(b, a),
{
    bytes_before_is_total(vstd::utf8::encode_utf8(a), vstd::utf8::encode_utf8(b));
    if vstd::utf8::encode_utf8(a) == vstd::utf8::encode_utf8(b) {
        bytes_determine_text(a, b);
    }
}

pub proof fn text_before_is_transitive(a: Seq<char>, b: Seq<char>, c: Seq<char>)
    requires
        text_before(a, b),
        text_before(b, c),
    ensures
        text_before(a, c),
{
    bytes_before_is_transitive(
        vstd::utf8::encode_utf8(a),
        vstd::utf8::encode_utf8(b),
        vstd::utf8::encode_utf8(c),
    );
}

pub proof fn padded_digits_len(n: nat, width: nat)
    ensures
        padded_digits(n, width).len() == width,
    decreases width,
{
    if width > 0 {
        padded_digits_len(n / 10, (width - 1) as nat);
    }
}

/// Law: padded numbers sort as bytes the way they sort as numbers, and
/// different numbers have different digits.
pub proof fn padded_digits_keep_order(a: nat, b: nat, width: nat)
    requires
        a < b < pow(10, width),
    ensures
        bytes_before(padded_digits(a, width), padded_digits(b, width)),
        padded_digits(a, width) != padded_digits(b, width),
        exists|k: int| first_smaller_at(padded_digits(a, width), padded_digits(b, width), k),
    decreases width,
{
    reveal(pow);
    if width > 0 {
        let w = (width - 1) as nat;
        let x = padded_digits(a / 10, w);
        let y = padded_digits(b / 10, w);
        padded_digits_len(a / 10, w);
        padded_digits_len(b / 10, w);
        let p = padded_digits(a, width);
        let q = padded_digits(b, width);
        assert(p.take(w as int) =~= x);
        assert(q.take(w as int) =~= y);
        if a / 10 < b / 10 {
            assert(b / 10 < pow(10, w)) by {
                assert(pow(10, width) == 10 * pow(10, w));
            }
            padded_digits_keep_order(a / 10, b / 10, w);
            let k = choose|k: int| first_smaller_at(x, y, k);
            assert(p.take(k) =~= x.take(k));
            assert(q.take(k) =~= y.take(k));
            assert(first_smaller_at(p, q, k));
            smaller_at_first_difference(p, q, k);
        } else {
            assert(a / 10 == b / 10);
            assert(first_smaller_at(p, q, w as int));
            smaller_at_first_difference(p, q, w as int);
        }
    }
}

/// The 20 decimal digits of a number: enough for every `u64`.
pub fn padded_decimal(n: u64) -> (digits: Vec<u8>)
    ensures
        digits@ == padded_digits(n as nat, 20),
{
    let mut reversed: Vec<u8> = Vec::new();
    let mut rest: u64 = n;
    proof {
        padded_digits_len(n as nat, 20);
    }
    for i in 0..20usize
        invariant
            reversed@.len() == i,
            padded_digits(n as nat, 20) =~= padded_digits(rest as nat, (20 - i) as nat)
                + reversed@.reverse(),
    {
        let ghost before = reversed@;
        reversed.push(48 + (rest % 10) as u8);
        assert(reversed@.reverse() =~= seq![(48 + (rest % 10)) as u8] + before.reverse());
        rest = rest / 10;
    }
    let mut digits: Vec<u8> = Vec::new();
    for i in 0..20usize
        invariant
            reversed@.len() == 20,
            digits@.len() == i,
            forall|k: int| 0 <= k < i ==> digits@[k] == reversed@[19 - k],
    {
        digits.push(reversed[19 - i]);
    }
    assert(digits@ =~= reversed@.reverse());
    digits
}

/// `String::push` of the standard library adds the character at the end.
pub assume_specification[ String::push ](s: &mut String, c: char)
    ensures
        final(s)@ == old(s)@.push(c),
;

/// Whether two texts are the same.
pub fn same(a: &str, b: &str) -> (r: bool)
    ensures
        r == (a@ == b@),
{
    let x = a.as_bytes();
    let y = b.as_bytes();
    if x.len() != y.len() {
        return false;
    }
    for i in 0..x.len()
        invariant
            x@ == vstd::utf8::encode_utf8(a@),
            y@ == vstd::utf8::encode_utf8(b@),
            x@.len() == y@.len(),
            forall|k: int| 0 <= k < i ==> x@[k] == y@[k],
    {
        if x[i] != y[i] {
            return false;
        }
    }
    proof {
        assert(x@ =~= y@);
        bytes_determine_text(a@, b@);
    }
    true
}

/// Whether a text comes before another in byte order.
pub fn before(a: &str, b: &str) -> (r: bool)
    ensures
        r == text_before(a@, b@),
{
    let x = a.as_bytes();
    let y = b.as_bytes();
    let mut i: usize = 0;
    assert(x@.skip(0) =~= x@);
    assert(y@.skip(0) =~= y@);
    while i < x.len() && i < y.len() && x[i] == y[i]
        invariant
            i <= x@.len(),
            i <= y@.len(),
            bytes_before(x@, y@) == bytes_before(x@.skip(i as int), y@.skip(i as int)),
        decreases x@.len() - i,
    {
        assert(x@.skip(i as int).drop_first() =~= x@.skip(i + 1));
        assert(y@.skip(i as int).drop_first() =~= y@.skip(i + 1));
        i = i + 1;
    }
    if i >= y.len() {
        false
    } else if i >= x.len() {
        true
    } else {
        x[i] < y[i]
    }
}

pub open spec fn digit_char(d: int) -> char {
    if d < 10 {
        (48 + d) as char
    } else {
        (87 + d) as char
    }
}

pub open spec fn upper_digit_char(d: int) -> char {
    if d < 10 {
        (48 + d) as char
    } else {
        (55 + d) as char
    }
}

/// A number in decimal notation.
pub open spec fn decimal_chars(n: nat) -> Seq<char>
    decreases n,
{
    if n < 10 {
        seq![digit_char(n as int)]
    } else {
        decimal_chars(n / 10).push(digit_char((n % 10) as int))
    }
}

/// The last `width` digits of a number in base 16.
pub open spec fn hex_chars(n: nat, width: nat, upper: bool) -> Seq<char>
    decreases width,
{
    if width == 0 {
        Seq::empty()
    } else {
        hex_chars(n / 16, (width - 1) as nat, upper).push(
            if upper {
                upper_digit_char((n % 16) as int)
            } else {
                digit_char((n % 16) as int)
            },
        )
    }
}

pub proof fn hex_chars_len(n: nat, width: nat, upper: bool)
    ensures
        hex_chars(n, width, upper).len() == width,
    decreases width,
{
    if width > 0 {
        hex_chars_len(n / 16, (width - 1) as nat, upper);
    }
}

pub proof fn hex_chars_are_digits(n: nat, width: nat)
    ensures
        hex_chars(n, width, false).len() == width,
        forall|i: int|
            0 <= i < width ==> identity::lower_hex(#[trigger] hex_chars(n, width, false)[i]),
    decreases width,
{
    if width > 0 {
        hex_chars_are_digits(n / 16, (width - 1) as nat);
    }
}

fn digit(d: u8, upper: bool) -> (c: char)
    requires
        d < 16,
    ensures
        upper ==> c == upper_digit_char(d as int),
        !upper ==> c == digit_char(d as int),
{
    if d < 10 {
        (48 + d) as char
    } else if upper {
        (55 + d) as char
    } else {
        (87 + d) as char
    }
}

/// Adds a number in decimal notation at the end of a text.
pub fn push_decimal(out: &mut String, n: u64)
    ensures
        final(out)@ == old(out)@ + decimal_chars(n as nat),
    decreases n,
{
    if n >= 10 {
        push_decimal(out, n / 10);
    } else {
        assert(old(out)@ + decimal_chars(n as nat) =~= old(out)@.push(digit_char(n as int)));
    }
    let ghost middle = out@;
    out.push(digit((n % 10) as u8, false));
    assert(out@ =~= old(out)@ + decimal_chars(n as nat));
}

/// Adds the last `width` digits of a number in base 16 at the end of a text.
pub fn push_hex(out: &mut String, n: u64, width: usize, upper: bool)
    ensures
        final(out)@ == old(out)@ + hex_chars(n as nat, width as nat, upper),
    decreases width,
{
    if width > 0 {
        push_hex(out, n / 16, width - 1, upper);
        out.push(digit((n % 16) as u8, upper));
    }
    assert(out@ =~= old(out)@ + hex_chars(n as nat, width as nat, upper));
}

/// The last `width` digits of a number in decimal notation.
pub open spec fn fixed_decimal(n: nat, width: nat) -> Seq<char>
    decreases width,
{
    if width == 0 {
        Seq::empty()
    } else {
        fixed_decimal(n / 10, (width - 1) as nat).push(digit_char((n % 10) as int))
    }
}

/// Adds the last `width` digits of a number in decimal notation at the end of
/// a text.
pub fn push_fixed_decimal(out: &mut String, n: u64, width: usize)
    ensures
        final(out)@ == old(out)@ + fixed_decimal(n as nat, width as nat),
    decreases width,
{
    if width > 0 {
        push_fixed_decimal(out, n / 10, width - 1);
        out.push(digit((n % 10) as u8, false));
    }
    assert(out@ =~= old(out)@ + fixed_decimal(n as nat, width as nat));
}

/// A number in decimal notation.
pub fn decimal(n: u64) -> (s: String)
    ensures
        s@ == decimal_chars(n as nat),
{
    let mut out = String::new();
    push_decimal(&mut out, n);
    assert(out@ =~= decimal_chars(n as nat));
    out
}

/// A text followed by spaces up to a width in characters.
pub open spec fn left_aligned(s: Seq<char>, width: nat) -> Seq<char> {
    if s.len() < width {
        s + Seq::new((width - s.len()) as nat, |i: int| ' ')
    } else {
        s
    }
}

/// Adds a text, filled with spaces up to a width, at the end of another.
pub fn push_left_aligned(out: &mut String, s: &str, width: usize)
    ensures
        final(out)@ == old(out)@ + left_aligned(s@, width as nat),
{
    let len: usize = s.unicode_len();
    out.append(s);
    let mut i: usize = len;
    assert(out@ =~= old(out)@ + left_aligned(s@, len as nat));
    while i < width
        invariant
            len == s@.len(),
            len <= i,
            i <= width || i == len,
            out@ == old(out)@ + left_aligned(s@, i as nat),
        decreases width - i,
    {
        let ghost held = out@;
        out.push(' ');
        i = i + 1;
        assert(left_aligned(s@, i as nat) =~= left_aligned(s@, (i - 1) as nat).push(' '));
        assert(out@ =~= old(out)@ + left_aligned(s@, i as nat));
    }
    assert(left_aligned(s@, i as nat) =~= left_aligned(s@, width as nat));
}

/// The value of a string of decimal digits, if it is one.
pub open spec fn digits_value(s: Seq<char>) -> Option<nat>
    decreases s.len(),
{
    if s.len() == 0 {
        None
    } else if !('0' <= s.last() && s.last() <= '9') {
        None
    } else {
        let d = (s.last() as nat - 48) as nat;
        if s.len() == 1 {
            Some(d)
        } else {
            match digits_value(s.drop_last()) {
                Some(rest) => Some(10 * rest + d),
                None => None,
            }
        }
    }
}

/// What a number written in decimal notation parses to: an optional plus
/// sign, then digits, within the range of a `u64`.
pub open spec fn parsed_u64(s: Seq<char>) -> Option<u64> {
    let digits = if s.len() > 0 && s[0] == '+' {
        s.drop_first()
    } else {
        s
    };
    match digits_value(digits) {
        Some(value) => if value <= u64::MAX {
            Some(value as u64)
        } else {
            None
        },
        None => None,
    }
}

pub fn chars_of(s: &str) -> (chars: Vec<char>)
    ensures
        chars@ == s@,
{
    let mut chars: Vec<char> = Vec::new();
    for c in it: s.chars()
        invariant
            chars@ == it.seq().take(it.index()),
            it.seq() == s@,
    {
        chars.push(c);
    }
    chars
}

proof fn digits_value_of_bad(s: Seq<char>, k: int)
    requires
        0 <= k < s.len(),
        !('0' <= s[k] && s[k] <= '9'),
    ensures
        digits_value(s) is None,
    decreases s.len(),
{
    if k < s.len() - 1 {
        digits_value_of_bad(s.drop_last(), k);
    }
}

proof fn digits_value_of_longer(s: Seq<char>, k: int)
    requires
        1 <= k <= s.len(),
        digits_value(s) is Some,
    ensures
        digits_value(s.take(k)) is Some,
        digits_value(s.take(k))->0 <= digits_value(s)->0,
    decreases s.len() - k,
{
    if k < s.len() {
        let front = s.drop_last();
        assert(front.take(k) =~= s.take(k));
        digits_value_of_longer(front, k);
    } else {
        assert(s.take(k) =~= s);
    }
}

/// Parses a number in decimal notation.
pub fn parse_u64(s: &str) -> (value: Option<u64>)
    ensures
        value == parsed_u64(s@),
{
    let chars = chars_of(s);
    let start: usize = if chars.len() > 0 && chars[0] == '+' {
        1
    } else {
        0
    };
    let ghost digits = s@.skip(start as int);
    proof {
        assert(s@.skip(0) =~= s@);
        if start == 1 {
            assert(s@.skip(1) =~= s@.drop_first());
        }
    }
    if chars.len() == start {
        return None;
    }
    let mut value: u64 = 0;
    for i in start..chars.len()
        invariant
            chars@ == s@,
            start <= 1,
            start < chars@.len(),
            digits == s@.skip(start as int),
            parsed_u64(s@) == (match digits_value(digits) {
                Some(value) => if value <= u64::MAX {
                    Some(value as u64)
                } else {
                    None
                },
                None => None,
            }),
            i == start ==> value == 0,
            i > start ==> digits_value(digits.take(i - start)) == Some(value as nat),
    {
        let c: char = chars[i];
        assert(digits[i - start] == c);
        if c < '0' || c > '9' {
            proof {
                digits_value_of_bad(digits, i - start);
            }
            return None;
        }
        let d: u64 = (c as u32 - 48) as u64;
        let ghost now = digits.take(i + 1 - start);
        proof {
            assert(now.drop_last() =~= digits.take(i - start));
            assert(now.last() == c);
            assert(digits_value(now) == Some((10 * value + d) as nat));
            if digits_value(digits) is Some {
                digits_value_of_longer(digits, i + 1 - start);
            }
        }
        if value > (u64::MAX - d) / 10 {
            assert(10 * value + d > u64::MAX);
            return None;
        }
        value = 10 * value + d;
    }
    assert(digits.take(chars@.len() - start) =~= digits);
    Some(value)
}

proof fn decimal_has_value(n: nat)
    ensures
        digits_value(decimal_chars(n)) == Some(n),
        decimal_chars(n).len() >= 1,
        '0' <= decimal_chars(n)[0] <= '9',
    decreases n,
{
    let s = decimal_chars(n);
    if n < 10 {
        assert(s.last() == digit_char(n as int));
    } else {
        decimal_has_value(n / 10);
        assert(s.drop_last() =~= decimal_chars(n / 10));
        assert(s.last() == digit_char((n % 10) as int));
        assert(s[0] == decimal_chars(n / 10)[0]);
    }
}

/// Law: a number that was written out reads back as itself.
pub proof fn decimal_parses_back(n: u64)
    ensures
        parsed_u64(decimal_chars(n as nat)) == Some(n),
{
    decimal_has_value(n as nat);
}

proof fn digit_chars_differ(a: int, b: int)
    requires
        0 <= a < 16,
        0 <= b < 16,
    ensures
        digit_char(a) == digit_char(b) ==> a == b,
        upper_digit_char(a) == upper_digit_char(b) ==> a == b,
{
}

/// Law: of a number written in base 16, the digit at each place is the one that
/// the place's power of 16 gives, from the largest power down; two numbers that are
/// written alike agree in those places.
pub proof fn hex_digits_have_places(n: nat, width: nat, upper: bool, i: int)
    requires
        0 <= i < width,
    ensures
        hex_chars(n, width, upper).len() == width,
        ({
            let d = (n as int / pow(16, (width - 1 - i) as nat)) % 16;
            let c = hex_chars(n, width, upper)[i] as int;
            c == if d < 10 {
                '0' as int + d
            } else if upper {
                'A' as int + d - 10
            } else {
                'a' as int + d - 10
            }
        }),
    decreases width,
{
    hex_chars_len(n, width, upper);
    vstd::arithmetic::power::lemma_pow0(16);
    if i < width - 1 {
        let k = (width - 2 - i) as nat;
        hex_digits_have_places(n / 16, (width - 1) as nat, upper, i);
        hex_chars_len(n / 16, (width - 1) as nat, upper);
        vstd::arithmetic::power::lemma_pow_positive(16, k);
        vstd::arithmetic::power::lemma_pow1(16);
        vstd::arithmetic::power::lemma_pow_adds(16, 1, k);
        vstd::arithmetic::div_mod::lemma_div_denominator(n as int, 16, pow(16, k));
    }
}

/// Law: two numbers of 64 bits that are written alike, in 16 digits of base 16, are
/// the same.
pub proof fn hex_tells_numbers_apart(a: nat, b: nat, width: nat, upper: bool)
    requires
        hex_chars(a, width, upper) == hex_chars(b, width, upper),
    ensures
        a as int % pow(16, width) == b as int % pow(16, width),
    decreases width,
{
    vstd::arithmetic::power::lemma_pow0(16);
    if width > 0 {
        let w = (width - 1) as nat;
        let x = hex_chars(a, width, upper);
        let y = hex_chars(b, width, upper);
        assert(x.drop_last() =~= hex_chars(a / 16, w, upper));
        assert(y.drop_last() =~= hex_chars(b / 16, w, upper));
        hex_tells_numbers_apart(a / 16, b / 16, w, upper);
        digit_chars_differ((a % 16) as int, (b % 16) as int);
        assert(x.last() == y.last());
        vstd::arithmetic::power::lemma_pow_positive(16, w);
        vstd::arithmetic::power::lemma_pow1(16);
        vstd::arithmetic::power::lemma_pow_adds(16, 1, w);
        vstd::arithmetic::div_mod::lemma_breakdown(a as int, 16, pow(16, w));
        vstd::arithmetic::div_mod::lemma_breakdown(b as int, 16, pow(16, w));
    }
}

/// Law: of a number written with a fixed count of decimal digits, the digit at each
/// place is the one that the place's power of ten gives.
pub proof fn fixed_digits_have_places(n: nat, width: nat, i: int)
    requires
        0 <= i < width,
    ensures
        fixed_decimal(n, width).len() == width,
        fixed_decimal(n, width)[i] as int == '0' as int + (n as int / pow(
            10,
            (width - 1 - i) as nat,
        )) % 10,
    decreases width,
{
    vstd::arithmetic::power::lemma_pow0(10);
    fixed_decimal_len(n, width);
    if i < width - 1 {
        let k = (width - 2 - i) as nat;
        fixed_digits_have_places(n / 10, (width - 1) as nat, i);
        vstd::arithmetic::power::lemma_pow_positive(10, k);
        vstd::arithmetic::power::lemma_pow1(10);
        vstd::arithmetic::power::lemma_pow_adds(10, 1, k);
        vstd::arithmetic::div_mod::lemma_div_denominator(n as int, 10, pow(10, k));
    }
}

proof fn fixed_decimal_len(n: nat, width: nat)
    ensures
        fixed_decimal(n, width).len() == width,
    decreases width,
{
    if width > 0 {
        fixed_decimal_len(n / 10, (width - 1) as nat);
    }
}

/// Law: a number in decimal notation has as many digits as it takes and no leading
/// zero, and the digit at each place is the one that the place's power of ten gives.
pub proof fn decimal_digits_have_places(n: nat, i: int)
    requires
        0 <= i < decimal_chars(n).len(),
    ensures
        ({
            let len = decimal_chars(n).len();
            &&& len >= 1
            &&& n < pow(10, len)
            &&& n > 0 ==> pow(10, (len - 1) as nat) <= n
            &&& n == 0 ==> len == 1
            &&& decimal_chars(n)[i] as int == '0' as int + (n as int / pow(
                10,
                (len - 1 - i) as nat,
            )) % 10
        }),
    decreases n,
{
    vstd::arithmetic::power::lemma_pow0(10);
    vstd::arithmetic::power::lemma_pow1(10);
    if n >= 10 {
        let front = decimal_chars(n / 10);
        let k = (front.len() - 1) as nat;
        decimal_has_value(n / 10);
        let j = if i < front.len() {
            i
        } else {
            0
        };
        decimal_digits_have_places(n / 10, j);
        vstd::arithmetic::power::lemma_pow_adds(10, 1, k);
        vstd::arithmetic::power::lemma_pow_adds(10, 1, front.len());
        if i < front.len() {
            let e = (front.len() - 1 - i) as nat;
            vstd::arithmetic::power::lemma_pow_positive(10, e);
            vstd::arithmetic::power::lemma_pow_adds(10, 1, e);
            vstd::arithmetic::div_mod::lemma_div_denominator(n as int, 10, pow(10, e));
        }
    }
}

/// Law: what is read of a number: nothing but digits, at least one, behind a plus
/// sign at most. Each further digit stands for itself and makes the ones before it
/// ten times as much.
pub proof fn digits_count_by_tens(s: Seq<char>, c: char)
    ensures
        parsed_u64(Seq::empty()) is None,
        digits_value(Seq::empty()) is None,
        digits_value(s.push(c)) == (if '0' <= c <= '9' {
            if s.len() == 0 {
                Some((c as int - '0' as int) as nat)
            } else {
                match digits_value(s) {
                    Some(v) => Some((10 * v + (c as int - '0' as int)) as nat),
                    None => None,
                }
            }
        } else {
            None
        }),
        parsed_u64(seq!['+'] + s) == (match digits_value(s) {
            Some(v) => if v <= u64::MAX {
                Some(v as u64)
            } else {
                None
            },
            None => None,
        }),
        s.len() > 0 && s[0] != '+' ==> parsed_u64(s) == (match digits_value(s) {
            Some(v) => if v <= u64::MAX {
                Some(v as u64)
            } else {
                None
            },
            None => None,
        }),
{
    assert(s.push(c).drop_last() =~= s);
    assert((seq!['+'] + s).drop_first() =~= s);
}

/// A text cut at every separator: one piece more than there are separators.
pub open spec fn pieces(s: Seq<char>, separator: char) -> Seq<Seq<char>>
    decreases s.len(),
{
    if s.len() == 0 {
        seq![Seq::empty()]
    } else {
        let before = pieces(s.drop_last(), separator);
        if s.last() == separator {
            before.push(Seq::empty())
        } else {
            before.drop_last().push(before.last().push(s.last()))
        }
    }
}

pub proof fn pieces_are_some(s: Seq<char>, separator: char)
    ensures
        pieces(s, separator).len() >= 1,
    decreases s.len(),
{
    if s.len() > 0 {
        pieces_are_some(s.drop_last(), separator);
    }
}

/// Cuts a text at every separator.
pub fn split(s: &str, separator: char) -> (parts: Vec<String>)
    ensures
        parts.deep_view() == pieces(s@, separator),
{
    let chars = chars_of(s);
    let mut parts: Vec<String> = Vec::new();
    let mut current = String::new();
    proof {
        assert(s@.take(0) =~= Seq::<char>::empty());
        assert(parts.deep_view().push(current@) =~= seq![Seq::<char>::empty()]);
    }
    for i in 0..chars.len()
        invariant
            chars@ == s@,
            parts.deep_view().push(current@) == pieces(s@.take(i as int), separator),
    {
        let c: char = chars[i];
        let ghost done = parts.deep_view();
        let ghost piece = current@;
        proof {
            assert(s@.take(i + 1).drop_last() =~= s@.take(i as int));
            assert(s@.take(i + 1).last() == c);
            assert(done.push(piece).drop_last() =~= done);
        }
        if c == separator {
            parts.push(current);
            current = String::new();
            assert(parts.deep_view() =~= done.push(piece));
        } else {
            current.push(c);
        }
    }
    assert(s@.take(chars@.len() as int) =~= s@);
    let ghost done = parts.deep_view();
    let ghost piece = current@;
    parts.push(current);
    assert(parts.deep_view() =~= done.push(piece));
    parts
}

/// How many characters stand before the first separator.
pub open spec fn up_to(s: Seq<char>, separator: char) -> nat
    decreases s.len(),
{
    if s.len() == 0 || s[0] == separator {
        0
    } else {
        1 + up_to(s.drop_first(), separator)
    }
}

/// The text before and after the first separator, if there is one.
pub open spec fn halves(s: Seq<char>, separator: char) -> Option<(Seq<char>, Seq<char>)> {
    let at = up_to(s, separator) as int;
    if at < s.len() {
        Some((s.take(at), s.skip(at + 1)))
    } else {
        None
    }
}

/// Cuts a text at its first separator.
pub fn split_once(s: &str, separator: char) -> (parts: Option<(String, String)>)
    ensures
        parts.deep_view() == halves(s@, separator),
{
    let chars = chars_of(s);
    let mut at: usize = 0;
    assert(s@.skip(0) =~= s@);
    while at < chars.len() && chars[at] != separator
        invariant
            chars@ == s@,
            at <= s@.len(),
            up_to(s@, separator) == at + up_to(s@.skip(at as int), separator),
        decreases s@.len() - at,
    {
        assert(s@.skip(at as int).drop_first() =~= s@.skip(at + 1));
        at = at + 1;
    }
    if at < chars.len() {
        let front = s.substring_char(0, at).to_owned();
        let back = s.substring_char(at + 1, chars.len()).to_owned();
        assert(front@ =~= s@.take(at as int));
        assert(back@ =~= s@.skip(at + 1));
        Some((front, back))
    } else {
        None
    }
}

/// Some words, as owned texts.
pub fn words(list: Vec<&str>) -> (owned: Vec<String>)
    ensures
        owned.deep_view() == Seq::new(list@.len(), |i: int| list@[i]@),
{
    let mut owned: Vec<String> = Vec::new();
    for i in 0..list.len()
        invariant
            owned@.len() == i,
            forall|k: int| 0 <= k < i ==> (#[trigger] owned@[k])@ == list@[k]@,
    {
        owned.push(list[i].to_owned());
    }
    assert(owned.deep_view() =~= Seq::new(list@.len(), |i: int| list@[i]@));
    owned
}

/// Whether a text holds another one somewhere.
pub open spec fn holds(s: Seq<char>, part: Seq<char>) -> bool {
    exists|i: int|
        0 <= i <= s.len() - part.len() && #[trigger] s.subrange(i, i + part.len()) == part
}

/// Whether a text holds another one somewhere.
pub fn contains(s: &str, part: &str) -> (r: bool)
    ensures
        r == holds(s@, part@),
{
    let n: usize = s.unicode_len();
    let m: usize = part.unicode_len();
    if n < m {
        return false;
    }
    let mut i: usize = 0;
    loop
        invariant
            n == s@.len(),
            m == part@.len(),
            m <= n,
            i <= n - m,
            forall|k: int| 0 <= k < i ==> #[trigger] s@.subrange(k, k + m) != part@,
        decreases n - i,
    {
        let piece = s.substring_char(i, i + m);
        assert(piece@ =~= s@.subrange(i as int, i + m));
        if same(piece, part) {
            return true;
        }
        if i == n - m {
            return false;
        }
        i = i + 1;
    }
}

/// One path below another: an absolute one stands for itself.
pub open spec fn joined_path(base: Seq<char>, name: Seq<char>) -> Seq<char> {
    if name.len() > 0 && name[0] == '/' {
        name
    } else if base.len() == 0 || base.last() == '/' {
        base + name
    } else {
        base + seq!['/'] + name
    }
}

/// One path below another: an absolute one stands for itself.
pub fn join_path(base: &str, name: &str) -> (path: String)
    ensures
        path@ == joined_path(base@, name@),
{
    let n: usize = name.unicode_len();
    let b: usize = base.unicode_len();
    if n > 0 && name.get_char(0) == '/' {
        return name.to_owned();
    }
    let mut path = base.to_owned();
    if b > 0 && base.get_char(b - 1) != '/' {
        path.push('/');
    }
    path.append(name);
    assert(path@ =~= joined_path(base@, name@));
    path
}

/// What follows a prefix, if the text starts with it.
pub fn strip_prefix(s: &str, prefix: &str) -> (rest: Option<String>)
    ensures
        match rest {
            Some(r) => s@.len() >= prefix@.len() && s@.take(prefix@.len() as int) == prefix@ && r@
                == s@.skip(prefix@.len() as int),
            None => s@.len() < prefix@.len() || s@.take(prefix@.len() as int) != prefix@,
        },
{
    let n: usize = s.unicode_len();
    let m: usize = prefix.unicode_len();
    if n < m {
        return None;
    }
    let front = s.substring_char(0, m);
    assert(front@ =~= s@.take(m as int));
    if same(front, prefix) {
        let rest = s.substring_char(m, n).to_owned();
        assert(rest@ =~= s@.skip(m as int));
        Some(rest)
    } else {
        None
    }
}

/// How a text is shown in quotes, with escapes where they are needed.
pub uninterp spec fn quoted_chars(s: Seq<char>) -> Seq<char>;

/// Calls the `Debug` form of `str` of the standard library. The result
/// depends on the text alone.
#[verifier::external_body]
pub(crate) fn quoted(s: &str) -> (q: String)
    ensures
        q@ == quoted_chars(s@),
{
    format!("{:?}", s)
}

/// What is wrong with a text that is no number of 64 bits without a sign, in
/// words; nothing where it is one.
pub uninterp spec fn number_error_chars(s: Seq<char>) -> Seq<char>;

/// Calls `u64::from_str` of the standard library, through `str::parse`, and
/// writes its error out. The words depend on the text alone. What they are is
/// not claimed.
#[verifier::external_body]
pub(crate) fn number_error(s: &str) -> (m: String)
    ensures
        m@ == number_error_chars(s@),
{
    match s.parse::<u64>() {
        Ok(_) => String::new(),
        Err(e) => e.to_string(),
    }
}

/// Texts put together again, with a separator between any two.
pub open spec fn rejoined(parts: Seq<Seq<char>>, separator: char) -> Seq<char>
    decreases parts.len(),
{
    if parts.len() == 0 {
        Seq::empty()
    } else if parts.len() == 1 {
        parts[0]
    } else {
        rejoined(parts.drop_last(), separator).push(separator) + parts.last()
    }
}

/// No text of some holds a separator.
pub open spec fn unseparated(parts: Seq<Seq<char>>, separator: char) -> bool {
    forall|i: int, j: int|
        0 <= i < parts.len() && 0 <= j < parts[i].len() ==> #[trigger] parts[i][j] != separator
}

/// Law: a text that is cut at every separator is whole again once its pieces are put
/// together, and no piece holds a separator.
pub proof fn cutting_loses_nothing(s: Seq<char>, separator: char)
    ensures
        pieces(s, separator).len() >= 1,
        rejoined(pieces(s, separator), separator) == s,
        unseparated(pieces(s, separator), separator),
    decreases s.len(),
{
    let parts = pieces(s, separator);
    if s.len() == 0 {
        assert(rejoined(parts, separator) =~= s);
    } else {
        let front = s.drop_last();
        let before = pieces(front, separator);
        cutting_loses_nothing(front, separator);
        if s.last() == separator {
            assert(parts.drop_last() =~= before);
            assert(rejoined(parts, separator) =~= s);
        } else {
            assert(parts.drop_last() =~= before.drop_last());
            assert(parts.last() == before.last().push(s.last()));
            assert(rejoined(parts, separator) =~= rejoined(before, separator).push(s.last()));
            assert(front.push(s.last()) =~= s);
            assert forall|i: int, j: int|
                0 <= i < parts.len() && 0 <= j < parts[i].len() implies #[trigger] parts[i][j]
                != separator by {
                if i < parts.len() - 1 {
                    assert(parts[i] == before[i]);
                    assert(before[i][j] != separator);
                } else if j < before.last().len() {
                    assert(before[before.len() - 1][j] != separator);
                }
            }
        }
    }
}

proof fn cutting_extends(s: Seq<char>, separator: char, t: Seq<char>)
    requires
        forall|j: int| 0 <= j < t.len() ==> #[trigger] t[j] != separator,
    ensures
        pieces(s + t, separator) == pieces(s, separator).drop_last().push(
            pieces(s, separator).last() + t,
        ),
        pieces(s, separator).len() >= 1,
    decreases t.len(),
{
    pieces_are_some(s, separator);
    let parts = pieces(s, separator);
    if t.len() == 0 {
        assert(s + t =~= s);
        assert(parts.last() + t =~= parts.last());
        assert(parts.drop_last().push(parts.last()) =~= parts);
    } else {
        let front = t.drop_last();
        assert forall|j: int| 0 <= j < front.len() implies #[trigger] front[j] != separator by {
            assert(t[j] == front[j]);
        }
        cutting_extends(s, separator, front);
        assert(t[t.len() - 1] != separator);
        assert((s + t).drop_last() =~= s + front);
        assert((parts.last() + front).push(t.last()) =~= parts.last() + t);
        let mid = pieces(s + front, separator);
        assert(mid.drop_last() =~= parts.drop_last());
    }
}

/// Law: pieces that hold no separator are found again when they were put together.
pub proof fn cutting_finds_the_pieces(parts: Seq<Seq<char>>, separator: char)
    requires
        parts.len() >= 1,
        unseparated(parts, separator),
    ensures
        pieces(rejoined(parts, separator), separator) == parts,
    decreases parts.len(),
{
    let last = parts.last();
    assert forall|j: int| 0 <= j < last.len() implies #[trigger] last[j] != separator by {
        assert(parts[parts.len() - 1][j] != separator);
    }
    if parts.len() == 1 {
        let none = Seq::<char>::empty();
        cutting_extends(none, separator, last);
        assert(none + last =~= last);
        assert(pieces(last, separator) =~= parts);
    } else {
        let front = parts.drop_last();
        assert forall|i: int, j: int|
            0 <= i < front.len() && 0 <= j < front[i].len() implies #[trigger] front[i][j]
            != separator by {
            assert(parts[i][j] != separator);
        }
        cutting_finds_the_pieces(front, separator);
        let s = rejoined(front, separator);
        assert(s.push(separator).drop_last() =~= s);
        let open = pieces(s.push(separator), separator);
        assert(open =~= front.push(Seq::empty()));
        cutting_extends(s.push(separator), separator, last);
        assert(open.last() + last =~= last);
        assert(open.drop_last().push(last) =~= parts);
    }
}

/// Law: a text is cut in two at its first separator: what comes before it holds none,
/// and both halves with the separator between them are the text. It is not cut if it
/// holds none.
pub proof fn halving_is_at_the_first(s: Seq<char>, separator: char, a: Seq<char>, b: Seq<char>)
    ensures
        halves(s, separator) == Some((a, b)) <==> s == a.push(separator) + b && !a.contains(
            separator,
        ),
        halves(s, separator) is None <==> !s.contains(separator),
    decreases s.len(),
{
    up_to_is_first(s, separator);
    let at = up_to(s, separator) as int;
    if at < s.len() {
        assert(s =~= s.take(at).push(separator) + s.skip(at + 1));
        assert(s.contains(separator)) by {
            assert(s[at] == separator);
        }
        assert(!s.take(at).contains(separator)) by {
            if s.take(at).contains(separator) {
                let i = choose|i: int| 0 <= i < s.take(at).len() && s.take(at)[i] == separator;
                assert(s[i] == separator);
            }
        }
        if s == a.push(separator) + b && !a.contains(separator) {
            assert(s[a.len() as int] == separator);
            if at < a.len() {
                assert(a[at] == s[at]);
                assert(a.contains(separator));
            }
            assert(at == a.len());
            assert(s.take(at) =~= a);
            assert(s.skip(at + 1) =~= b);
        }
    } else {
        assert(!s.contains(separator)) by {
            if s.contains(separator) {
                let i = choose|i: int| 0 <= i < s.len() && s[i] == separator;
                assert(s[i] == separator);
            }
        }
        if s == a.push(separator) + b {
            assert(s[a.len() as int] == separator);
            assert(s.contains(separator));
        }
    }
}

proof fn up_to_is_first(s: Seq<char>, separator: char)
    ensures
        up_to(s, separator) <= s.len(),
        up_to(s, separator) < s.len() ==> s[up_to(s, separator) as int] == separator,
        forall|i: int| 0 <= i < up_to(s, separator) ==> #[trigger] s[i] != separator,
    decreases s.len(),
{
    if s.len() > 0 && s[0] != separator {
        up_to_is_first(s.drop_first(), separator);
        assert forall|i: int| 0 <= i < up_to(s, separator) implies #[trigger] s[i]
            != separator by {
            if i > 0 {
                assert(s.drop_first()[i - 1] == s[i]);
            }
        }
    }
}

/// Law: a text of digits without a zero in front is how its value is written.
pub proof fn digits_are_the_decimal(s: Seq<char>, n: nat)
    requires
        digits_value(s) == Some(n),
        s.len() > 1 ==> s[0] != '0',
    ensures
        s == decimal_chars(n),
    decreases s.len(),
{
    let front = s.drop_last();
    let d = (s.last() as nat - 48) as nat;
    if s.len() == 1 {
        assert(s =~= seq![digit_char(n as int)]);
    } else {
        let rest = digits_value(front)->0;
        assert(front[0] == s[0]);
        assert(rest > 0) by {
            digits_value_of_longer(front, 1);
            assert(front.take(1).last() == s[0]);
            assert(front.take(1).drop_last() =~= Seq::empty());
        }
        digits_are_the_decimal(front, rest);
        assert(n / 10 == rest && n % 10 == d);
        assert(s =~= front.push(digit_char(d as int)));
    }
}

/// Law: one path below another holds both, with one slash between them at least; an
/// absolute one stands for itself.
pub proof fn paths_are_put_together(base: Seq<char>, name: Seq<char>)
    ensures
        name.len() > 0 && name[0] == '/' ==> joined_path(base, name) == name,
        !(name.len() > 0 && name[0] == '/') ==> {
            let all = joined_path(base, name);
            &&& base.is_prefix_of(all)
            &&& name == all.skip(all.len() - name.len())
            &&& base.len() > 0 ==> all.len() - name.len() > 0 && all[all.len() - name.len() - 1]
                == '/'
            &&& all.len() <= base.len() + 1 + name.len()
            &&& base.len() == 0 ==> all == name
        },
{
    if !(name.len() > 0 && name[0] == '/') {
        let all = joined_path(base, name);
        assert(name =~= all.skip(all.len() - name.len()));
        assert(all.subrange(0, base.len() as int) =~= base);
        if base.len() == 0 {
            assert(all =~= name);
        }
    }
}


/// Law: a cell is its text, filled with spaces up to its width; a text that is
/// too wide is kept whole.
pub proof fn cells_are_filled_with_spaces(s: Seq<char>, width: nat)
    ensures
        left_aligned(s, width).len() == (if s.len() < width {
            width
        } else {
            s.len()
        }),
        left_aligned(s, width).take(s.len() as int) == s,
        forall|i: int|
            s.len() <= i < left_aligned(s, width).len() ==> #[trigger] left_aligned(s, width)[i]
                == ' ',
{
    assert(left_aligned(s, width).take(s.len() as int) =~= s);
}


/// Law: of a number written as bytes with a fixed count of decimal digits, the
/// digit at each place is the one that the place's power of ten gives.
pub proof fn padded_digits_have_places(n: nat, width: nat, i: int)
    requires
        0 <= i < width,
    ensures
        padded_digits(n, width).len() == width,
        padded_digits(n, width)[i] == 48 + (n as int / pow(10, (width - 1 - i) as nat)) % 10,
    decreases width,
{
    vstd::arithmetic::power::lemma_pow0(10);
    padded_digits_len(n, width);
    if i < width - 1 {
        let k = (width - 2 - i) as nat;
        padded_digits_have_places(n / 10, (width - 1) as nat, i);
        vstd::arithmetic::power::lemma_pow_positive(10, k);
        vstd::arithmetic::power::lemma_pow1(10);
        vstd::arithmetic::power::lemma_pow_adds(10, 1, k);
        vstd::arithmetic::div_mod::lemma_div_denominator(n as int, 10, pow(10, k));
    }
}


/// Law: of two texts the one comes first that has the smaller byte where they
/// first differ, or that is the other's beginning.
pub proof fn texts_come_in_dictionary_order(a: &str, b: &str, r: bool, k: int)
    requires
        call_ensures(before, (a, b), r),
    ensures
        ({
            let x = vstd::utf8::encode_utf8(a@);
            let y = vstd::utf8::encode_utf8(b@);
            &&& first_smaller_at(x, y, k) ==> r
            &&& first_smaller_at(y, x, k) ==> !r
            &&& x.len() < y.len() && y.take(x.len() as int) == x ==> r
            &&& y.len() <= x.len() && x.take(y.len() as int) == y ==> !r
        }),
{
    let x = vstd::utf8::encode_utf8(a@);
    let y = vstd::utf8::encode_utf8(b@);
    if first_smaller_at(x, y, k) {
        smaller_at_first_difference(x, y, k);
    }
    if first_smaller_at(y, x, k) {
        smaller_at_first_difference(y, x, k);
        text_before_is_total(a@, b@);
    }
    if x.len() < y.len() && y.take(x.len() as int) == x {
        beginnings_come_first(x, y);
    }
    if y.len() < x.len() && x.take(y.len() as int) == y {
        beginnings_come_first(y, x);
        text_before_is_total(a@, b@);
    }
    if y.len() == x.len() && x.take(y.len() as int) == y {
        assert(x =~= y);
        never_before_itself(x);
    }
}

proof fn never_before_itself(x: Seq<u8>)
    ensures
        !bytes_before(x, x),
    decreases x.len(),
{
    if x.len() > 0 {
        never_before_itself(x.drop_first());
    }
}

proof fn beginnings_come_first(x: Seq<u8>, y: Seq<u8>)
    requires
        x.len() < y.len(),
        y.take(x.len() as int) == x,
    ensures
        bytes_before(x, y),
    decreases x.len(),
{
    if x.len() > 0 {
        assert(y.take(x.len() as int)[0] == x[0]);
        let (p, q) = (x.drop_first(), y.drop_first());
        assert(q.take(p.len() as int) =~= p) by {
            assert forall|i: int| 0 <= i < p.len() implies q.take(p.len() as int)[i] == p[i] by {
                assert(y.take(x.len() as int)[i + 1] == x[i + 1]);
            }
        }
        beginnings_come_first(p, q);
    }
}

} // verus!
