//! Numeric notations of the wire format: decimal integers, hexadecimal words and
//! byte strings, and the grammar of real literals.

use vstd::prelude::*;


use crate::text;

verus! {

// ── Decimal integers ─────────────────────────────────────────────────

/// Whether `c` is an ASCII digit.
pub open spec fn is_digit(c: char) -> bool {
    '0' <= c <= '9'
}

/// The digit character for `d` in `0..10`.
pub open spec fn digit_char(d: nat) -> char {
    (48 + d) as char
}

/// The shortest decimal notation of `n`.
pub open spec fn decimal(n: nat) -> Seq<char>
    decreases n,
{
    if n < 10 {
        seq![digit_char(n)]
    } else {
        decimal(n / 10).push(digit_char(n % 10))
    }
}

/// The decimal notation of an integer, with a sign where it is negative.
pub open spec fn signed_decimal(n: int) -> Seq<char> {
    if n < 0 {
        seq!['-'] + decimal((-n) as nat)
    } else {
        decimal(n as nat)
    }
}

/// Whether every character of `s` is a digit.
pub open spec fn all_digits(s: Seq<char>) -> bool {
    forall|i: int| 0 <= i < s.len() ==> is_digit(#[trigger] s[i])
}

/// The number that a row of digits denotes.
pub open spec fn digits_value(s: Seq<char>) -> nat
    decreases s.len(),
{
    if s.len() == 0 {
        0
    } else {
        10 * digits_value(s.drop_last()) + (s.last() as int - 48) as nat
    }
}

/// The integer that `s` denotes: digits behind an optional `+`, or behind an optional
/// sign where `signed`.
pub open spec fn integer_value(s: Seq<char>, signed: bool) -> Option<int> {
    let plus = s.len() > 0 && s[0] == '+';
    let minus = signed && s.len() > 0 && s[0] == '-';
    let digits = if plus || minus {
        s.skip(1)
    } else {
        s
    };
    if digits.len() == 0 || !all_digits(digits) {
        None
    } else if minus {
        Some(-(digits_value(digits) as int))
    } else {
        Some(digits_value(digits) as int)
    }
}

/// The `u64` that `s` denotes, if it denotes one.
pub open spec fn u64_value(s: Seq<char>) -> Option<u64> {
    match integer_value(s, false) {
        Some(n) => if n <= u64::MAX {
            Some(n as u64)
        } else {
            None
        },
        None => None,
    }
}

/// The `i64` that `s` denotes, if it denotes one.
pub open spec fn i64_value(s: Seq<char>) -> Option<i64> {
    match integer_value(s, true) {
        Some(n) => if i64::MIN <= n <= i64::MAX {
            Some(n as i64)
        } else {
            None
        },
        None => None,
    }
}

/// Decimal notation is a non-empty row of digits that denotes the number it came from.
pub proof fn lemma_decimal(n: nat)
    ensures
        decimal(n).len() > 0,
        all_digits(decimal(n)),
        digits_value(decimal(n)) == n,
    decreases n,
{
    if n < 10 {
        assert(decimal(n).drop_last() =~= Seq::<char>::empty());
        assert(digits_value(decimal(n).drop_last()) == 0);
    } else {
        lemma_decimal(n / 10);
        assert(decimal(n).drop_last() =~= decimal(n / 10));
        assert forall|i: int| 0 <= i < decimal(n).len() implies is_digit(#[trigger] decimal(n)[i]) by {
            if i < decimal(n / 10).len() {
                assert(decimal(n)[i] == decimal(n / 10)[i]);
            }
        }
    }
}

/// Reading the decimal notation of a `u64` gives it back.
pub proof fn lemma_u64_round_trip(n: u64)
    ensures
        u64_value(decimal(n as nat)) == Some(n),
{
    lemma_decimal(n as nat);
    assert(is_digit(decimal(n as nat)[0]));
}

/// Reading the decimal notation of an `i64` gives it back.
pub proof fn lemma_i64_round_trip(n: i64)
    ensures
        i64_value(signed_decimal(n as int)) == Some(n),
{
    let s = signed_decimal(n as int);
    if n < 0 {
        lemma_decimal((-n) as nat);
        assert(s.skip(1) =~= decimal((-n) as nat));
    } else {
        lemma_decimal(n as nat);
        assert(is_digit(s[0]));
    }
}

/// The decimal notation of `n`.
pub fn u64_text(n: u64) -> (r: String)
    ensures
        r@ == decimal(n as nat),
    decreases n,
{
    let d: u8 = (n % 10) as u8;
    let mut s = if n < 10 {
        String::new()
    } else {
        u64_text(n / 10)
    };
    s.push((48u8 + d) as char);
    assert(s@ =~= decimal(n as nat));
    s
}

/// The decimal notation of `n`, with a sign where it is negative.
pub fn i64_text(n: i64) -> (r: String)
    ensures
        r@ == signed_decimal(n as int),
{
    if n < 0 {
        let magnitude: u64 = (-(n as i128)) as u64;
        let mut s = String::new();
        s.push('-');
        let digits = u64_text(magnitude);
        s.append(digits.as_str());
        assert(s@ =~= signed_decimal(n as int));
        s
    } else {
        u64_text(n as u64)
    }
}

/// The magnitude of a row of digits from position `from` on, if it is one that is at
/// most `limit`.
fn magnitude_of(chars: &[char], from: usize, limit: u64) -> (r: Option<u64>)
    requires
        from <= chars@.len(),
    ensures
        ({
            let digits = chars@.skip(from as int);
            match r {
                Some(n) => digits.len() > 0 && all_digits(digits) && n == digits_value(digits) && n
                    <= limit,
                None => digits.len() == 0 || !all_digits(digits) || digits_value(digits) > limit,
            }
        }),
{
    let ghost digits = chars@.skip(from as int);
    if from == chars.len() {
        return None;
    }
    let mut value: u64 = 0;
    let mut i: usize = from;
    proof {
        assert(digits.take(0) =~= Seq::<char>::empty());
    }
    while i < chars.len()
        invariant
            digits == chars@.skip(from as int),
            from <= i <= chars@.len(),
            value <= limit,
            value == digits_value(digits.take(i - from)),
            all_digits(digits.take(i - from)),
        decreases chars@.len() - i,
    {
        let c = chars[i];
        let ghost prefix = digits.take(i - from);
        let ghost longer = digits.take(i + 1 - from);
        proof {
            assert(longer.drop_last() =~= prefix);
            assert(longer.last() == c);
            assert(digits[i - from] == c);
        }
        if c < '0' || c > '9' {
            return None;
        }
        let d: u64 = (c as u32 - 48) as u64;
        let next: u128 = (value as u128) * 10 + d as u128;
        if next > limit as u128 {
            proof {
                lemma_digits_value_grows(digits, i + 1 - from);
            }
            return None;
        }
        value = next as u64;
        i += 1;
        assert forall|k: int| 0 <= k < longer.len() implies is_digit(#[trigger] longer[k]) by {
            if k < prefix.len() {
                assert(longer[k] == prefix[k]);
            }
        }
    }
    proof {
        assert(digits.take(i - from) =~= digits);
    }
    Some(value)
}

/// The value of a row of digits is at least the value of each of its prefixes.
proof fn lemma_digits_value_grows(s: Seq<char>, k: int)
    requires
        0 <= k <= s.len(),
    ensures
        all_digits(s) ==> digits_value(s) >= digits_value(s.take(k)),
    decreases s.len(),
{
    if k == s.len() {
        assert(s.take(k) =~= s);
    } else if all_digits(s) {
        let front = s.drop_last();
        assert forall|i: int| 0 <= i < front.len() implies is_digit(#[trigger] front[i]) by {
            assert(front[i] == s[i]);
        }
        lemma_digits_value_grows(front, k);
        assert(front.take(k) =~= s.take(k));
        assert(is_digit(s[s.len() - 1]));
    }
}

/// Reads an unsigned integer: digits behind an optional `+`.
pub fn read_u64(s: &str) -> (r: Option<u64>)
    ensures
        r == u64_value(s@),
{
    let chars = text::chars_of(s);
    let from: usize = if chars.len() > 0 && chars[0] == '+' {
        1
    } else {
        0
    };
    assert(s@.skip(0) =~= s@);
    magnitude_of(chars.as_slice(), from, u64::MAX)
}

/// Reads a signed integer: digits behind an optional `+` or `-`.
pub fn read_i64(s: &str) -> (r: Option<i64>)
    ensures
        r == i64_value(s@),
{
    let chars = text::chars_of(s);
    assert(s@.skip(0) =~= s@);
    if chars.len() > 0 && chars[0] == '-' {
        match magnitude_of(chars.as_slice(), 1, 0x8000_0000_0000_0000) {
            Some(n) => Some((-(n as i128)) as i64),
            None => None,
        }
    } else {
        let from: usize = if chars.len() > 0 && chars[0] == '+' {
            1
        } else {
            0
        };
        match magnitude_of(chars.as_slice(), from, 0x7fff_ffff_ffff_ffff) {
            Some(n) => Some(n as i64),
            None => None,
        }
    }
}

// ── Hexadecimal ──────────────────────────────────────────────────────

/// The lowercase hexadecimal digit for `d` in `0..16`.
pub open spec fn hex_char(d: nat) -> char {
    if d < 10 {
        (48 + d) as char
    } else {
        (87 + d) as char
    }
}

/// A lowercase hexadecimal digit.
pub open spec fn is_lower_hex(c: char) -> bool {
    '0' <= c <= '9' || 'a' <= c <= 'f'
}

/// The value of a hexadecimal digit, in either case.
pub open spec fn hex_digit(b: u8) -> Option<nat> {
    if 48 <= b <= 57 {
        Some((b - 48) as nat)
    } else if 97 <= b <= 102 {
        Some((b - 87) as nat)
    } else if 65 <= b <= 70 {
        Some((b - 55) as nat)
    } else {
        None
    }
}

/// `n` in exactly `width` lowercase hexadecimal digits. Meant for `n` that fits.
pub open spec fn hex_word(n: nat, width: nat) -> Seq<char>
    decreases width,
{
    if width == 0 {
        seq![]
    } else {
        hex_word(n / 16, (width - 1) as nat).push(hex_char(n % 16))
    }
}

/// The bytes in lowercase hexadecimal, two digits each.
pub open spec fn hex_text(bytes: Seq<u8>) -> Seq<char>
    decreases bytes.len(),
{
    if bytes.len() == 0 {
        seq![]
    } else {
        hex_text(bytes.drop_last()) + hex_word(bytes.last() as nat, 2)
    }
}

/// The number that a row of hexadecimal digits denotes, if they all are digits.
pub open spec fn hex_value(s: Seq<u8>) -> Option<nat>
    decreases s.len(),
{
    if s.len() == 0 {
        Some(0)
    } else {
        match (hex_value(s.drop_last()), hex_digit(s.last())) {
            (Some(v), Some(d)) => Some(16 * v + d),
            _ => None,
        }
    }
}

/// The number that a hexadecimal field denotes: digits behind an optional `+`.
pub open spec fn hex_field(s: Seq<u8>) -> Option<nat> {
    if s.len() == 0 {
        None
    } else if s[0] == 43 {
        if s.len() == 1 {
            None
        } else {
            hex_value(s.skip(1))
        }
    } else {
        hex_value(s)
    }
}

/// The bytes that a row of two-character hexadecimal fields denotes.
pub open spec fn hex_bytes(s: Seq<u8>) -> Option<Seq<u8>>
    decreases s.len(),
{
    if s.len() < 2 {
        if s.len() == 0 {
            Some(seq![])
        } else {
            None
        }
    } else {
        match (hex_bytes(s.take(s.len() - 2)), hex_field(s.skip(s.len() - 2))) {
            (Some(front), Some(b)) => Some(front.push(b as u8)),
            _ => None,
        }
    }
}

/// The lowercase hexadecimal digit for `d`.
fn hex_char_of(d: u8) -> (r: char)
    requires
        d < 16,
    ensures
        r == hex_char(d as nat),
{
    if d < 10 {
        (48u8 + d) as char
    } else {
        (87u8 + d) as char
    }
}

/// `n` in sixteen lowercase hexadecimal digits.
pub fn u64_hex(n: u64) -> (r: String)
    ensures
        r@ == hex_word(n as nat, 16),
{
    hex_digits_of(n, 16)
}

fn hex_digits_of(n: u64, width: u8) -> (r: String)
    ensures
        r@ == hex_word(n as nat, width as nat),
    decreases width,
{
    if width == 0 {
        String::new()
    } else {
        let mut s = hex_digits_of(n / 16, width - 1);
        s.push(hex_char_of((n % 16) as u8));
        s
    }
}

/// The bytes in lowercase hexadecimal, two digits each.
pub fn to_hex(bytes: &[u8]) -> (r: String)
    ensures
        r@ == hex_text(bytes@),
{
    let mut s = String::new();
    let mut i: usize = 0;
    proof {
        assert(bytes@.take(0) =~= Seq::<u8>::empty());
        assert(s@ =~= hex_text(bytes@.take(0)));
    }
    while i < bytes.len()
        invariant
            i <= bytes@.len(),
            s@ == hex_text(bytes@.take(i as int)),
        decreases bytes@.len() - i,
    {
        let digits = hex_digits_of(bytes[i] as u64, 2);
        s.append(digits.as_str());
        proof {
            assert(bytes@.take(i + 1).drop_last() =~= bytes@.take(i as int));
            assert(bytes@.take(i + 1).last() == bytes@[i as int]);
        }
        i += 1;
    }
    proof {
        assert(bytes@.take(i as int) =~= bytes@);
    }
    s
}

/// The value of one hexadecimal digit.
fn hex_digit_of(b: u8) -> (r: Option<u8>)
    ensures
        match r {
            Some(d) => hex_digit(b) == Some(d as nat) && d < 16,
            None => hex_digit(b) is None,
        },
{
    if 48 <= b && b <= 57 {
        Some(b - 48)
    } else if 97 <= b && b <= 102 {
        Some(b - 87)
    } else if 65 <= b && b <= 70 {
        Some(b - 55)
    } else {
        None
    }
}

/// `16` to the power `n`.
pub open spec fn pow16(n: nat) -> nat
    decreases n,
{
    if n == 0 {
        1
    } else {
        16 * pow16((n - 1) as nat)
    }
}

proof fn lemma_pow16_monotone(a: nat, b: nat)
    requires
        a <= b,
    ensures
        1 <= pow16(a) <= pow16(b),
    decreases b,
{
    if a < b {
        lemma_pow16_monotone(a, (b - 1) as nat);
    } else if a > 0 {
        lemma_pow16_monotone((a - 1) as nat, (a - 1) as nat);
    }
}

proof fn lemma_hex_value_bound(s: Seq<u8>)
    ensures
        hex_value(s) matches Some(v) ==> v < pow16(s.len()),
    decreases s.len(),
{
    if s.len() > 0 {
        lemma_hex_value_bound(s.drop_last());
    }
}

/// A non-digit anywhere leaves the row without a value.
proof fn lemma_hex_value_prefix(s: Seq<u8>, k: int)
    requires
        0 <= k <= s.len(),
        hex_value(s.take(k)) is None,
    ensures
        hex_value(s) is None,
    decreases s.len(),
{
    if k == s.len() {
        assert(s.take(k) =~= s);
    } else {
        assert(s.drop_last().take(k) =~= s.take(k));
        lemma_hex_value_prefix(s.drop_last(), k);
    }
}

/// Reads `bytes[from..to]`, at most sixteen bytes, as digits behind an optional `+`.
pub fn read_hex_field(bytes: &[u8], from: usize, to: usize) -> (r: Option<u64>)
    requires
        from <= to <= bytes@.len(),
        to - from <= 16,
    ensures
        match r {
            Some(v) => hex_field(bytes@.subrange(from as int, to as int)) == Some(v as nat) && v
                < pow16((to - from) as nat),
            None => hex_field(bytes@.subrange(from as int, to as int)) is None,
        },
{
    let ghost field = bytes@.subrange(from as int, to as int);
    if from == to {
        return None;
    }
    let start: usize = if bytes[from] == 43 {
        from + 1
    } else {
        from
    };
    let ghost digits = bytes@.subrange(start as int, to as int);
    proof {
        assert(field[0] == bytes@[from as int]);
        if start == from + 1 {
            assert(field.skip(1) =~= digits);
        }
        lemma_pow16_monotone(0, 0);
    }
    if start == to {
        return None;
    }
    let mut value: u64 = 0;
    let mut i: usize = start;
    assert(digits.take(0) =~= Seq::<u8>::empty());
    while i < to
        invariant
            from <= start <= i <= to <= bytes@.len(),
            start < to,
            to - from <= 16,
            digits == bytes@.subrange(start as int, to as int),
            hex_value(digits.take(i - start)) == Some(value as nat),
            hex_field(field) == hex_value(digits),
            field == bytes@.subrange(from as int, to as int),
        decreases to - i,
    {
        let ghost prefix = digits.take(i - start);
        let ghost longer = digits.take(i + 1 - start);
        proof {
            assert(longer.drop_last() =~= prefix);
            assert(longer.last() == bytes@[i as int]);
            lemma_hex_value_bound(prefix);
            lemma_pow16_monotone((i - start) as nat, 15);
            assert(pow16(15) == 0x1000_0000_0000_0000) by {
                reveal_with_fuel(pow16, 16);
            }
        }
        match hex_digit_of(bytes[i]) {
            Some(d) => {
                value = value * 16 + d as u64;
            },
            None => {
                proof {
                    lemma_hex_value_prefix(digits, i + 1 - start);
                }
                return None;
            },
        }
        i += 1;
    }
    proof {
        assert(digits.take(i - start) =~= digits);
        lemma_hex_value_bound(digits);
        lemma_pow16_monotone(digits.len(), (to - from) as nat);
    }
    Some(value)
}

/// Reads a row of two-character hexadecimal fields.
pub fn read_hex_bytes(bytes: &[u8]) -> (r: Option<Vec<u8>>)
    ensures
        match r {
            Some(v) => hex_bytes(bytes@) == Some(v@),
            None => hex_bytes(bytes@) is None,
        },
{
    if bytes.len() % 2 != 0 {
        proof {
            lemma_hex_bytes_even(bytes@);
        }
        return None;
    }
    let mut out: Vec<u8> = Vec::new();
    let mut i: usize = 0;
    assert(bytes@.take(0) =~= Seq::<u8>::empty());
    assert(hex_bytes(bytes@.take(0)) == Some(Seq::<u8>::empty()));
    while i < bytes.len()
        invariant
            i <= bytes@.len(),
            i % 2 == 0,
            bytes@.len() % 2 == 0,
            hex_bytes(bytes@.take(i as int)) == Some(out@),
        decreases bytes@.len() - i,
    {
        let ghost longer = bytes@.take(i + 2);
        proof {
            assert(longer.take(longer.len() - 2) =~= bytes@.take(i as int));
            assert(longer.skip(longer.len() - 2) =~= bytes@.subrange(i as int, i + 2));
            assert(pow16(2) == 256) by {
                reveal_with_fuel(pow16, 3);
            }
        }
        match read_hex_field(bytes, i, i + 2) {
            Some(v) => {
                out.push(v as u8);
            },
            None => {
                proof {
                    lemma_hex_bytes_prefix(bytes@, i + 2);
                }
                return None;
            },
        }
        i += 2;
    }
    assert(bytes@.take(i as int) =~= bytes@);
    Some(out)
}

proof fn lemma_hex_bytes_even(s: Seq<u8>)
    ensures
        hex_bytes(s) is Some ==> s.len() % 2 == 0,
    decreases s.len(),
{
    if s.len() >= 2 {
        lemma_hex_bytes_even(s.take(s.len() - 2));
    }
}

proof fn lemma_hex_bytes_prefix(s: Seq<u8>, k: int)
    requires
        0 <= k <= s.len(),
        k % 2 == 0,
        s.len() % 2 == 0,
        hex_bytes(s.take(k)) is None,
    ensures
        hex_bytes(s) is None,
    decreases s.len(),
{
    if k == s.len() {
        assert(s.take(k) =~= s);
    } else {
        let front = s.take(s.len() - 2);
        assert(front.take(k) =~= s.take(k));
        lemma_hex_bytes_prefix(front, k);
    }
}

/// The bytes of an ASCII text.
pub open spec fn ascii_bytes(s: Seq<char>) -> Seq<u8> {
    Seq::new(s.len(), |i: int| s[i] as u8)
}

/// `hex_word` is `width` lowercase digits.
pub proof fn lemma_hex_digits(n: nat, width: nat)
    ensures
        hex_word(n, width).len() == width,
        forall|i: int| 0 <= i < width ==> is_lower_hex(#[trigger] hex_word(n, width)[i]),
    decreases width,
{
    if width > 0 {
        lemma_hex_digits(n / 16, (width - 1) as nat);
    }
}

/// `hex_word` is ASCII, `width` long, holds no `+`, and denotes the number it came from.
pub proof fn lemma_hex_word(n: nat, width: nat)
    requires
        n < pow16(width),
    ensures
        hex_word(n, width).len() == width,
        vstd::utf8::is_ascii_chars(hex_word(n, width)),
        forall|i: int| 0 <= i < width ==> ascii_bytes(hex_word(n, width))[i] != 43,
        forall|i: int| 0 <= i < width ==> !text::white_space(#[trigger] hex_word(n, width)[i]),
        hex_value(ascii_bytes(hex_word(n, width))) == Some(n),
    decreases width,
{
    if width > 0 {
        let front = hex_word(n / 16, (width - 1) as nat);
        let whole = hex_word(n, width);
        assert(n / 16 < pow16((width - 1) as nat));
        lemma_hex_word(n / 16, (width - 1) as nat);
        assert(ascii_bytes(whole).drop_last() =~= ascii_bytes(front));
        assert(ascii_bytes(whole).last() == hex_char(n % 16) as u8);
        assert(hex_digit(hex_char(n % 16) as u8) == Some(n % 16));
        assert forall|i: int| 0 <= i < width implies ascii_bytes(whole)[i] != 43 && !text::white_space(
            #[trigger] whole[i]) && 0 <= whole[i] as int && (whole[i] as int) < 128 by {
            if i < front.len() {
                assert(whole[i] == front[i]);
                assert(ascii_bytes(whole)[i] == ascii_bytes(front)[i]);
            }
        }
        assert(forall|i: int| 0 <= i < width ==> ascii_bytes(whole)[i] != 43);
    }
}

/// A 64-bit word fits in sixteen hexadecimal digits.
pub proof fn lemma_word_fits(n: u64)
    ensures
        (n as nat) < pow16(16),
{
    assert(pow16(16) == 0x1_0000_0000_0000_0000) by {
        reveal_with_fuel(pow16, 17);
    }
}

/// Reading the hexadecimal form of a byte string gives it back.
pub proof fn lemma_hex_bytes_round_trip(bytes: Seq<u8>)
    ensures
        vstd::utf8::is_ascii_chars(hex_text(bytes)),
        hex_text(bytes).len() == 2 * bytes.len(),
        forall|i: int| 0 <= i < hex_text(bytes).len() ==> !text::white_space(
            #[trigger] hex_text(bytes)[i],
        ),
        hex_bytes(ascii_bytes(hex_text(bytes))) == Some(bytes),
    decreases bytes.len(),
{
    if bytes.len() == 0 {
        assert(ascii_bytes(hex_text(bytes)) =~= Seq::<u8>::empty());
        assert(hex_bytes(ascii_bytes(hex_text(bytes)))->0 =~= bytes);
    } else {
        let front = hex_text(bytes.drop_last());
        let last = hex_word(bytes.last() as nat, 2);
        let whole = hex_text(bytes);
        assert(pow16(2) == 256) by {
            reveal_with_fuel(pow16, 3);
        }
        lemma_hex_bytes_round_trip(bytes.drop_last());
        lemma_hex_word(bytes.last() as nat, 2);
        let b = ascii_bytes(whole);
        assert(b.take(b.len() - 2) =~= ascii_bytes(front));
        assert(b.skip(b.len() - 2) =~= ascii_bytes(last));
        assert(ascii_bytes(last)[0] != 43);
        assert(bytes.drop_last().push(bytes.last()) =~= bytes);
        assert forall|i: int| 0 <= i < whole.len() implies !text::white_space(
            #[trigger] whole[i],
        ) && (whole[i] as int) < 128 by {
            if i < front.len() {
                assert(whole[i] == front[i]);
            } else {
                assert(whole[i] == last[i - front.len()]);
            }
        }
    }
}

// ── Real literals ────────────────────────────────────────────────────

/// Where the exponent of `s` starts: the position of its first `e` or `E`, or its length.
pub open spec fn exponent_at(s: Seq<char>) -> int
    decreases s.len(),
{
    if s.len() == 0 || s[0] == 'e' || s[0] == 'E' {
        0
    } else {
        1 + exponent_at(s.skip(1))
    }
}

/// Digits with at most one point among or around them, at least one digit in all.
pub open spec fn is_mantissa(s: Seq<char>) -> bool {
    let point = text::first_at(s, '.');
    if point < s.len() {
        all_digits(s.take(point)) && all_digits(s.skip(point + 1)) && s.len() > 1
    } else {
        all_digits(s) && s.len() > 0
    }
}

/// `s` without a leading sign.
pub open spec fn unsigned_part(s: Seq<char>) -> Seq<char> {
    if s.len() > 0 && (s[0] == '+' || s[0] == '-') {
        s.skip(1)
    } else {
        s
    }
}

/// A mantissa, then optionally an exponent: `e`, an optional sign, and digits.
pub open spec fn is_plain_number(s: Seq<char>) -> bool {
    let e = exponent_at(s);
    let power = unsigned_part(s.skip(e + 1));
    is_mantissa(s.take(e)) && (e == s.len() || (power.len() > 0 && all_digits(power)))
}

/// Whether `s` spells `word`, a lowercase ASCII word, in either case.
pub open spec fn spells(s: Seq<char>, word: Seq<char>) -> bool {
    s.len() == word.len() && forall|i: int|
        0 <= i < s.len() ==> (#[trigger] s[i] == word[i] || s[i] as int + 32 == word[i] as int)
}

/// Whether `s` is a real literal: an optional sign, then `inf`, `infinity`, `nan` or a
/// number, letters in either case.
pub open spec fn is_real(s: Seq<char>) -> bool {
    let body = unsigned_part(s);
    spells(body, "inf"@) || spells(body, "infinity"@) || spells(body, "nan"@) || is_plain_number(
        body,
    )
}

/// A real literal does not start or end in white space.
pub proof fn lemma_real_ends(s: Seq<char>)
    requires
        is_real(s),
    ensures
        s.len() > 0,
        !text::white_space(s[0]),
        !text::white_space(s.last()),
{
    reveal_strlit("inf");
    reveal_strlit("infinity");
    reveal_strlit("nan");
    let body = unsigned_part(s);
    if spells(body, "inf"@) || spells(body, "infinity"@) || spells(body, "nan"@) {
        assert(body.len() > 0);
        assert(body[0] == body[0]);
        assert(body[body.len() - 1] == body.last());
    } else {
        let e = exponent_at(body);
        lemma_exponent_bounds(body);
        let m = body.take(e);
        lemma_mantissa_chars(m);
        assert(m[0] == body[0]);
        if e == body.len() {
            assert(m.last() == body.last());
        } else {
            let tail = body.skip(e + 1);
            let power = unsigned_part(tail);
            assert(is_digit(power[power.len() - 1]));
            assert(power.last() == tail.last());
            assert(tail.last() == body.last());
        }
    }
    assert(s.last() == body.last());
}

proof fn lemma_exponent_bounds(s: Seq<char>)
    ensures
        0 <= exponent_at(s) <= s.len(),
    decreases s.len(),
{
    if s.len() > 0 && s[0] != 'e' && s[0] != 'E' {
        lemma_exponent_bounds(s.skip(1));
    }
}

proof fn lemma_mantissa_chars(m: Seq<char>)
    requires
        is_mantissa(m),
    ensures
        m.len() > 0,
        forall|i: int| 0 <= i < m.len() ==> is_digit(#[trigger] m[i]) || m[i] == '.',
{
    text::lemma_first_at(m, '.');
    let point = text::first_at(m, '.');
    if point < m.len() {
        assert forall|i: int| 0 <= i < m.len() implies is_digit(#[trigger] m[i]) || m[i] == '.' by {
            if i < point {
                assert(m.take(point)[i] == m[i]);
            } else if i > point {
                assert(m.skip(point + 1)[i - point - 1] == m[i]);
            }
        }
    }
}

proof fn lemma_exponent_at(s: Seq<char>, k: int)
    requires
        0 <= k <= s.len(),
        k < s.len() ==> s[k] == 'e' || s[k] == 'E',
        forall|i: int| 0 <= i < k ==> s[i] != 'e' && s[i] != 'E',
    ensures
        exponent_at(s) == k,
    decreases k,
{
    if k > 0 {
        let rest = s.skip(1);
        assert(s[0] != 'e' && s[0] != 'E');
        assert(forall|i: int| 0 <= i < rest.len() ==> rest[i] == s[i + 1]);
        lemma_exponent_at(rest, k - 1);
    }
}

/// Whether `chars[from..to]` are all digits.
fn digits_between(chars: &[char], from: usize, to: usize) -> (r: bool)
    requires
        from <= to <= chars@.len(),
    ensures
        r == all_digits(chars@.subrange(from as int, to as int)),
{
    let ghost part = chars@.subrange(from as int, to as int);
    let mut i: usize = from;
    while i < to
        invariant
            from <= i <= to <= chars@.len(),
            part == chars@.subrange(from as int, to as int),
            forall|j: int| 0 <= j < i - from ==> is_digit(#[trigger] part[j]),
        decreases to - i,
    {
        assert(part[i - from] == chars@[i as int]);
        if chars[i] < '0' || chars[i] > '9' {
            return false;
        }
        i += 1;
    }
    true
}

/// Whether `c` is the lowercase ASCII letter `w` in either case.
fn same_letter(c: char, w: char) -> (r: bool)
    requires
        97 <= w as int <= 122,
    ensures
        r == (c == w || c as int + 32 == w as int),
{
    let code: u32 = c as u32;
    c == w || code == w as u32 - 32
}

/// Whether `chars[from..]` spells `word`, a lowercase ASCII word, in either case.
fn spells_from(chars: &[char], from: usize, word: &str) -> (r: bool)
    requires
        from <= chars@.len(),
        forall|i: int| 0 <= i < word@.len() ==> 97 <= #[trigger] word@[i] as int <= 122,
    ensures
        r == spells(chars@.skip(from as int), word@),
{
    let letters = text::chars_of(word);
    let ghost s = chars@.skip(from as int);
    let n: usize = chars.len();
    if n - from != letters.len() {
        return false;
    }
    let mut i: usize = 0;
    while i < letters.len()
        invariant
            n == chars@.len(),
            letters@ == word@,
            from <= chars@.len(),
            s == chars@.skip(from as int),
            s.len() == word@.len(),
            forall|k: int| 0 <= k < word@.len() ==> 97 <= #[trigger] word@[k] as int <= 122,
            i <= letters@.len(),
            forall|k: int|
                0 <= k < i ==> (#[trigger] s[k] == word@[k] || s[k] as int + 32 == word@[k] as int),
        decreases letters@.len() - i,
    {
        let c = chars[from + i];
        let w = letters[i];
        assert(s[i as int] == c);
        assert(97 <= word@[i as int] as int <= 122);
        if !same_letter(c, w) {
            return false;
        }
        i += 1;
    }
    true
}

/// Whether `chars[from..to]` is a mantissa.
fn mantissa_between(chars: &[char], from: usize, to: usize) -> (r: bool)
    requires
        from <= to <= chars@.len(),
    ensures
        r == is_mantissa(chars@.subrange(from as int, to as int)),
{
    let ghost s = chars@.subrange(from as int, to as int);
    let mut point: usize = from;
    while point < to && chars[point] != '.'
        invariant
            from <= point <= to <= chars@.len(),
            s == chars@.subrange(from as int, to as int),
            forall|i: int| 0 <= i < point - from ==> s[i] != '.',
        decreases to - point,
    {
        assert(s[point - from] == chars@[point as int]);
        point += 1;
    }
    proof {
        if point < to {
            assert(s[point - from] == chars@[point as int]);
        }
        text::lemma_first_at_unique(s, '.', point - from);
        assert(s.take(point - from) =~= chars@.subrange(from as int, point as int));
        if point < to {
            assert(s.skip(point - from + 1) =~= chars@.subrange(point + 1, to as int));
        } else {
            assert(s.take(point - from) =~= s);
        }
    }
    if !digits_between(chars, from, point) {
        return false;
    }
    if point < to {
        digits_between(chars, point + 1, to) && to - from > 1
    } else {
        to > from
    }
}

/// Where the part behind an optional sign at `from` starts.
fn behind_sign(chars: &[char], from: usize) -> (r: usize)
    requires
        from <= chars@.len(),
    ensures
        from <= r <= chars@.len(),
        chars@.skip(r as int) == unsigned_part(chars@.skip(from as int)),
{
    let ghost s = chars@.skip(from as int);
    if from < chars.len() && (chars[from] == '+' || chars[from] == '-') {
        assert(s[0] == chars@[from as int]);
        assert(s.skip(1) =~= chars@.skip(from + 1));
        from + 1
    } else {
        proof {
            if from < chars@.len() {
                assert(s[0] == chars@[from as int]);
            }
        }
        from
    }
}

/// Whether `s` is a real literal.
pub fn is_real_literal(s: &str) -> (r: bool)
    ensures
        r == is_real(s@),
{
    let chars_vec = text::chars_of(s);
    let chars = chars_vec.as_slice();
    assert(s@.skip(0) =~= s@);
    let start = behind_sign(chars, 0);
    proof {
        reveal_strlit("inf");
        reveal_strlit("infinity");
        reveal_strlit("nan");
    }
    if spells_from(chars, start, "inf") || spells_from(chars, start, "infinity") || spells_from(
        chars,
        start,
        "nan",
    ) {
        return true;
    }
    let ghost body = chars@.skip(start as int);
    let mut e: usize = start;
    while e < chars.len() && chars[e] != 'e' && chars[e] != 'E'
        invariant
            start <= e <= chars@.len(),
            body == chars@.skip(start as int),
            forall|i: int| 0 <= i < e - start ==> body[i] != 'e' && body[i] != 'E',
        decreases chars@.len() - e,
    {
        assert(body[e - start] == chars@[e as int]);
        e += 1;
    }
    proof {
        if e < chars@.len() {
            assert(body[e - start] == chars@[e as int]);
        }
        lemma_exponent_at(body, e - start);
        assert(body.take(e - start) =~= chars@.subrange(start as int, e as int));
    }
    if !mantissa_between(chars, start, e) {
        return false;
    }
    if e == chars.len() {
        return true;
    }
    let power = behind_sign(chars, e + 1);
    proof {
        assert(body.skip(e - start + 1) =~= chars@.skip(e + 1));
        assert(chars@.skip(power as int) =~= chars@.subrange(power as int, chars@.len() as int));
    }
    power < chars.len() && digits_between(chars, power, chars.len())
}

// ── Laws ─────────────────────────────────────────────────────────────

/// Leading zeros and a plus sign change nothing of a number.
pub proof fn law_zeros_and_plus_change_nothing(s: Seq<char>)
    requires
        s.len() > 0,
        all_digits(s),
    ensures
        u64_value(seq!['0'] + s) == u64_value(s),
        i64_value(seq!['0'] + s) == i64_value(s),
        u64_value(seq!['+'] + s) == u64_value(s),
        i64_value(seq!['+'] + s) == i64_value(s),
{
    let zero = seq!['0'] + s;
    let plus = seq!['+'] + s;
    assert(is_digit(s[0]));
    assert forall|i: int| 0 <= i < zero.len() implies is_digit(#[trigger] zero[i]) by {
        if i > 0 {
            assert(zero[i] == s[i - 1]);
        }
    }
    lemma_leading_zero(s);
    assert(plus.skip(1) =~= s);
    assert(plus[0] == '+');
}

proof fn lemma_leading_zero(s: Seq<char>)
    ensures
        digits_value(seq!['0'] + s) == digits_value(s),
    decreases s.len(),
{
    let zero = seq!['0'] + s;
    if s.len() == 0 {
        assert(zero.drop_last() =~= Seq::<char>::empty());
        assert(digits_value(zero.drop_last()) == 0);
        assert(zero.last() == '0');
    } else {
        assert(zero.drop_last() =~= seq!['0'] + s.drop_last());
        assert(zero.last() == s.last());
        lemma_leading_zero(s.drop_last());
    }
}

/// A minus sign negates a number, where there are negative numbers, and makes it none where
/// there are not.
pub proof fn law_minus_negates(s: Seq<char>, n: i64)
    requires
        s.len() > 0,
        all_digits(s),
        i64_value(s) == Some(n),
    ensures
        n >= 0,
        i64_value(seq!['-'] + s) == Some((-n) as i64),
        u64_value(seq!['-'] + s) is None,
        u64_value(s) == Some(n as u64),
{
    let minus = seq!['-'] + s;
    assert(is_digit(s[0]));
    assert(minus.skip(1) =~= s);
    assert(minus[0] == '-');
    assert(!is_digit(minus[0]));
}

/// A number with one more digit is ten times the number, and the digit; a digit alone is
/// its own value.
pub proof fn law_digits_count_by_ten(s: Seq<char>, d: u64, n: u64)
    requires
        d < 10,
        s.len() > 0,
        all_digits(s),
        u64_value(s) == Some(n),
        10 * n + d <= u64::MAX,
    ensures
        u64_value(s.push((48 + d) as char)) == Some((10 * n + d) as u64),
        u64_value(seq![(48 + d) as char]) == Some(d),
{
    let c = (48 + d) as char;
    let longer = s.push(c);
    assert(is_digit(c) && c as int == 48 + d);
    assert(is_digit(s[0]));
    assert forall|i: int| 0 <= i < longer.len() implies is_digit(#[trigger] longer[i]) by {
        if i < s.len() {
            assert(longer[i] == s[i]);
        }
    }
    assert(longer.drop_last() =~= s);
    assert(longer[0] == s[0]);
    assert(seq![c].drop_last() =~= Seq::<char>::empty());
    assert(digits_value(seq![c].drop_last()) == 0);
}

/// What holds anything but digits behind its sign is no number, and neither is a sign, or
/// nothing, alone.
pub proof fn law_other_texts_are_no_numbers(s: Seq<char>, i: int)
    requires
        0 < i < s.len(),
        !is_digit(s[i]),
    ensures
        u64_value(s) is None,
        i64_value(s) is None,
        u64_value(seq![]) is None,
        i64_value(seq![]) is None,
        u64_value(seq!['+']) is None,
        i64_value(seq!['-']) is None,
{
    let rest = s.skip(1);
    assert(rest[i - 1] == s[i]);
    assert(seq!['+'].skip(1) =~= Seq::<char>::empty());
    assert(seq!['-'].skip(1) =~= Seq::<char>::empty());
}

/// Numbers are read back as they are written.
pub proof fn law_numbers_round_trip(n: u64, m: i64)
    ensures
        u64_value(decimal(n as nat)) == Some(n),
        i64_value(signed_decimal(m as int)) == Some(m),
{
    lemma_u64_round_trip(n);
    lemma_i64_round_trip(m);
}

/// Byte strings are read back as they are written.
pub proof fn law_bytes_round_trip(bytes: Seq<u8>)
    ensures
        hex_bytes(ascii_bytes(hex_text(bytes))) == Some(bytes),
        hex_text(bytes).len() == 2 * bytes.len(),
{
    lemma_hex_bytes_round_trip(bytes);
    lemma_hex_text_len(bytes);
}

proof fn lemma_hex_text_len(bytes: Seq<u8>)
    ensures
        hex_text(bytes).len() == 2 * bytes.len(),
    decreases bytes.len(),
{
    if bytes.len() > 0 {
        lemma_hex_text_len(bytes.drop_last());
        lemma_hex_digits(bytes.last() as nat, 2);
    }
}

/// The bytes of two rows of digits, one behind the other, are the bytes of the one, then
/// those of the other; where one of them denotes none, neither do both.
pub proof fn law_bytes_join(a: Seq<u8>, b: Seq<u8>)
    requires
        a.len() % 2 == 0,
        b.len() % 2 == 0,
    ensures
        hex_bytes(a + b) == match (hex_bytes(a), hex_bytes(b)) {
            (Some(x), Some(y)) => Some(x + y),
            _ => None,
        },
    decreases b.len(),
{
    if b.len() == 0 {
        assert(a + b =~= a);
        if let Some(x) = hex_bytes(a) {
            assert(x + Seq::<u8>::empty() =~= x);
        }
    } else {
        let n = b.len() - 2;
        let all = a + b;
        assert(all.take(all.len() - 2) =~= a + b.take(n));
        assert(all.skip(all.len() - 2) =~= b.skip(n));
        law_bytes_join(a, b.take(n));
        if let (Some(x), Some(y)) = (hex_bytes(a), hex_bytes(b.take(n))) {
            if let Some(v) = hex_field(b.skip(n)) {
                assert((x + y).push(v as u8) =~= x + y.push(v as u8));
            }
        }
    }
}

/// Hexadecimal digits count in either case.
pub proof fn law_hex_digits_in_either_case(d: u8)
    requires
        d < 16,
    ensures
        d < 10 ==> hex_digit((48 + d) as u8) == Some(d as nat),
        d >= 10 ==> hex_digit((87 + d) as u8) == Some(d as nat) && hex_digit((55 + d) as u8) == Some(
            d as nat,
        ),
{
}

/// A row of digits is a real literal, with a sign or without, and so are two with a point
/// between them, one of which may be empty, and each of these with an exponent.
pub proof fn law_decimal_literals(a: Seq<char>, b: Seq<char>, e: Seq<char>)
    requires
        all_digits(a),
        all_digits(b),
        a.len() + b.len() > 0,
        all_digits(e),
        e.len() > 0,
    ensures
        a.len() > 0 ==> is_real(a),
        is_real(a + seq!['.'] + b),
        is_real(seq!['-'] + (a + seq!['.'] + b)),
        is_real(seq!['+'] + (a + seq!['.'] + b)),
        is_real((a + seq!['.'] + b) + seq!['e'] + e),
        is_real((a + seq!['.'] + b) + seq!['e'] + (seq!['-'] + e)),
{
    let m = a + seq!['.'] + b;
    lemma_point(a, b);
    if a.len() > 0 {
        assert(is_digit(a[0]));
        lemma_no_exponent(a);
        assert(a.take(a.len() as int) =~= a);
        text::lemma_first_at(a, '.');
        if a.contains('.') {
            let i = a.index_of('.');
            assert(is_digit(a[i]));
        }
    }
    assert(m.take(m.len() as int) =~= m);
    lemma_no_exponent(m);
    let neg = seq!['-'] + m;
    let pos = seq!['+'] + m;
    assert(neg.skip(1) =~= m);
    assert(pos.skip(1) =~= m);
    let x = m + seq!['e'] + e;
    lemma_exponent_behind(m, e);
    assert(x.take(m.len() as int) =~= m);
    assert(x.skip(m.len() as int + 1) =~= e);
    assert(is_digit(e[0]));
    let minus = seq!['-'] + e;
    let y = m + seq!['e'] + minus;
    lemma_exponent_behind(m, minus);
    assert(y.take(m.len() as int) =~= m);
    assert(y.skip(m.len() as int + 1) =~= minus);
    assert(minus.skip(1) =~= e);
    if a.len() > 0 {
        assert(m[0] == a[0]);
    }
    assert(x[0] == m[0] && y[0] == m[0]);
}

/// Digits around a point are a mantissa, without letters and signs.
proof fn lemma_point(a: Seq<char>, b: Seq<char>)
    requires
        all_digits(a),
        all_digits(b),
        a.len() + b.len() > 0,
    ensures
        ({
            let m = a + seq!['.'] + b;
            &&& is_mantissa(m)
            &&& forall|i: int| 0 <= i < m.len() ==> is_digit(#[trigger] m[i]) || m[i] == '.'
        }),
{
    let m = a + seq!['.'] + b;
    let k = a.len() as int;
    assert forall|i: int| 0 <= i < m.len() implies is_digit(#[trigger] m[i]) || m[i] == '.' by {
        if i < k {
            assert(m[i] == a[i]);
        } else if i > k {
            assert(m[i] == b[i - k - 1]);
        }
    }
    assert forall|i: int| 0 <= i < k implies m[i] != '.' by {
        assert(m[i] == a[i]);
        assert(is_digit(a[i]));
    }
    assert(m[k] == '.');
    text::lemma_first_at_unique(m, '.', k);
    assert(m.take(k) =~= a);
    assert(m.skip(k + 1) =~= b);
}

proof fn lemma_no_exponent(s: Seq<char>)
    requires
        forall|i: int| 0 <= i < s.len() ==> is_digit(#[trigger] s[i]) || s[i] == '.',
    ensures
        exponent_at(s) == s.len(),
    decreases s.len(),
{
    if s.len() > 0 {
        let rest = s.skip(1);
        assert(is_digit(s[0]) || s[0] == '.');
        assert forall|i: int| 0 <= i < rest.len() implies is_digit(#[trigger] rest[i]) || rest[i]
            == '.' by {
            assert(rest[i] == s[i + 1]);
        }
        lemma_no_exponent(rest);
    }
}

proof fn lemma_exponent_behind(m: Seq<char>, tail: Seq<char>)
    requires
        forall|i: int| 0 <= i < m.len() ==> is_digit(#[trigger] m[i]) || m[i] == '.',
    ensures
        exponent_at(m + seq!['e'] + tail) == m.len(),
    decreases m.len(),
{
    let s = m + seq!['e'] + tail;
    if m.len() == 0 {
        assert(s[0] == 'e');
    } else {
        let rest = m.skip(1);
        assert(s[0] == m[0]);
        assert(is_digit(m[0]) || m[0] == '.');
        assert(s.skip(1) =~= rest + seq!['e'] + tail);
        assert forall|i: int| 0 <= i < rest.len() implies is_digit(#[trigger] rest[i]) || rest[i]
            == '.' by {
            assert(rest[i] == m[i + 1]);
        }
        lemma_exponent_behind(rest, tail);
    }
}

} // verus!
