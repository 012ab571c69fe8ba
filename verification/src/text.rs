//! Character-level helpers shared by every module: comparison, concatenation,
//! trimming, searching and splitting.

use vstd::prelude::*;

verus! {

// ── Trusted: the parts of std that vstd leaves unspecified ───────────

/// `String::push` appends the given character to the end of the string.
pub assume_specification[ std::string::String::push ](s: &mut std::string::String, ch: char)
    ensures
        final(s)@ == old(s)@.push(ch),
;

/// The opaque error of `core::str::from_utf8`.
#[verifier::external_type_specification]
#[verifier::external_body]
pub struct ExUtf8Error(core::str::Utf8Error);

/// `core::str::from_utf8` accepts exactly the valid UTF-8 byte strings and returns the
/// text that they encode.
pub assume_specification[ core::str::from_utf8 ](v: &[u8]) -> (r: Result<
    &str,
    core::str::Utf8Error,
>)
    ensures
        r is Ok <==> vstd::utf8::valid_utf8(v@),
        r matches Ok(s) ==> vstd::utf8::encode_utf8(s@) == v@,
;

/// What `String::from_utf8_lossy` makes of bytes that are not valid UTF-8.
pub uninterp spec fn replaced_utf8(bytes: Seq<u8>) -> Seq<char>;

/// The text of `bytes`: decoded where they are valid UTF-8, otherwise with the
/// replacement character standing for the invalid parts.
pub open spec fn lossy_text_of(bytes: Seq<u8>) -> Seq<char> {
    if vstd::utf8::valid_utf8(bytes) {
        vstd::utf8::decode_utf8(bytes)
    } else {
        replaced_utf8(bytes)
    }
}

/// `String::from_utf8_lossy` decodes valid UTF-8 unchanged. What it substitutes in
/// invalid input depends on that input alone and is only named here.
#[verifier::external_body]
pub(crate) fn lossy_text(bytes: &[u8]) -> (r: String)
    ensures
        vstd::utf8::valid_utf8(bytes@) ==> r@ == vstd::utf8::decode_utf8(bytes@),
        !vstd::utf8::valid_utf8(bytes@) ==> r@ == replaced_utf8(bytes@),
{
    String::from_utf8_lossy(bytes).into_owned()
}

/// Whether every character of a text is ASCII.
pub open spec fn is_ascii_text(s: Seq<char>) -> bool {
    vstd::utf8::is_ascii_chars(s)
}

/// An ASCII character in lower case.
pub open spec fn ascii_lowercase(c: char) -> char {
    if 'A' <= c <= 'Z' {
        ((c as u8 + 32) as u8) as char
    } else {
        c
    }
}

/// What `str::to_lowercase` makes of a text that is not ASCII.
pub uninterp spec fn unicode_lowercase(s: Seq<char>) -> Seq<char>;

/// A text in lower case: character by character where it is ASCII, otherwise its Unicode
/// lowercase equivalent.
pub open spec fn lowercase_of(s: Seq<char>) -> Seq<char> {
    if is_ascii_text(s) {
        s.map_values(|c: char| ascii_lowercase(c))
    } else {
        unicode_lowercase(s)
    }
}

/// `str::to_lowercase` replaces the letters `A` to `Z` of an ASCII text. What it makes of
/// any other text depends on that text alone and is only named here.
#[verifier::external_body]
pub(crate) fn lowercase(s: &str) -> (r: String)
    ensures
        is_ascii_text(s@) ==> r@ == s@.map_values(|c: char| ascii_lowercase(c)),
        !is_ascii_text(s@) ==> r@ == unicode_lowercase(s@),
{
    s.to_lowercase()
}

/// Whether the debug form of a text leaves its characters as they are: printable ASCII
/// without quotation marks and backslashes.
pub open spec fn needs_no_escape(s: Seq<char>) -> bool {
    forall|i: int|
        0 <= i < s.len() ==> ' ' <= #[trigger] s[i] <= '~' && s[i] != '"' && s[i] != '\''
            && s[i] != '\\'
}

/// The debug form of a text with characters that may be escaped in it.
pub uninterp spec fn escaped_text(s: Seq<char>) -> Seq<char>;

/// The debug form of a text: in quotation marks, with its special characters escaped.
pub open spec fn quoted_text(s: Seq<char>) -> Seq<char> {
    if needs_no_escape(s) {
        "\""@ + s + "\""@
    } else {
        escaped_text(s)
    }
}

/// The `Debug` form of `str` puts a text in quotation marks. How it escapes characters
/// depends on the text alone and is only named here.
#[verifier::external_body]
pub(crate) fn quoted(s: &str) -> (r: String)
    ensures
        needs_no_escape(s@) ==> r@ == "\""@ + s@ + "\""@,
        !needs_no_escape(s@) ==> r@ == escaped_text(s@),
{
    format!("{:?}", s)
}

/// The UTF-8 bytes of a text.
pub open spec fn utf8(s: Seq<char>) -> Seq<u8> {
    vstd::utf8::encode_utf8(s)
}

/// The text behind an optional reference.
pub open spec fn opt_text(s: Option<&str>) -> Option<Seq<char>> {
    match s {
        Some(t) => Some(t@),
        None => None,
    }
}

// ── Comparison ───────────────────────────────────────────────────────

/// ASCII text is one byte for each character.
pub proof fn lemma_ascii_utf8(s: Seq<char>)
    requires
        vstd::utf8::is_ascii_chars(s),
    ensures
        utf8(s) == Seq::new(s.len(), |i: int| s[i] as u8),
{
    vstd::utf8::is_ascii_chars_encode_utf8(s);
    assert(utf8(s) =~= Seq::new(s.len(), |i: int| s[i] as u8));
}

/// An ASCII text takes up as many bytes as it has characters.
pub proof fn lemma_ascii_len(s: Seq<char>)
    requires
        is_ascii_text(s),
    ensures
        utf8(s).len() == s.len(),
{
    lemma_ascii_utf8(s);
}

/// Texts with the same UTF-8 bytes are the same text.
pub proof fn lemma_utf8_injective(a: Seq<char>, b: Seq<char>)
    requires
        vstd::utf8::encode_utf8(a) == vstd::utf8::encode_utf8(b),
    ensures
        a == b,
{
    vstd::utf8::encode_utf8_decode_utf8(a);
    vstd::utf8::encode_utf8_decode_utf8(b);
}

/// Whether two byte strings are equal.
pub fn same_bytes(a: &[u8], b: &[u8]) -> (r: bool)
    ensures
        r == (a@ == b@),
{
    if a.len() != b.len() {
        return false;
    }
    let mut i: usize = 0;
    while i < a.len()
        invariant
            a@.len() == b@.len(),
            i <= a@.len(),
            forall|j: int| 0 <= j < i ==> a@[j] == b@[j],
        decreases a@.len() - i,
    {
        if a[i] != b[i] {
            return false;
        }
        i += 1;
    }
    assert(a@ =~= b@);
    true
}

/// Whether two texts are equal.
pub fn same_text(a: &str, b: &str) -> (r: bool)
    ensures
        r == (a@ == b@),
{
    let r = same_bytes(a.as_bytes(), b.as_bytes());
    proof {
        if r {
            lemma_utf8_injective(a@, b@);
        }
    }
    r
}

/// Whether `bytes` is the UTF-8 form of `s`.
pub fn bytes_are(bytes: &[u8], s: &str) -> (r: bool)
    ensures
        r == (bytes@ == vstd::utf8::encode_utf8(s@)),
{
    same_bytes(bytes, s.as_bytes())
}

// ── Building ─────────────────────────────────────────────────────────

/// The characters of a text.
pub fn chars_of(s: &str) -> (r: Vec<char>)
    ensures
        r@ == s@,
{
    let mut v: Vec<char> = Vec::new();
    for c in it: s.chars()
        invariant
            v@ == it.seq().take(it.index() as int),
            it.seq() == s@,
    {
        v.push(c);
    }
    v
}

/// The text with the characters `chars[from..to]`.
pub fn text_of(chars: &[char], from: usize, to: usize) -> (r: String)
    requires
        from <= to <= chars@.len(),
    ensures
        r@ == chars@.subrange(from as int, to as int),
{
    let mut s = String::new();
    let mut i: usize = from;
    assert(s@ =~= chars@.subrange(from as int, i as int));
    while i < to
        invariant
            from <= i <= to <= chars@.len(),
            s@ == chars@.subrange(from as int, i as int),
        decreases to - i,
    {
        s.push(chars[i]);
        assert(s@ =~= chars@.subrange(from as int, i + 1));
        i += 1;
    }
    s
}

/// `a` followed by `b`.
pub fn cat(a: &str, b: &str) -> (r: String)
    ensures
        r@ == a@ + b@,
{
    let mut s = a.to_owned();
    s.append(b);
    s
}

/// `a`, `b` and `c` in a row.
pub fn cat3(a: &str, b: &str, c: &str) -> (r: String)
    ensures
        r@ == a@ + b@ + c@,
{
    let mut s = cat(a, b);
    s.append(c);
    s
}

/// Four texts in a row.
pub fn cat4(a: &str, b: &str, c: &str, d: &str) -> (r: String)
    ensures
        r@ == a@ + b@ + c@ + d@,
{
    let mut s = cat3(a, b, c);
    s.append(d);
    s
}

/// Five texts in a row.
pub fn cat5(a: &str, b: &str, c: &str, d: &str, e: &str) -> (r: String)
    ensures
        r@ == a@ + b@ + c@ + d@ + e@,
{
    let mut s = cat4(a, b, c, d);
    s.append(e);
    s
}

// ── Searching ────────────────────────────────────────────────────────

/// The position of the last `c` in `s`, or -1.
pub open spec fn last_at(s: Seq<char>, c: char) -> int
    decreases s.len(),
{
    if s.len() == 0 {
        -1
    } else if s.last() == c {
        s.len() - 1
    } else {
        last_at(s.drop_last(), c)
    }
}

/// The position of the first `c` in `s`, or `s.len()`.
pub open spec fn first_at(s: Seq<char>, c: char) -> int
    decreases s.len(),
{
    if s.len() == 0 {
        0
    } else if s[0] == c {
        0
    } else {
        1 + first_at(s.skip(1), c)
    }
}

/// What stands behind the last `c`, or all of `s` where there is none.
pub open spec fn after_last(s: Seq<char>, c: char) -> Seq<char> {
    s.skip(last_at(s, c) + 1)
}

/// What stands before the last `c`. Meant for texts that hold a `c`.
pub open spec fn before_last(s: Seq<char>, c: char) -> Seq<char> {
    s.take(last_at(s, c))
}

/// `last_at` is the greatest position of `c`.
pub proof fn lemma_last_at(s: Seq<char>, c: char)
    ensures
        -1 <= last_at(s, c) < s.len(),
        last_at(s, c) >= 0 ==> s[last_at(s, c)] == c,
        forall|i: int| last_at(s, c) < i < s.len() ==> s[i] != c,
        s.contains(c) <==> last_at(s, c) >= 0,
    decreases s.len(),
{
    if s.len() > 0 {
        if s.last() == c {
            assert(s[s.len() - 1] == c);
        } else {
            let front = s.drop_last();
            lemma_last_at(front, c);
            assert(forall|i: int| 0 <= i < front.len() ==> front[i] == s[i]);
            if s.contains(c) {
                let k = choose|k: int| 0 <= k < s.len() && s[k] == c;
                assert(front[k] == c);
            }
            if last_at(front, c) >= 0 {
                assert(s[last_at(front, c)] == c);
            }
        }
    }
}

/// A position with `c` on it and none behind is `last_at`.
pub proof fn lemma_last_at_unique(s: Seq<char>, c: char, k: int)
    requires
        -1 <= k < s.len(),
        k >= 0 ==> s[k] == c,
        forall|i: int| k < i < s.len() ==> s[i] != c,
    ensures
        last_at(s, c) == k,
{
    lemma_last_at(s, c);
}

/// `first_at` is the least position of `c`.
pub proof fn lemma_first_at(s: Seq<char>, c: char)
    ensures
        0 <= first_at(s, c) <= s.len(),
        first_at(s, c) < s.len() ==> s[first_at(s, c)] == c,
        forall|i: int| 0 <= i < first_at(s, c) ==> s[i] != c,
        s.contains(c) <==> first_at(s, c) < s.len(),
    decreases s.len(),
{
    if s.len() > 0 && s[0] != c {
        let rest = s.skip(1);
        lemma_first_at(rest, c);
        assert(forall|i: int| 0 <= i < rest.len() ==> rest[i] == s[i + 1]);
        assert forall|i: int| 0 <= i < first_at(s, c) implies s[i] != c by {
            if i > 0 {
                assert(rest[i - 1] != c);
            }
        }
        if s.contains(c) {
            let k = choose|k: int| 0 <= k < s.len() && s[k] == c;
            assert(rest[k - 1] == c);
        }
        if first_at(rest, c) < rest.len() {
            assert(s[first_at(rest, c) + 1] == c);
        }
    } else if s.len() > 0 {
        assert(s[0] == c);
    }
}

/// A position with `c` on it and none before is `first_at`.
pub proof fn lemma_first_at_unique(s: Seq<char>, c: char, k: int)
    requires
        0 <= k <= s.len(),
        k < s.len() ==> s[k] == c,
        forall|i: int| 0 <= i < k ==> s[i] != c,
    ensures
        first_at(s, c) == k,
{
    lemma_first_at(s, c);
}

/// The position just behind the last `c`, or 0 where there is none.
pub fn behind_last(chars: &[char], c: char) -> (r: usize)
    ensures
        r == last_at(chars@, c) + 1,
{
    let mut i: usize = chars.len();
    while i > 0
        invariant
            i <= chars@.len(),
            forall|j: int| i <= j < chars@.len() ==> chars@[j] != c,
        decreases i,
    {
        if chars[i - 1] == c {
            proof {
                lemma_last_at_unique(chars@, c, i - 1);
            }
            return i;
        }
        i -= 1;
    }
    proof {
        lemma_last_at_unique(chars@, c, -1);
    }
    0
}

/// The position of the first `c`, or the length where there is none.
pub fn find_first(chars: &[char], c: char) -> (r: usize)
    ensures
        r == first_at(chars@, c),
{
    let mut i: usize = 0;
    while i < chars.len()
        invariant
            i <= chars@.len(),
            forall|j: int| 0 <= j < i ==> chars@[j] != c,
        decreases chars@.len() - i,
    {
        if chars[i] == c {
            proof {
                lemma_first_at_unique(chars@, c, i as int);
            }
            return i;
        }
        i += 1;
    }
    proof {
        lemma_first_at_unique(chars@, c, i as int);
    }
    i
}

/// The part of `s` behind its last `c`, or all of it.
pub fn tail_after<'a>(s: &'a str, c: char) -> (r: &'a str)
    ensures
        r@ == after_last(s@, c),
{
    let chars = chars_of(s);
    let from: usize = behind_last(chars.as_slice(), c);
    proof {
        lemma_last_at(s@, c);
        assert(s@.skip(from as int) =~= s@.subrange(from as int, s@.len() as int));
    }
    s.substring_char(from, chars.len())
}

// ── Splitting ────────────────────────────────────────────────────────

/// The pieces of `s` between occurrences of `c`, empty pieces left out.
pub open spec fn pieces(s: Seq<char>, c: char) -> Seq<Seq<char>>
    decreases s.len(),
    via pieces_decreases
{
    let k = first_at(s, c);
    let here = if k > 0 {
        seq![s.take(k)]
    } else {
        seq![]
    };
    if k < s.len() {
        here + pieces(s.skip(k + 1), c)
    } else {
        here
    }
}

#[via_fn]
proof fn pieces_decreases(s: Seq<char>, c: char) {
    lemma_first_at(s, c);
}

/// Splits `s` on `c`, leaving empty pieces out.
pub fn split_pieces<'a>(s: &'a str, c: char) -> (r: Vec<&'a str>)
    ensures
        r@.map_values(|p: &str| p@) == pieces(s@, c),
{
    let chars = chars_of(s);
    let mut out: Vec<&'a str> = Vec::new();
    let mut start: usize = 0;
    proof {
        assert(s@.skip(0) =~= s@);
        assert(out@.map_values(|p: &str| p@) =~= Seq::<Seq<char>>::empty());
        assert(out@.map_values(|p: &str| p@) + pieces(s@.skip(0), c) =~= pieces(s@, c));
    }
    loop
        invariant
            chars@ == s@,
            start <= s@.len(),
            out@.map_values(|p: &str| p@) + pieces(s@.skip(start as int), c) == pieces(s@, c),
        decreases s@.len() - start,
    {
        let rest = vstd::slice::slice_subrange(chars.as_slice(), start, chars.len());
        let k: usize = find_first(rest, c);
        let ghost tail = s@.skip(start as int);
        let ghost before = out@;
        assert(rest@ =~= tail);
        proof {
            lemma_first_at(tail, c);
        }
        if k > 0 {
            let piece = s.substring_char(start, start + k);
            out.push(piece);
            assert(piece@ =~= tail.take(k as int));
            assert(out@.map_values(|p: &str| p@) =~= before.map_values(|p: &str| p@).push(piece@));
        }
        if start + k >= chars.len() {
            assert(out@.map_values(|p: &str| p@) =~= pieces(s@, c));
            return out;
        }
        proof {
            assert(tail.skip(k + 1) =~= s@.skip(start + k + 1));
            assert(out@.map_values(|p: &str| p@) + pieces(s@.skip(start + k + 1), c) =~= before.map_values(
                |p: &str| p@,
            ) + pieces(tail, c));
        }
        start = start + k + 1;
    }
}

// ── Trimming ─────────────────────────────────────────────────────────

/// The characters with the Unicode property `White_Space`.
pub open spec fn white_space(c: char) -> bool {
    ||| 0x09 <= c as int <= 0x0d
    ||| c as int == 0x20
    ||| c as int == 0x85
    ||| c as int == 0xa0
    ||| c as int == 0x1680
    ||| 0x2000 <= c as int <= 0x200a
    ||| c as int == 0x2028
    ||| c as int == 0x2029
    ||| c as int == 0x202f
    ||| c as int == 0x205f
    ||| c as int == 0x3000
}

/// Whether `s` is the empty text.
pub fn is_empty_text(s: &str) -> (r: bool)
    ensures
        r == (s@.len() == 0),
{
    let r = same_text(s, "");
    proof {
        reveal_strlit("");
        if s@.len() == 0 {
            assert(s@ =~= ""@);
        }
    }
    r
}

/// Whether `c` has the Unicode property `White_Space`.
pub fn is_white_space(c: char) -> (r: bool)
    ensures
        r == white_space(c),
{
    let n: u32 = c as u32;
    (0x09 <= n && n <= 0x0d) || n == 0x20 || n == 0x85 || n == 0xa0 || n == 0x1680 || (0x2000 <= n
        && n <= 0x200a) || n == 0x2028 || n == 0x2029 || n == 0x202f || n == 0x205f || n == 0x3000
}

/// `s` without the leading characters that satisfy `p`.
pub open spec fn trim_front(s: Seq<char>, p: spec_fn(char) -> bool) -> Seq<char>
    decreases s.len(),
{
    if s.len() > 0 && p(s[0]) {
        trim_front(s.skip(1), p)
    } else {
        s
    }
}

/// `s` without the trailing characters that satisfy `p`.
pub open spec fn trim_back(s: Seq<char>, p: spec_fn(char) -> bool) -> Seq<char>
    decreases s.len(),
{
    if s.len() > 0 && p(s.last()) {
        trim_back(s.drop_last(), p)
    } else {
        s
    }
}

/// `s` without leading and trailing characters that satisfy `p`.
pub open spec fn trim_both(s: Seq<char>, p: spec_fn(char) -> bool) -> Seq<char> {
    trim_back(trim_front(s, p), p)
}

/// `s` without leading and trailing white space.
pub open spec fn trimmed(s: Seq<char>) -> Seq<char> {
    trim_both(s, |c: char| white_space(c))
}

/// Whether `c` is white space in markup.
pub open spec fn markup_space(c: char) -> bool {
    c == ' ' || c == '\r' || c == '\n' || c == '\t'
}

/// `s` without the white space of markup at its ends.
pub open spec fn markup_trimmed(s: Seq<char>) -> Seq<char> {
    trim_both(s, |c: char| markup_space(c))
}

/// A text that neither starts nor ends with a `p` is left as it is.
pub proof fn lemma_trim_identity(s: Seq<char>, p: spec_fn(char) -> bool)
    requires
        s.len() > 0 ==> !p(s[0]) && !p(s.last()),
    ensures
        trim_both(s, p) == s,
{
}

/// What is left of an ASCII text is ASCII.
pub proof fn lemma_trim_keeps_ascii(s: Seq<char>, p: spec_fn(char) -> bool)
    requires
        is_ascii_text(s),
    ensures
        is_ascii_text(trim_both(s, p)),
{
    lemma_trim_front_keeps_ascii(s, p);
    lemma_trim_back_keeps_ascii(trim_front(s, p), p);
}

proof fn lemma_trim_front_keeps_ascii(s: Seq<char>, p: spec_fn(char) -> bool)
    requires
        is_ascii_text(s),
    ensures
        is_ascii_text(trim_front(s, p)),
    decreases s.len(),
{
    if s.len() > 0 && p(s[0]) {
        lemma_trim_front_keeps_ascii(s.skip(1), p);
    }
}

proof fn lemma_trim_back_keeps_ascii(s: Seq<char>, p: spec_fn(char) -> bool)
    requires
        is_ascii_text(s),
    ensures
        is_ascii_text(trim_back(s, p)),
    decreases s.len(),
{
    if s.len() > 0 && p(s.last()) {
        lemma_trim_back_keeps_ascii(s.drop_last(), p);
    }
}

/// What is left in front of a trimmed text does not satisfy `p`.
proof fn lemma_trim_front_ends(s: Seq<char>, p: spec_fn(char) -> bool)
    ensures
        trim_front(s, p).len() > 0 ==> !p(trim_front(s, p)[0]),
    decreases s.len(),
{
    if s.len() > 0 && p(s[0]) {
        lemma_trim_front_ends(s.skip(1), p);
    }
}

/// What is left at the back of a trimmed text does not satisfy `p`, and its front stays.
proof fn lemma_trim_back_ends(s: Seq<char>, p: spec_fn(char) -> bool)
    ensures
        trim_back(s, p).len() > 0 ==> !p(trim_back(s, p).last()) && trim_back(s, p)[0] == s[0],
    decreases s.len(),
{
    if s.len() > 0 && p(s.last()) {
        lemma_trim_back_ends(s.drop_last(), p);
    }
}

/// A trimmed text neither starts nor ends with a `p`.
pub proof fn lemma_trim_ends(s: Seq<char>, p: spec_fn(char) -> bool)
    ensures
        trim_both(s, p).len() > 0 ==> !p(trim_both(s, p)[0]) && !p(trim_both(s, p).last()),
{
    lemma_trim_front_ends(s, p);
    lemma_trim_back_ends(trim_front(s, p), p);
}

proof fn lemma_trim_front_at(s: Seq<char>, p: spec_fn(char) -> bool, k: int)
    requires
        0 <= k <= s.len(),
        forall|i: int| 0 <= i < k ==> p(#[trigger] s[i]),
        k < s.len() ==> !p(s[k]),
    ensures
        trim_front(s, p) == s.skip(k),
    decreases k,
{
    if k > 0 {
        let rest = s.skip(1);
        assert(p(s[0]));
        assert forall|i: int| 0 <= i < k - 1 implies p(#[trigger] rest[i]) by {
            assert(rest[i] == s[i + 1]);
        }
        lemma_trim_front_at(rest, p, k - 1);
        assert(rest.skip(k - 1) =~= s.skip(k));
    } else {
        assert(s.skip(0) =~= s);
    }
}

proof fn lemma_trim_back_at(s: Seq<char>, p: spec_fn(char) -> bool, k: int)
    requires
        0 <= k <= s.len(),
        forall|i: int| k <= i < s.len() ==> p(#[trigger] s[i]),
        k > 0 ==> !p(s[k - 1]),
    ensures
        trim_back(s, p) == s.take(k),
    decreases s.len() - k,
{
    if k < s.len() {
        let front = s.drop_last();
        assert(p(s[s.len() - 1]));
        lemma_trim_back_at(front, p, k);
        assert(front.take(k) =~= s.take(k));
    } else {
        assert(s.take(k) =~= s);
    }
}

/// `s` without leading and trailing white space.
pub fn trim_text<'a>(s: &'a str) -> (r: &'a str)
    ensures
        r@ == trimmed(s@),
{
    let chars = chars_of(s);
    let ghost p = |c: char| white_space(c);
    let mut from: usize = 0;
    while from < chars.len() && is_white_space(chars[from])
        invariant
            chars@ == s@,
            from <= chars@.len(),
            p == (|c: char| white_space(c)),
            forall|i: int| 0 <= i < from ==> p(#[trigger] s@[i]),
        decreases chars@.len() - from,
    {
        from += 1;
    }
    let mut to: usize = chars.len();
    while to > from && is_white_space(chars[to - 1])
        invariant
            chars@ == s@,
            from <= to <= chars@.len(),
            p == (|c: char| white_space(c)),
            forall|i: int| to <= i < s@.len() ==> p(#[trigger] s@[i]),
        decreases to,
    {
        to -= 1;
    }
    proof {
        lemma_trim_front_at(s@, p, from as int);
        let rest = s@.skip(from as int);
        assert forall|i: int| to - from <= i < rest.len() implies p(#[trigger] rest[i]) by {
            assert(rest[i] == s@[i + from]);
        }
        lemma_trim_back_at(rest, p, to - from);
        assert(rest.take(to - from) =~= s@.subrange(from as int, to as int));
    }
    s.substring_char(from, to)
}

// ── Laws of parts ────────────────────────────────────────────────────

/// What stands behind the last separator, and before it, where a part without it comes
/// last.
pub proof fn law_last_part(front: Seq<char>, last: Seq<char>, c: char)
    requires
        !last.contains(c),
    ensures
        after_last(front + seq![c] + last, c) == last,
        before_last(front + seq![c] + last, c) == front,
{
    let s = front + seq![c] + last;
    let k = front.len() as int;
    assert(s[k] == c);
    assert forall|i: int| k < i < s.len() implies s[i] != c by {
        assert(s[i] == last[i - k - 1]);
        assert(last.contains(last[i - k - 1]));
    }
    lemma_last_at_unique(s, c, k);
    assert(before_last(s, c) =~= front);
    assert(after_last(s, c) =~= last);
}

/// A text without the separator is its own last part.
pub proof fn law_only_part(s: Seq<char>, c: char)
    requires
        !s.contains(c),
    ensures
        after_last(s, c) == s,
{
    lemma_last_at(s, c);
    assert(after_last(s, c) =~= s);
}

/// The only piece of a text without the separator is the text, if it is not empty.
pub proof fn law_single_piece(s: Seq<char>, c: char)
    requires
        !s.contains(c),
    ensures
        pieces(s, c) == if s.len() > 0 {
            seq![s]
        } else {
            seq![]
        },
{
    lemma_first_at(s, c);
    assert(s.take(s.len() as int) =~= s);
    assert(pieces(s, c) =~= if s.len() > 0 {
        seq![s]
    } else {
        seq![]
    });
}

/// The pieces of two texts with the separator between them are the pieces of the one, then
/// those of the other.
pub proof fn law_pieces_join(a: Seq<char>, b: Seq<char>, c: char)
    ensures
        pieces(a + seq![c] + b, c) == pieces(a, c) + pieces(b, c),
    decreases a.len(),
{
    let s = a + seq![c] + b;
    let k = first_at(a, c);
    lemma_first_at(a, c);
    if k < a.len() {
        assert forall|i: int| 0 <= i < k implies s[i] != c by {
            assert(s[i] == a[i]);
        }
        assert(s[k] == a[k]);
        lemma_first_at_unique(s, c, k);
        assert(s.take(k) =~= a.take(k));
        assert(s.skip(k + 1) =~= a.skip(k + 1) + seq![c] + b);
        law_pieces_join(a.skip(k + 1), b, c);
        assert(pieces(s, c) =~= pieces(a, c) + pieces(b, c));
    } else {
        assert forall|i: int| 0 <= i < a.len() implies s[i] != c by {
            assert(s[i] == a[i]);
        }
        assert(s[a.len() as int] == c);
        lemma_first_at_unique(s, c, a.len() as int);
        assert(s.take(k) =~= a);
        assert(s.skip(k + 1) =~= b);
        law_single_piece(a, c);
        assert(pieces(s, c) =~= pieces(a, c) + pieces(b, c));
    }
}

/// Trimming takes white space off the ends, all of it, and nothing else: what is left is
/// what stands between white space, and neither starts nor ends with any.
pub proof fn law_trimmed_between_spaces(front: Seq<char>, s: Seq<char>, back: Seq<char>)
    requires
        forall|i: int| 0 <= i < front.len() ==> white_space(#[trigger] front[i]),
        forall|i: int| 0 <= i < back.len() ==> white_space(#[trigger] back[i]),
        s.len() > 0 ==> !white_space(s[0]) && !white_space(s.last()),
    ensures
        trimmed(front + s + back) == s,
{
    let p = |c: char| white_space(c);
    let all = front + s + back;
    if s.len() > 0 {
        let k = front.len() as int;
        assert forall|i: int| 0 <= i < k implies p(#[trigger] all[i]) by {
            assert(all[i] == front[i]);
        }
        assert(all[k] == s[0]);
        lemma_trim_front_at(all, p, k);
        let rest = all.skip(k);
        assert(rest =~= s + back);
        let n = s.len() as int;
        assert forall|i: int| n <= i < rest.len() implies p(#[trigger] rest[i]) by {
            assert(rest[i] == back[i - n]);
        }
        assert(rest[n - 1] == s.last());
        lemma_trim_back_at(rest, p, n);
        assert(rest.take(n) =~= s);
    } else {
        assert forall|i: int| 0 <= i < all.len() implies p(#[trigger] all[i]) by {
            if i < front.len() {
                assert(all[i] == front[i]);
            } else {
                assert(all[i] == back[i - front.len()]);
            }
        }
        lemma_trim_front_at(all, p, all.len() as int);
        assert(all.skip(all.len() as int) =~= s);
    }
}

/// An ASCII text in lower case has no capital letters; everything else in it is as it was,
/// and putting it in lower case again changes nothing.
pub proof fn law_lower_case(s: Seq<char>)
    requires
        is_ascii_text(s),
    ensures
        lowercase_of(s).len() == s.len(),
        forall|i: int|
            0 <= i < s.len() ==> {
                let c = #[trigger] lowercase_of(s)[i];
                &&& !('A' <= c <= 'Z')
                &&& 'A' <= s[i] <= 'Z' ==> 'a' <= c <= 'z' && c as int == s[i] as int + 32
                &&& !('A' <= s[i] <= 'Z') ==> c == s[i]
            },
        lowercase_of(lowercase_of(s)) == lowercase_of(s),
{
    let t = lowercase_of(s);
    assert forall|i: int| 0 <= i < s.len() implies {
        let c = #[trigger] t[i];
        &&& !('A' <= c <= 'Z')
        &&& 'A' <= s[i] <= 'Z' ==> 'a' <= c <= 'z' && c as int == s[i] as int + 32
        &&& !('A' <= s[i] <= 'Z') ==> c == s[i]
    } by {
        assert(t[i] == ascii_lowercase(s[i]));
    }
    assert forall|i: int| 0 <= i < t.len() implies '\0' <= #[trigger] t[i] <= '\u{7f}' by {
        assert('\0' <= s[i] <= '\u{7f}');
    }
    assert(lowercase_of(t) =~= t);
}

} // verus!
