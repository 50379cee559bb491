//! Byte/character helpers shared by the parsers: UTF-8 conversion and
//! character-wise comparison of string slices.
use std::string::FromUtf8Error;
use vstd::prelude::*;
use vstd::utf8::*;

verus! {

broadcast use vstd::utf8::group_utf8_lib;

#[verifier::external_type_specification]
#[verifier::external_body]
pub struct ExFromUtf8Error(FromUtf8Error);

/// The characters that a sequence of ASCII bytes stands for.
pub open spec fn ascii_chars(bytes: Seq<u8>) -> Seq<char> {
    Seq::new(bytes.len(), |i: int| bytes[i] as char)
}

pub open spec fn all_ascii(bytes: Seq<u8>) -> bool {
    forall|i: int| 0 <= i < bytes.len() ==> bytes[i] < 128
}

/// ASCII bytes are valid UTF-8 and decode to the characters of the same codes.
pub proof fn lemma_ascii_utf8(bytes: Seq<u8>)
    requires
        all_ascii(bytes),
    ensures
        valid_utf8(bytes),
        decode_utf8(bytes) == ascii_chars(bytes),
{
    let chars = ascii_chars(bytes);
    assert(is_ascii_chars(chars)) by {
        assert forall|i| 0 <= i < chars.len() implies '\0' <= #[trigger] chars[i] <= '\u{7f}' by {
            assert(bytes[i] < 128);
        }
    }
    is_ascii_chars_encode_utf8(chars);
    assert(encode_utf8(chars) =~= bytes) by {
        assert forall|i| 0 <= i < bytes.len() implies encode_utf8(chars)[i] == bytes[i] by {
            assert(chars[i] as u8 == encode_utf8(chars)[i]);
        }
    }
    encode_utf8_valid_utf8(chars);
    encode_utf8_decode_utf8(chars);
}

/// Calls `String::from_utf8`, which by its documentation succeeds exactly on
/// valid UTF-8 and then holds the decoded characters.
#[verifier::external_body]
pub(crate) fn string_from_utf8(bytes: Vec<u8>) -> (res: Result<String, FromUtf8Error>)
    ensures
        res is Ok <==> valid_utf8(bytes@),
        res matches Ok(s) ==> s@ == decode_utf8(bytes@),
{
    String::from_utf8(bytes)
}

/// Calls `core::str::from_utf8`, which by its documentation succeeds exactly
/// on valid UTF-8 and then views the same bytes as a string slice.
#[verifier::external_body]
pub(crate) fn str_from_utf8(bytes: &[u8]) -> (res: Option<&str>)
    ensures
        res is Some <==> valid_utf8(bytes@),
        res matches Some(s) ==> s@ == decode_utf8(bytes@),
{
    core::str::from_utf8(bytes).ok()
}

/// Character-wise equality of two string slices.
pub fn str_eq(a: &str, b: &str) -> (res: bool)
    ensures
        res == (a@ == b@),
{
    let n = a.unicode_len();
    if n != b.unicode_len() {
        return false;
    }
    let mut i: usize = 0;
    while i < n
        invariant
            n == a@.len(),
            n == b@.len(),
            i <= n,
            forall|j: int| 0 <= j < i ==> a@[j] == b@[j],
        decreases n - i,
    {
        if a.get_char(i) != b.get_char(i) {
            return false;
        }
        i = i + 1;
    }
    assert(a@ =~= b@);
    true
}

/// Byte-wise equality of two slices.
pub fn bytes_eq(a: &[u8], b: &[u8]) -> (res: bool)
    ensures
        res == (a@ == b@),
{
    if a.len() != b.len() {
        return false;
    }
    let mut i: usize = 0;
    while i < a.len()
        invariant
            a@.len() == b@.len(),
            i <= a@.len(),
            forall|j: int| 0 <= j < i ==> a@[j] == b@[j],
        decreases a@.len() - i,
    {
        if a[i] != b[i] {
            return false;
        }
        i = i + 1;
    }
    assert(a@ =~= b@);
    true
}

/// Calls `char::to_string`: by `Display` for `char`, the string holding just
/// that character.
#[verifier::external_body]
pub(crate) fn char_to_string(c: char) -> (res: String)
    ensures
        res@ == seq![c],
{
    c.to_string()
}

/// Whether a character has the Unicode `White_Space` property: the 25 code
/// points U+0009 to U+000D, U+0020, U+0085, U+00A0, U+1680, U+2000 to
/// U+200A, U+2028, U+2029, U+202F, U+205F and U+3000.
pub open spec fn unicode_whitespace(c: char) -> bool {
    let u = c as u32;
    ||| 0x09 <= u <= 0x0D
    ||| u == 0x20
    ||| u == 0x85
    ||| u == 0xA0
    ||| u == 0x1680
    ||| 0x2000 <= u <= 0x200A
    ||| u == 0x2028
    ||| u == 0x2029
    ||| u == 0x202F
    ||| u == 0x205F
    ||| u == 0x3000
}

/// Whether `c` is whitespace, as `char::is_whitespace` answers.
pub(crate) fn is_whitespace(c: char) -> (res: bool)
    ensures
        res == unicode_whitespace(c),
{
    let u = c as u32;
    (0x09 <= u && u <= 0x0D) || u == 0x20 || u == 0x85 || u == 0xA0 || u == 0x1680 || (0x2000 <= u
        && u <= 0x200A) || u == 0x2028 || u == 0x2029 || u == 0x202F || u == 0x205F || u == 0x3000
}

/// Position of the first non-whitespace character at or after `i`.
pub open spec fn skip_ws(s: Seq<char>, i: int) -> int
    decreases s.len() - i,
{
    if i < 0 || i >= s.len() || !unicode_whitespace(s[i]) {
        if i < 0 { 0 } else if i > s.len() { s.len() as int } else { i }
    } else {
        skip_ws(s, i + 1)
    }
}

/// End of `s[..j]` once trailing whitespace (not before `lo`) is dropped.
pub open spec fn trim_end_from(s: Seq<char>, lo: int, j: int) -> int
    decreases j - lo,
{
    if j <= lo || j > s.len() || !unicode_whitespace(s[j - 1]) {
        if j <= lo { lo } else if j > s.len() { s.len() as int } else { j }
    } else {
        trim_end_from(s, lo, j - 1)
    }
}

/// `str::trim`: the text without leading and trailing whitespace.
pub open spec fn trimmed(s: Seq<char>) -> Seq<char> {
    let lo = skip_ws(s, 0);
    s.subrange(lo, trim_end_from(s, lo, s.len() as int))
}

proof fn lemma_skip_ws(s: Seq<char>, i: int)
    requires
        0 <= i <= s.len(),
    ensures
        i <= skip_ws(s, i) <= s.len(),
    decreases s.len() - i,
{
    if i < s.len() && unicode_whitespace(s[i]) {
        lemma_skip_ws(s, i + 1);
    }
}

proof fn lemma_trim_end(s: Seq<char>, lo: int, j: int)
    requires
        0 <= lo <= j <= s.len(),
    ensures
        lo <= trim_end_from(s, lo, j) <= j,
    decreases j - lo,
{
    if j > lo && unicode_whitespace(s[j - 1]) {
        lemma_trim_end(s, lo, j - 1);
    }
}

/// Removes leading and trailing whitespace.
pub fn trim(s: &str) -> (res: &str)
    ensures
        res@ == trimmed(s@),
{
    let n = s.unicode_len();
    proof {
        lemma_skip_ws(s@, 0);
    }
    let mut lo: usize = 0;
    while lo < n && is_whitespace(s.get_char(lo))
        invariant
            n == s@.len(),
            lo <= n,
            skip_ws(s@, 0) == skip_ws(s@, lo as int),
        decreases n - lo,
    {
        lo = lo + 1;
    }
    proof {
        lemma_trim_end(s@, lo as int, n as int);
    }
    let mut hi: usize = n;
    while hi > lo && is_whitespace(s.get_char(hi - 1))
        invariant
            n == s@.len(),
            lo <= hi <= n,
            trim_end_from(s@, lo as int, n as int) == trim_end_from(s@, lo as int, hi as int),
        decreases hi,
    {
        hi = hi - 1;
    }
    s.substring_char(lo, hi)
}

/// ASCII lower case of one character (others unchanged).
pub open spec fn ascii_lower_char(c: char) -> char {
    if 'A' <= c <= 'Z' {
        ((c as u32) + 32) as char
    } else {
        c
    }
}

pub open spec fn ascii_lowercase(s: Seq<char>) -> Seq<char> {
    s.map_values(|c: char| ascii_lower_char(c))
}

fn lower_char(c: char) -> (res: char)
    ensures
        res == ascii_lower_char(c),
{
    if c >= 'A' && c <= 'Z' {
        let u = (c as u8) + 32;
        u as char
    } else {
        c
    }
}

/// `str::to_ascii_lowercase`: ASCII capitals become small letters.
pub fn to_ascii_lowercase(s: &str) -> (res: String)
    ensures
        res@ == ascii_lowercase(s@),
{
    let n = s.unicode_len();
    let mut res = String::new();
    let mut i: usize = 0;
    while i < n
        invariant
            n == s@.len(),
            i <= n,
            res@ == ascii_lowercase(s@.take(i as int)),
        decreases n - i,
    {
        let c = lower_char(s.get_char(i));
        let cs = char_to_string(c);
        res.append(cs.as_str());
        assert(ascii_lowercase(s@.take(i + 1)) =~= ascii_lowercase(s@.take(i as int)).push(c));
        i = i + 1;
    }
    assert(s@.take(n as int) =~= s@);
    res
}

/// What `String::from_utf8_lossy` gives for some bytes: decoded UTF-8, with
/// U+FFFD for each invalid sequence.
pub uninterp spec fn utf8_lossy(bytes: Seq<u8>) -> Seq<char>;

/// Calls `String::from_utf8_lossy`; valid UTF-8 is decoded unchanged, as its
/// documentation states.
#[verifier::external_body]
pub(crate) fn from_utf8_lossy(bytes: &[u8]) -> (res: String)
    ensures
        res@ == utf8_lossy(bytes@),
        valid_utf8(bytes@) ==> res@ == decode_utf8(bytes@),
{
    String::from_utf8_lossy(bytes).into_owned()
}

/// UTF-16 code units decoded as `String::from_utf16_lossy` documents it:
/// a unit outside the surrogate range is its own character, a leading
/// surrogate followed by a trailing one is the character they encode
/// together, and any other surrogate is U+FFFD.
pub open spec fn utf16_lossy(units: Seq<u16>) -> Seq<char>
    decreases units.len(),
{
    if units.len() == 0 {
        Seq::empty()
    } else {
        let a = units[0];
        if a < 0xD800 || a > 0xDFFF {
            seq![a as char] + utf16_lossy(units.drop_first())
        } else if a <= 0xDBFF && units.len() >= 2 && 0xDC00 <= units[1] <= 0xDFFF {
            seq![(0x10000 + (a - 0xD800) * 0x400 + (units[1] - 0xDC00)) as char] + utf16_lossy(
                units.skip(2),
            )
        } else {
            seq!['\u{FFFD}'] + utf16_lossy(units.drop_first())
        }
    }
}

/// Calls `String::from_utf16_lossy`, which decodes UTF-16 and puts U+FFFD
/// in place of each unpaired surrogate.
#[verifier::external_body]
pub(crate) fn from_utf16_lossy(units: &[u16]) -> (res: String)
    ensures
        res@ == utf16_lossy(units@),
{
    String::from_utf16_lossy(units)
}

/// The characters `split_ascii_whitespace` separates at.
pub open spec fn ascii_ws(c: char) -> bool {
    c == ' ' || c == '\t' || c == '\n' || c == '\x0C' || c == '\r'
}

/// A separator for the whitespace splitters: ASCII whitespace or Unicode
/// whitespace.
pub open spec fn is_sep(ascii: bool, c: char) -> bool {
    if ascii {
        ascii_ws(c)
    } else {
        unicode_whitespace(c)
    }
}

fn sep_exec(ascii: bool, c: char) -> (res: bool)
    ensures
        res == is_sep(ascii, c),
{
    if ascii {
        c == ' ' || c == '\t' || c == '\n' || c == '\x0C' || c == '\r'
    } else {
        is_whitespace(c)
    }
}

/// End of the token that starts at `i`.
pub open spec fn token_end(s: Seq<char>, i: int, ascii: bool) -> int
    decreases s.len() - i,
{
    if i < 0 || i >= s.len() || is_sep(ascii, s[i]) {
        if i < 0 {
            0
        } else {
            i
        }
    } else {
        token_end(s, i + 1, ascii)
    }
}

/// A token that starts at `i` ends at or before the end of the text, and
/// is not empty when `s[i]` is not a separator.
pub proof fn lemma_token_end(s: Seq<char>, i: int, ascii: bool)
    requires
        0 <= i <= s.len(),
    ensures
        i <= token_end(s, i, ascii) <= s.len(),
        i < s.len() && !is_sep(ascii, s[i]) ==> token_end(s, i, ascii) > i,
    decreases s.len() - i,
{
    if i < s.len() && !is_sep(ascii, s[i]) {
        lemma_token_end(s, i + 1, ascii);
    }
}

/// The maximal runs of non-separator characters from `i` on.
pub open spec fn tokens_from(s: Seq<char>, i: int, ascii: bool) -> Seq<Seq<char>>
    decreases s.len() - i, 1int,
{
    if i < 0 || i >= s.len() {
        Seq::empty()
    } else if is_sep(ascii, s[i]) {
        tokens_from(s, i + 1, ascii)
    } else {
        let j = token_end(s, i, ascii);
        proof {
            lemma_token_end(s, i, ascii);
        }
        if j <= i {
            Seq::empty()
        } else {
            seq![s.subrange(i, j)] + tokens_from(s, j, ascii)
        }
    }
}

/// What `split_ascii_whitespace` (`ascii`) or `split_whitespace` yields.
pub open spec fn tokens(s: Seq<char>, ascii: bool) -> Seq<Seq<char>> {
    tokens_from(s, 0, ascii)
}

/// Splits at whitespace (ASCII only when `ascii`), dropping empty pieces.
pub fn split_tokens(s: &str, ascii: bool) -> (res: Vec<&str>)
    ensures
        crate::fs::str_views(res@) == tokens(s@, ascii),
{
    let n = s.unicode_len();
    let mut res: Vec<&str> = Vec::new();
    let mut i: usize = 0;
    while i < n
        invariant
            n == s@.len(),
            i <= n,
            tokens(s@, ascii) == crate::fs::str_views(res@) + tokens_from(s@, i as int, ascii),
        decreases n - i,
    {
        if sep_exec(ascii, s.get_char(i)) {
            i = i + 1;
        } else {
            proof {
                lemma_token_end(s@, i as int, ascii);
            }
            let mut j = i;
            while j < n && !sep_exec(ascii, s.get_char(j))
                invariant
                    n == s@.len(),
                    i <= j <= n,
                    token_end(s@, i as int, ascii) == token_end(s@, j as int, ascii),
                decreases n - j,
            {
                j = j + 1;
            }
            let part = s.substring_char(i, j);
            let ghost before = res@;
            res.push(part);
            proof {
                assert(crate::fs::str_views(res@) =~= crate::fs::str_views(before) + seq![
                    s@.subrange(i as int, j as int),
                ]);
                assert(crate::fs::str_views(res@) + tokens_from(s@, j as int, ascii) =~= crate::fs::str_views(before) + (
                seq![s@.subrange(i as int, j as int)] + tokens_from(s@, j as int, ascii)));
            }
            i = j;
        }
    }
    assert(crate::fs::str_views(res@) + Seq::<Seq<char>>::empty() =~= crate::fs::str_views(res@));
    res
}

/// `s` with every occurrence of `pat` (found left to right, without
/// overlap) removed, from position `i` on.
pub open spec fn remove_all_from(s: Seq<char>, pat: Seq<char>, i: int) -> Seq<char>
    decreases s.len() - i,
{
    if i < 0 || i >= s.len() {
        Seq::empty()
    } else if pat.len() > 0 && i + pat.len() <= s.len() && s.subrange(i, i + pat.len()) == pat {
        remove_all_from(s, pat, i + pat.len())
    } else {
        seq![s[i]] + remove_all_from(s, pat, i + 1)
    }
}

/// What `str::replace(pat, "")` gives.
pub open spec fn remove_all(s: Seq<char>, pat: Seq<char>) -> Seq<char> {
    remove_all_from(s, pat, 0)
}

fn matches_at(s: &str, n: usize, pat: &str, m: usize, i: usize) -> (res: bool)
    requires
        n == s@.len(),
        m == pat@.len(),
        i <= n,
    ensures
        res == (i + m <= n && s@.subrange(i as int, i + m) == pat@),
{
    if m > n - i {
        return false;
    }
    let mut k: usize = 0;
    while k < m
        invariant
            n == s@.len(),
            m == pat@.len(),
            i + m <= n,
            k <= m,
            forall|j: int| 0 <= j < k ==> s@[i + j] == pat@[j],
        decreases m - k,
    {
        if s.get_char(i + k) != pat.get_char(k) {
            assert(s@.subrange(i as int, i + m)[k as int] != pat@[k as int]);
            return false;
        }
        k = k + 1;
    }
    assert(s@.subrange(i as int, i + m) =~= pat@);
    true
}

/// `str::replace` with an empty replacement: removes each occurrence of a
/// non-empty `pat`.
pub fn remove_pattern(s: &str, pat: &str) -> (res: String)
    requires
        pat@.len() > 0,
    ensures
        res@ == remove_all(s@, pat@),
{
    let n = s.unicode_len();
    let m = pat.unicode_len();
    let mut out = String::new();
    let mut i: usize = 0;
    while i < n
        invariant
            n == s@.len(),
            m == pat@.len(),
            m > 0,
            i <= n,
            remove_all(s@, pat@) == out@ + remove_all_from(s@, pat@, i as int),
        decreases n - i,
    {
        if matches_at(s, n, pat, m, i) {
            i = i + m;
        } else {
            let c = s.get_char(i);
            let cs = char_to_string(c);
            let ghost before = out@;
            out.append(cs.as_str());
            assert(out@ + remove_all_from(s@, pat@, i + 1) =~= before + (seq![c]
                + remove_all_from(s@, pat@, i + 1)));
            i = i + 1;
        }
    }
    assert(out@ + Seq::<char>::empty() =~= out@);
    out
}

/// What `str::to_lowercase` gives: the Unicode lower-case mapping of each
/// character.
pub uninterp spec fn unicode_lowercase(s: Seq<char>) -> Seq<char>;

/// Calls `str::to_lowercase`.
#[verifier::external_body]
pub(crate) fn to_lowercase(s: &str) -> (res: String)
    ensures
        res@ == unicode_lowercase(s@),
{
    s.to_lowercase()
}

/// Whether `s` starts with `prefix`.
pub open spec fn has_prefix(s: Seq<char>, prefix: Seq<char>) -> bool {
    prefix.len() <= s.len() && s.subrange(0, prefix.len() as int) == prefix
}

/// `str::starts_with` for a string pattern.
pub fn starts_with(s: &str, prefix: &str) -> (res: bool)
    ensures
        res == has_prefix(s@, prefix@),
{
    let n = s.unicode_len();
    let m = prefix.unicode_len();
    matches_at(s, n, prefix, m, 0)
}

} // verus!
