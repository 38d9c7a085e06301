//! Small verified helpers on string slices and owned strings.

use vstd::prelude::*;
use vstd::string::{StrSliceExecFns, StringSliceAdditionalSpecFns};

verus! {

/// Whether two string slices hold the same characters, compared byte by
/// byte over their UTF-8 encodings.
pub fn same_text(a: &str, b: &str) -> (equal: bool)
    ensures
        equal == (a@ == b@),
{
    let x = a.as_bytes();
    let y = b.as_bytes();
    if x.len() != y.len() {
        return false;
    }
    let mut i: usize = 0;
    while i < x.len()
        invariant
            x@ == a.spec_bytes(),
            y@ == b.spec_bytes(),
            x@.len() == y@.len(),
            i <= x@.len(),
            forall|j: int| 0 <= j < i ==> x@[j] == y@[j],
        decreases x@.len() - i,
    {
        if x[i] != y[i] {
            return false;
        }
        i = i + 1;
    }
    proof {
        assert(x@ =~= y@);
        vstd::utf8::encode_utf8_decode_utf8(a@);
        vstd::utf8::encode_utf8_decode_utf8(b@);
    }
    true
}

/// Whether `c` has the Unicode `White_Space` property, the set that
/// `str::trim` removes.
pub open spec fn is_whitespace(c: char) -> bool {
    let u = c as u32;
    ||| 0x09 <= u <= 0x0d
    ||| u == 0x20
    ||| u == 0x85
    ||| u == 0xa0
    ||| u == 0x1680
    ||| 0x2000 <= u <= 0x200a
    ||| u == 0x2028
    ||| u == 0x2029
    ||| u == 0x202f
    ||| u == 0x205f
    ||| u == 0x3000
}

/// `s` without its leading whitespace.
pub open spec fn trim_start(s: Seq<char>) -> Seq<char>
    decreases s.len(),
{
    if s.len() > 0 && is_whitespace(s[0]) {
        trim_start(s.drop_first())
    } else {
        s
    }
}

/// `s` without its trailing whitespace.
pub open spec fn trim_end(s: Seq<char>) -> Seq<char>
    decreases s.len(),
{
    if s.len() > 0 && is_whitespace(s.last()) {
        trim_end(s.drop_last())
    } else {
        s
    }
}

/// `s` without leading and trailing whitespace.
pub open spec fn trim(s: Seq<char>) -> Seq<char> {
    trim_end(trim_start(s))
}

/// ASCII lowercase of one character; other characters are unchanged.
pub open spec fn ascii_lower(c: char) -> char {
    if 'A' <= c <= 'Z' {
        ((c as u32) + 32) as char
    } else {
        c
    }
}

/// ASCII lowercase of a character sequence.
pub open spec fn lower_ascii(s: Seq<char>) -> Seq<char> {
    s.map_values(|c: char| ascii_lower(c))
}

/// Whether `c` has the Unicode `White_Space` property.
pub fn char_is_whitespace(c: char) -> (ws: bool)
    ensures
        ws == is_whitespace(c),
{
    let u = c as u32;
    (0x09 <= u && u <= 0x0d) || u == 0x20 || u == 0x85 || u == 0xa0 || u == 0x1680 || (0x2000
        <= u && u <= 0x200a) || u == 0x2028 || u == 0x2029 || u == 0x202f || u == 0x205f || u
        == 0x3000
}

/// ASCII lowercase of one character.
pub fn char_ascii_lower(c: char) -> (lower: char)
    ensures
        lower == ascii_lower(c),
{
    if 'A' <= c && c <= 'Z' {
        let b: u8 = ((c as u32) + 32) as u8;
        b as char
    } else {
        c
    }
}

/// The characters of a string slice.
pub fn chars_of(s: &str) -> (chars: Vec<char>)
    ensures
        chars@ == s@,
{
    let n = s.unicode_len();
    let mut chars: Vec<char> = Vec::new();
    let mut i: usize = 0;
    while i < n
        invariant
            n == s@.len(),
            i <= n,
            chars@ == s@.take(i as int),
        decreases n - i,
    {
        chars.push(s.get_char(i));
        i = i + 1;
        assert(chars@ =~= s@.take(i as int));
    }
    assert(s@.take(n as int) =~= s@);
    chars
}

/// Whether a character vector holds exactly the characters of `text`.
pub fn chars_equal(chars: &Vec<char>, text: &str) -> (equal: bool)
    ensures
        equal == (chars@ == text@),
{
    let n = text.unicode_len();
    if chars.len() != n {
        return false;
    }
    let mut i: usize = 0;
    while i < n
        invariant
            n == text@.len(),
            chars@.len() == n,
            i <= n,
            forall|j: int| 0 <= j < i ==> chars@[j] == text@[j],
        decreases n - i,
    {
        if chars[i] != text.get_char(i) {
            return false;
        }
        i = i + 1;
    }
    assert(chars@ =~= text@);
    true
}

/// The characters of `s` with surrounding whitespace removed and ASCII
/// letters lowercased.
pub fn trimmed_lowercase(s: &str) -> (normalized: Vec<char>)
    ensures
        normalized@ == lower_ascii(trim(s@)),
{
    let chars = chars_of(s);
    let n = chars.len();
    let mut lo: usize = 0;
    assert(s@.subrange(0, n as int) =~= s@);
    while lo < n && char_is_whitespace(chars[lo])
        invariant
            chars@ == s@,
            n == chars@.len(),
            lo <= n,
            trim_start(s@) == trim_start(s@.subrange(lo as int, n as int)),
        decreases n - lo,
    {
        assert(s@.subrange(lo as int, n as int).drop_first() =~= s@.subrange(lo + 1, n as int));
        lo = lo + 1;
    }
    assert(trim_start(s@) == s@.subrange(lo as int, n as int));
    let mut hi: usize = n;
    while hi > lo && char_is_whitespace(chars[hi - 1])
        invariant
            chars@ == s@,
            n == chars@.len(),
            lo <= hi <= n,
            trim(s@) == trim_end(s@.subrange(lo as int, hi as int)),
        decreases hi - lo,
    {
        assert(s@.subrange(lo as int, hi as int).drop_last() =~= s@.subrange(
            lo as int,
            hi - 1,
        ));
        hi = hi - 1;
    }
    assert(trim(s@) == s@.subrange(lo as int, hi as int));
    let mut normalized: Vec<char> = Vec::new();
    let mut k: usize = lo;
    while k < hi
        invariant
            chars@ == s@,
            lo <= k <= hi <= n,
            n == chars@.len(),
            normalized@ == lower_ascii(s@.subrange(lo as int, k as int)),
        decreases hi - k,
    {
        normalized.push(char_ascii_lower(chars[k]));
        k = k + 1;
        assert(normalized@ =~= lower_ascii(s@.subrange(lo as int, k as int)));
    }
    normalized
}

/// The ASCII decimal digit for `d < 10`.
pub open spec fn digit_char(d: nat) -> char {
    ((48 + d) as u8) as char
}

/// Whether `c` is an ASCII decimal digit.
pub open spec fn is_digit(c: char) -> bool {
    '0' <= c <= '9'
}

/// The decimal representation of `n`, without leading zeros ("0" for zero).
pub open spec fn decimal(n: nat) -> Seq<char>
    decreases n,
{
    if n < 10 {
        seq![digit_char(n)]
    } else {
        decimal(n / 10).push(digit_char(n % 10))
    }
}

/// A decimal representation is non-empty and made of digits only.
pub proof fn lemma_decimal_digits(n: nat)
    ensures
        decimal(n).len() >= 1,
        forall|i: int| 0 <= i < decimal(n).len() ==> is_digit(#[trigger] decimal(n)[i]),
    decreases n,
{
    if n >= 10 {
        lemma_decimal_digits(n / 10);
        assert forall|i: int| 0 <= i < decimal(n).len() implies is_digit(
            #[trigger] decimal(n)[i],
        ) by {
            if i < decimal(n / 10).len() {
                assert(decimal(n)[i] == decimal(n / 10)[i]);
            }
        }
    }
}

/// Append one character to a string.
///
/// Calls `String::push`, which std documents as appending the given char to
/// the end of the string; the contract claims exactly that.
#[verifier::external_body]
pub(crate) fn push_char(text: &mut String, c: char)
    ensures
        final(text)@ == old(text)@.push(c),
{
    text.push(c);
}

/// Append the decimal representation of `n` to a string.
pub fn push_decimal(text: &mut String, n: usize)
    ensures
        final(text)@ == old(text)@ + decimal(n as nat),
    decreases n,
{
    if n >= 10 {
        push_decimal(text, n / 10);
    }
    let d: u8 = (n % 10) as u8;
    let c: char = (48u8 + d) as char;
    push_char(text, c);
    proof {
        assert(c == digit_char((n % 10) as nat));
        if n >= 10 {
            assert(decimal(n as nat) == decimal((n / 10) as nat).push(digit_char((n % 10) as nat)));
        }
    }
}


/// The whitespace that trimming removes is exactly Unicode `White_Space`:
/// tab, line feed, vertical tab, form feed, carriage return, space, next
/// line, no-break space, ogham space mark, the spaces U+2000 to U+200A, line
/// and paragraph separators, narrow no-break space, medium mathematical
/// space and ideographic space.
pub proof fn lemma_whitespace_is_unicode_white_space(c: char)
    ensures
        is_whitespace(c) <==> (c == '\t' || c == '\n' || c == '\u{b}' || c == '\u{c}' || c
            == '\r' || c == ' ' || c == '\u{85}' || c == '\u{a0}' || c == '\u{1680}' || (
        '\u{2000}' <= c && c <= '\u{200a}') || c == '\u{2028}' || c == '\u{2029}' || c
            == '\u{202f}' || c == '\u{205f}' || c == '\u{3000}'),
{
}

proof fn lemma_trim_start_bound(s: Seq<char>) -> (lo: int)
    ensures
        0 <= lo <= s.len(),
        trim_start(s) == s.subrange(lo, s.len() as int),
        forall|i: int| 0 <= i < lo ==> is_whitespace(#[trigger] s[i]),
        lo < s.len() ==> !is_whitespace(s[lo]),
    decreases s.len(),
{
    if s.len() > 0 && is_whitespace(s[0]) {
        let rest = s.drop_first();
        let k = lemma_trim_start_bound(rest);
        assert(rest.subrange(k, rest.len() as int) =~= s.subrange(k + 1, s.len() as int));
        assert forall|i: int| 0 <= i < k + 1 implies is_whitespace(#[trigger] s[i]) by {
            if i > 0 {
                assert(s[i] == rest[i - 1]);
            }
        }
        k + 1
    } else {
        assert(s.subrange(0, s.len() as int) =~= s);
        0
    }
}

proof fn lemma_trim_end_bound(s: Seq<char>) -> (hi: int)
    ensures
        0 <= hi <= s.len(),
        trim_end(s) == s.subrange(0, hi),
        forall|i: int| hi <= i < s.len() ==> is_whitespace(#[trigger] s[i]),
        hi > 0 ==> !is_whitespace(s[hi - 1]),
    decreases s.len(),
{
    if s.len() > 0 && is_whitespace(s.last()) {
        let rest = s.drop_last();
        let k = lemma_trim_end_bound(rest);
        assert(rest.subrange(0, k) =~= s.subrange(0, k));
        assert forall|i: int| k <= i < s.len() implies is_whitespace(#[trigger] s[i]) by {
            if i < s.len() - 1 {
                assert(s[i] == rest[i]);
            }
        }
        k
    } else {
        assert(s.subrange(0, s.len() as int) =~= s);
        s.len() as int
    }
}

/// Trimming keeps one contiguous slice of the text: everything before and
/// after it is whitespace, and the slice neither starts nor ends with
/// whitespace.
pub proof fn lemma_trim_removes_exactly_the_outer_whitespace(s: Seq<char>)
    ensures
        exists|lo: int, hi: int|
            {
                &&& 0 <= lo <= hi <= s.len()
                &&& trim(s) == s.subrange(lo, hi)
                &&& forall|i: int| 0 <= i < lo ==> is_whitespace(#[trigger] s[i])
                &&& forall|i: int| hi <= i < s.len() ==> is_whitespace(#[trigger] s[i])
                &&& lo < hi ==> !is_whitespace(s[lo]) && !is_whitespace(s[hi - 1])
            },
{
    let lo = lemma_trim_start_bound(s);
    let mid = s.subrange(lo, s.len() as int);
    let k = lemma_trim_end_bound(mid);
    let hi = lo + k;
    assert(mid.subrange(0, k) =~= s.subrange(lo, hi));
    assert forall|i: int| hi <= i < s.len() implies is_whitespace(#[trigger] s[i]) by {
        assert(s[i] == mid[i - lo]);
    }
    if lo < hi {
        assert(s[lo] == mid[0]);
        assert(s[hi - 1] == mid[k - 1]);
    }
}

/// ASCII lowercasing maps `A`..`Z` to `a`..`z` and leaves every other
/// character, and the length, unchanged.
pub proof fn lemma_lower_ascii_folds_only_ascii_capitals(s: Seq<char>)
    ensures
        lower_ascii(s).len() == s.len(),
        forall|i: int|
            0 <= i < s.len() ==> {
                &&& ('A' <= s[i] && s[i] <= 'Z') ==> lower_ascii(s)[i] as u32 == (s[i] as u32)
                    + 32
                &&& !('A' <= s[i] && s[i] <= 'Z') ==> lower_ascii(s)[i] == s[i]
            },
{
}


/// Whether every character of `s` is whitespace.
pub open spec fn all_whitespace(s: Seq<char>) -> bool {
    forall|i: int| 0 <= i < s.len() ==> is_whitespace(#[trigger] s[i])
}

proof fn lemma_trim_start_skips_whitespace(w: Seq<char>, s: Seq<char>)
    requires
        all_whitespace(w),
    ensures
        trim_start(w + s) == trim_start(s),
    decreases w.len(),
{
    if w.len() > 0 {
        assert((w + s)[0] == w[0]);
        assert((w + s).drop_first() =~= w.drop_first() + s);
        lemma_trim_start_skips_whitespace(w.drop_first(), s);
    } else {
        assert(w + s =~= s);
    }
}

proof fn lemma_trim_end_skips_whitespace(s: Seq<char>, w: Seq<char>)
    requires
        all_whitespace(w),
    ensures
        trim_end(s + w) == trim_end(s),
    decreases w.len(),
{
    if w.len() > 0 {
        assert((s + w).last() == w.last());
        assert((s + w).drop_last() =~= s + w.drop_last());
        lemma_trim_end_skips_whitespace(s, w.drop_last());
    } else {
        assert(s + w =~= s);
    }
}

proof fn lemma_trim_start_of_append(s: Seq<char>, w: Seq<char>)
    ensures
        all_whitespace(s) ==> trim_start(s + w) == trim_start(w),
        !all_whitespace(s) ==> trim_start(s + w) == trim_start(s) + w,
    decreases s.len(),
{
    if s.len() == 0 {
        assert(s + w =~= w);
    } else {
        assert((s + w)[0] == s[0]);
        if is_whitespace(s[0]) {
            assert((s + w).drop_first() =~= s.drop_first() + w);
            lemma_trim_start_of_append(s.drop_first(), w);
            if all_whitespace(s.drop_first()) {
                assert forall|i: int| 0 <= i < s.len() implies is_whitespace(#[trigger] s[i]) by {
                    if i > 0 {
                        assert(s[i] == s.drop_first()[i - 1]);
                    }
                }
            } else {
                assert(!all_whitespace(s)) by {
                    let j = choose|j: int|
                        0 <= j < s.drop_first().len() && !is_whitespace(#[trigger] s.drop_first()[j]);
                    assert(s[j + 1] == s.drop_first()[j]);
                }
            }
        } else {
            assert(!all_whitespace(s)) by {
                assert(!is_whitespace(s[0]));
            }
        }
    }
}

/// Surrounding whitespace does not change the trimmed text.
pub proof fn lemma_trim_ignores_surrounding_whitespace(left: Seq<char>, s: Seq<char>, right: Seq<char>)
    requires
        all_whitespace(left),
        all_whitespace(right),
    ensures
        trim(left + s + right) == trim(s),
{
    assert(left + s + right =~= left + (s + right));
    lemma_trim_start_skips_whitespace(left, s + right);
    lemma_trim_start_of_append(s, right);
    if all_whitespace(s) {
        lemma_trim_start_skips_whitespace(right, Seq::<char>::empty());
        assert(right + Seq::<char>::empty() =~= right);
        lemma_trim_start_skips_whitespace(s, Seq::<char>::empty());
        assert(s + Seq::<char>::empty() =~= s);
        assert(trim_start(Seq::<char>::empty()) == Seq::<char>::empty());
    } else {
        lemma_trim_end_skips_whitespace(trim_start(s), right);
    }
}

proof fn lemma_lowering_keeps_whitespace(c: char)
    ensures
        is_whitespace(ascii_lower(c)) == is_whitespace(c),
        ascii_lower(ascii_lower(c)) == ascii_lower(c),
{
}

proof fn lemma_trim_commutes_with_lowering(s: Seq<char>)
    ensures
        trim(lower_ascii(s)) == lower_ascii(trim(s)),
        lower_ascii(lower_ascii(s)) == lower_ascii(s),
{
    lemma_trim_start_lowering(s);
    lemma_trim_end_lowering(trim_start(s));
    assert forall|i: int| 0 <= i < s.len() implies #[trigger] lower_ascii(lower_ascii(s))[i]
        == lower_ascii(s)[i] by {
        lemma_lowering_keeps_whitespace(s[i]);
    }
    assert(lower_ascii(lower_ascii(s)) =~= lower_ascii(s));
}

proof fn lemma_trim_start_lowering(s: Seq<char>)
    ensures
        trim_start(lower_ascii(s)) == lower_ascii(trim_start(s)),
    decreases s.len(),
{
    if s.len() > 0 {
        lemma_lowering_keeps_whitespace(s[0]);
        assert(lower_ascii(s)[0] == ascii_lower(s[0]));
        assert(lower_ascii(s).drop_first() =~= lower_ascii(s.drop_first()));
        lemma_trim_start_lowering(s.drop_first());
    }
}

proof fn lemma_trim_end_lowering(s: Seq<char>)
    ensures
        trim_end(lower_ascii(s)) == lower_ascii(trim_end(s)),
    decreases s.len(),
{
    if s.len() > 0 {
        lemma_lowering_keeps_whitespace(s.last());
        assert(lower_ascii(s).last() == ascii_lower(s.last()));
        assert(lower_ascii(s).drop_last() =~= lower_ascii(s.drop_last()));
        lemma_trim_end_lowering(s.drop_last());
    }
}

/// Normalizing a name (trimming, then folding ASCII case) is the same
/// whether or not the name was already lowercased.
pub proof fn lemma_normalizing_ignores_ascii_case(s: Seq<char>)
    ensures
        lower_ascii(trim(lower_ascii(s))) == lower_ascii(trim(s)),
{
    lemma_trim_commutes_with_lowering(s);
    lemma_trim_commutes_with_lowering(trim(s));
}

} // verus!
