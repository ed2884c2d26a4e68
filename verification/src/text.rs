//! Character classes and string scanning helpers shared by the rule parser,
//! the style resolver and the script bridge.
//!
//! The rule language and the resource addresses this client works with are
//! ASCII-oriented, so the character classes below are the ASCII ones.

use vstd::prelude::*;

verus! {

/// ASCII whitespace, the class the rule parser skips.
pub open spec fn spec_is_space(c: char) -> bool {
    c == ' ' || c == '\t' || c == '\r' || c == '\n'
}

/// ASCII letter.
pub open spec fn spec_is_letter(c: char) -> bool {
    ('a' <= c && c <= 'z') || ('A' <= c && c <= 'Z')
}

/// ASCII decimal digit.
pub open spec fn spec_is_digit(c: char) -> bool {
    '0' <= c && c <= '9'
}

pub fn is_space(c: char) -> (r: bool)
    ensures
        r == spec_is_space(c),
{
    c == ' ' || c == '\t' || c == '\r' || c == '\n'
}

pub fn is_letter(c: char) -> (r: bool)
    ensures
        r == spec_is_letter(c),
{
    ('a' <= c && c <= 'z') || ('A' <= c && c <= 'Z')
}

pub fn is_digit(c: char) -> (r: bool)
    ensures
        r == spec_is_digit(c),
{
    '0' <= c && c <= '9'
}

/// Relies on String::push: appends one character at the end, as its
/// documentation states.
#[verifier::external_body]
pub fn push_char(s: &mut String, c: char)
    ensures
        final(s)@ == old(s)@.push(c),
{
    s.push(c);
}

/// Splitting `s` at every occurrence of `sep`: always at least one segment,
/// empty segments kept, separators dropped.
pub open spec fn spec_split(s: Seq<char>, sep: char) -> Seq<Seq<char>>
    decreases s.len(),
{
    if s.len() == 0 {
        seq![Seq::<char>::empty()]
    } else if s[0] == sep {
        seq![Seq::<char>::empty()] + spec_split(s.skip(1), sep)
    } else {
        let rest = spec_split(s.skip(1), sep);
        seq![seq![s[0]] + rest[0]] + rest.skip(1)
    }
}

/// Leading whitespace removed.
pub open spec fn spec_trim_start(s: Seq<char>) -> Seq<char>
    decreases s.len(),
{
    if s.len() > 0 && spec_is_space(s[0]) {
        spec_trim_start(s.skip(1))
    } else {
        s
    }
}

/// Trailing whitespace removed.
pub open spec fn spec_trim_end(s: Seq<char>) -> Seq<char>
    decreases s.len(),
{
    if s.len() > 0 && spec_is_space(s[s.len() - 1]) {
        spec_trim_end(s.take(s.len() - 1))
    } else {
        s
    }
}

/// Leading and trailing whitespace removed.
pub open spec fn spec_trim(s: Seq<char>) -> Seq<char> {
    spec_trim_end(spec_trim_start(s))
}

/// Every trailing occurrence of `c` removed.
pub open spec fn spec_strip_trailing(s: Seq<char>, c: char) -> Seq<char>
    decreases s.len(),
{
    if s.len() > 0 && s[s.len() - 1] == c {
        spec_strip_trailing(s.take(s.len() - 1), c)
    } else {
        s
    }
}

/// Splits `s` at every occurrence of `sep`, keeping empty segments.
pub fn split_char(s: &str, sep: char) -> (r: Vec<String>)
    ensures
        r.deep_view() == spec_split(s@, sep),
        r.len() >= 1,
    decreases s@.len(),
{
    let len = s.unicode_len();
    if len == 0 {
        let mut r: Vec<String> = Vec::new();
        r.push(String::new());
        assert(r.deep_view() =~= spec_split(s@, sep));
        return r;
    }
    let c0 = s.get_char(0);
    let rest = s.substring_char(1, len);
    assert(rest@ == s@.skip(1));
    if c0 == sep {
        let mut r = split_char(rest, sep);
        r.insert(0, String::new());
        assert(r.deep_view() =~= spec_split(s@, sep));
        r
    } else {
        let mut r = split_char(rest, sep);
        let first = r.remove(0);
        let mut head = String::new();
        push_char(&mut head, c0);
        assert(head@ =~= seq![s@[0]]);
        head.append(first.as_str());
        r.insert(0, head);
        assert(r.deep_view() =~= spec_split(s@, sep));
        r
    }
}

/// Removes leading whitespace.
pub fn trim_start(s: &str) -> (r: &str)
    ensures
        r@ == spec_trim_start(s@),
    decreases s@.len(),
{
    let len = s.unicode_len();
    if len > 0 && is_space(s.get_char(0)) {
        trim_start(s.substring_char(1, len))
    } else {
        s
    }
}

/// Removes trailing whitespace.
pub fn trim_end(s: &str) -> (r: &str)
    ensures
        r@ == spec_trim_end(s@),
    decreases s@.len(),
{
    let len = s.unicode_len();
    if len > 0 && is_space(s.get_char(len - 1)) {
        trim_end(s.substring_char(0, len - 1))
    } else {
        s
    }
}

/// Removes leading and trailing whitespace.
pub fn trim(s: &str) -> (r: &str)
    ensures
        r@ == spec_trim(s@),
{
    trim_end(trim_start(s))
}

/// Removes every trailing occurrence of `c`.
pub fn strip_trailing(s: &str, c: char) -> (r: &str)
    ensures
        r@ == spec_strip_trailing(s@, c),
    decreases s@.len(),
{
    let len = s.unicode_len();
    if len > 0 && s.get_char(len - 1) == c {
        strip_trailing(s.substring_char(0, len - 1), c)
    } else {
        s
    }
}

/// Each segment trimmed.
pub open spec fn spec_trim_each(s: Seq<Seq<char>>) -> Seq<Seq<char>> {
    s.map_values(|p: Seq<char>| spec_trim(p))
}

/// True when the line is wholly a `/* ... */` comment: it starts with `/*`
/// and ends with `*/`.
pub open spec fn spec_is_comment_line(l: Seq<char>) -> bool {
    l.len() >= 2 && l[0] == '/' && l[1] == '*' && l[l.len() - 2] == '*' && l[l.len() - 1] == '/'
}

/// True when `s` starts with the prefix `p`.
pub open spec fn spec_starts_with(s: Seq<char>, p: Seq<char>) -> bool {
    s.len() >= p.len() && s.take(p.len() as int) == p
}

/// True when `s` ends with the suffix `p`.
pub open spec fn spec_ends_with(s: Seq<char>, p: Seq<char>) -> bool {
    s.len() >= p.len() && s.skip(s.len() - p.len()) == p
}

pub fn starts_with(s: &str, p: &str) -> (r: bool)
    ensures
        r == spec_starts_with(s@, p@),
{
    let s_len = s.unicode_len();
    let p_len = p.unicode_len();
    if s_len < p_len {
        return false;
    }
    let head = s.substring_char(0, p_len);
    assert(head@ == s@.take(p@.len() as int));
    str_eq(head, p)
}

pub fn ends_with(s: &str, p: &str) -> (r: bool)
    ensures
        r == spec_ends_with(s@, p@),
{
    let s_len = s.unicode_len();
    let p_len = p.unicode_len();
    if s_len < p_len {
        return false;
    }
    let tail = s.substring_char(s_len - p_len, s_len);
    assert(tail@ == s@.skip(s@.len() - p@.len()));
    str_eq(tail, p)
}

/// True when `s` is non-empty and wholly decimal digits.
pub open spec fn spec_all_digits(s: Seq<char>) -> bool {
    s.len() > 0 && forall|i: int| 0 <= i < s.len() ==> spec_is_digit(s[i])
}

/// Numeric value of a digit string, most significant digit first.
pub open spec fn spec_digits_value(s: Seq<char>) -> int
    decreases s.len(),
{
    if s.len() == 0 {
        0
    } else {
        spec_digits_value(s.take(s.len() - 1)) * 10 + (s[s.len() - 1] as int - '0' as int)
    }
}

/// The value of a digit string never shrinks as digits are appended.
pub proof fn lemma_digits_value_grows(s: Seq<char>, i: int)
    requires
        0 <= i <= s.len(),
        forall|j: int| 0 <= j < s.len() ==> spec_is_digit(s[j]),
    ensures
        0 <= spec_digits_value(s.take(i)) <= spec_digits_value(s),
    decreases s.len() - i,
{
    if i == s.len() {
        assert(s.take(i) =~= s);
        lemma_digits_value_nonneg(s);
    } else {
        lemma_digits_value_grows(s, i + 1);
        let t = s.take(i + 1);
        assert(t.take(t.len() - 1) =~= s.take(i));
        lemma_digits_value_nonneg(s.take(i));
        assert(spec_digits_value(s.take(i)) <= spec_digits_value(s.take(i + 1)));
    }
}

/// A digit string's value is never negative.
pub proof fn lemma_digits_value_nonneg(s: Seq<char>)
    requires
        forall|j: int| 0 <= j < s.len() ==> spec_is_digit(s[j]),
    ensures
        spec_digits_value(s) >= 0,
    decreases s.len(),
{
    if s.len() > 0 {
        let t = s.take(s.len() - 1);
        lemma_digits_value_nonneg(t);
    }
}

/// A digit string has value zero exactly when every digit is `0`.
pub proof fn lemma_digits_value_zero(s: Seq<char>)
    requires
        forall|j: int| 0 <= j < s.len() ==> spec_is_digit(s[j]),
    ensures
        (spec_digits_value(s) == 0) <==> (forall|j: int| 0 <= j < s.len() ==> s[j] == '0'),
    decreases s.len(),
{
    if s.len() > 0 {
        let t = s.take(s.len() - 1);
        lemma_digits_value_nonneg(t);
        lemma_digits_value_zero(t);
        let c = s[s.len() - 1];
        assert(spec_is_digit(c));
        assert(0 <= c as int - '0' as int <= 9);
        assert(spec_digits_value(s) == spec_digits_value(t) * 10 + (c as int - '0' as int));
        if spec_digits_value(s) == 0 {
            assert(spec_digits_value(t) == 0);
            assert(c as int == '0' as int);
            assert(c == '0');
            assert(forall|j: int| 0 <= j < t.len() ==> s[j] == t[j]);
        } else {
            if forall|j: int| 0 <= j < s.len() ==> s[j] == '0' {
                assert(forall|j: int| 0 <= j < t.len() ==> t[j] == '0');
                assert(spec_digits_value(t) == 0);
                assert(c == '0');
                assert(spec_digits_value(s) == 0);
            }
        }
    }
}

/// Reads `s` as an unsigned decimal number of at most `cap`: `Some` exactly
/// when `s` is wholly digits and its value is within the cap.
pub fn parse_digits(s: &str, cap: u32) -> (r: Option<u32>)
    ensures
        match r {
            Some(v) => spec_all_digits(s@) && spec_digits_value(s@) == v as int && v <= cap,
            None => !(spec_all_digits(s@) && spec_digits_value(s@) <= cap),
        },
{
    let len = s.unicode_len();
    if len == 0 {
        return None;
    }
    let mut acc: u64 = 0;
    let mut i: usize = 0;
    while i < len
        invariant
            len == s@.len(),
            i <= len,
            forall|j: int| 0 <= j < i ==> spec_is_digit(s@[j]),
            acc as int == spec_digits_value(s@.take(i as int)),
            acc <= cap,
        decreases len - i,
    {
        let c = s.get_char(i);
        if !is_digit(c) {
            return None;
        }
        let d: u64 = (c as u32 as u64) - ('0' as u32 as u64);
        proof {
            assert(s@.take(i as int + 1).take(i as int) =~= s@.take(i as int));
            assert(s@.take(i as int + 1)[i as int] == s@[i as int]);
        }
        let next: u64 = acc * 10 + d;
        if next > cap as u64 {
            proof {
                assert(next as int == spec_digits_value(s@.take(i as int + 1)));
                if spec_all_digits(s@) {
                    lemma_digits_value_grows(s@, i as int + 1);
                }
            }
            return None;
        }
        acc = next;
        i = i + 1;
    }
    proof {
        assert(s@.take(len as int) =~= s@);
    }
    Some(acc as u32)
}

/// Reads `s` as an optionally negative decimal integer.
pub open spec fn spec_parse_i32(s: Seq<char>) -> Option<i32> {
    if s.len() >= 1 && s[0] == '-' {
        let d = s.skip(1);
        if spec_all_digits(d) && spec_digits_value(d) <= 0x8000_0000 {
            Some((-spec_digits_value(d)) as i32)
        } else {
            None
        }
    } else {
        if spec_all_digits(s) && spec_digits_value(s) <= i32::MAX {
            Some(spec_digits_value(s) as i32)
        } else {
            None
        }
    }
}

pub fn parse_i32(s: &str) -> (r: Option<i32>)
    ensures
        r == spec_parse_i32(s@),
{
    let len = s.unicode_len();
    if len >= 1 && s.get_char(0) == '-' {
        let digits = s.substring_char(1, len);
        assert(digits@ == s@.skip(1));
        match parse_digits(digits, 0x8000_0000) {
            None => None,
            Some(v) => {
                if v == 0x8000_0000 {
                    Some(i32::MIN)
                } else {
                    Some(-(v as i32))
                }
            },
        }
    } else {
        match parse_digits(s, i32::MAX as u32) {
            None => None,
            Some(v) => Some(v as i32),
        }
    }
}

/// The digit characters of a string, in order, everything else dropped.
pub open spec fn spec_digits_of(s: Seq<char>) -> Seq<char>
    decreases s.len(),
{
    if s.len() == 0 {
        Seq::empty()
    } else {
        spec_digits_of(s.take(s.len() - 1)) + (if spec_is_digit(s[s.len() - 1]) {
            seq![s[s.len() - 1]]
        } else {
            Seq::<char>::empty()
        })
    }
}

/// Whatever a string holds, its digit characters are digits.
pub proof fn lemma_digits_of_digits(s: Seq<char>)
    ensures
        forall|j: int|
            0 <= j < spec_digits_of(s).len() ==> spec_is_digit(#[trigger] spec_digits_of(s)[j]),
    decreases s.len(),
{
    if s.len() > 0 {
        let t = s.take(s.len() - 1);
        lemma_digits_of_digits(t);
        assert forall|j: int| 0 <= j < spec_digits_of(s).len() implies spec_is_digit(
            spec_digits_of(s)[j],
        ) by {
            if j < spec_digits_of(t).len() {
                assert(spec_digits_of(s)[j] == spec_digits_of(t)[j]);
            } else {
                assert(spec_digits_of(s)[j] == s[s.len() - 1]);
            }
        }
    }
}

/// Scanning further only grows the collected number.
pub proof fn lemma_digits_of_monotone(s: Seq<char>, i: int)
    requires
        0 <= i <= s.len(),
    ensures
        spec_digits_value(spec_digits_of(s.take(i))) <= spec_digits_value(spec_digits_of(s)),
    decreases s.len() - i,
{
    if i == s.len() {
        assert(s.take(i) =~= s);
    } else {
        lemma_digits_of_monotone(s, i + 1);
        let t = s.take(i + 1);
        assert(t.take(t.len() - 1) =~= s.take(i));
        lemma_digits_of_digits(s.take(i));
        lemma_digits_value_nonneg(spec_digits_of(s.take(i)));
        if spec_is_digit(s[i]) {
            let w = spec_digits_of(s.take(i));
            let e = w + seq![s[i]];
            assert(spec_digits_of(t) == e);
            assert(e.take(e.len() - 1) =~= w);
            assert(spec_digits_value(e) == spec_digits_value(w) * 10 + (s[i] as int
                - '0' as int));
            assert(spec_digits_value(w) <= spec_digits_value(e));
        } else {
            assert(spec_digits_of(t) =~= spec_digits_of(s.take(i)));
        }
    }
}

/// Reads the number written by the digit characters of a string, ignoring
/// everything around them: `None` when there is no digit at all, or when
/// the number does not fit.
pub fn parse_int(input: &str) -> (r: Option<u32>)
    ensures
        ({
            let digits = spec_digits_of(input@);
            match r {
                Some(v) => digits.len() > 0 && v as int == spec_digits_value(digits),
                None => digits.len() == 0 || spec_digits_value(digits) > u32::MAX,
            }
        }),
{
    let len = input.unicode_len();
    let mut acc: u64 = 0;
    let mut seen = false;
    let mut i: usize = 0;
    proof {
        assert(input@.take(0) =~= Seq::<char>::empty());
    }
    while i < len
        invariant
            len == input@.len(),
            i <= len,
            acc as int == spec_digits_value(spec_digits_of(input@.take(i as int))),
            acc <= u32::MAX,
            seen == (spec_digits_of(input@.take(i as int)).len() > 0),
        decreases len - i,
    {
        let c = input.get_char(i);
        proof {
            let t = input@.take(i as int + 1);
            assert(t.take(t.len() - 1) =~= input@.take(i as int));
            assert(t[t.len() - 1] == input@[i as int]);
        }
        if is_digit(c) {
            let d: u64 = (c as u32 as u64) - ('0' as u32 as u64);
            let next: u64 = acc * 10 + d;
            proof {
                let w = spec_digits_of(input@.take(i as int));
                let e = spec_digits_of(input@.take(i as int + 1));
                assert(e == w + seq![input@[i as int]]);
                assert(e.take(e.len() - 1) =~= w);
                assert(spec_digits_value(e) == spec_digits_value(w) * 10 + (c as int
                    - '0' as int));
            }
            if next > u32::MAX as u64 {
                proof {
                    lemma_digits_of_monotone(input@, i as int + 1);
                }
                return None;
            }
            acc = next;
            seen = true;
        } else {
            proof {
                assert(spec_digits_of(input@.take(i as int + 1)) =~= spec_digits_of(
                    input@.take(i as int),
                ));
            }
        }
        i = i + 1;
    }
    proof {
        assert(input@.take(len as int) =~= input@);
    }
    if seen {
        Some(acc as u32)
    } else {
        None
    }
}

/// The character of one decimal digit.
pub open spec fn spec_digit_char(d: int) -> char {
    (('0' as u8) + d as u8) as char
}

/// The decimal numeral of a number, most significant digit first.
pub open spec fn spec_numeral(k: nat) -> Seq<char>
    decreases k,
{
    if k < 10 {
        seq![spec_digit_char(k as int)]
    } else {
        spec_numeral(k / 10).push(spec_digit_char((k % 10) as int))
    }
}

/// Writes a number in decimal.
pub fn format_u64(k: u64) -> (r: String)
    ensures
        r@ == spec_numeral(k as nat),
    decreases k,
{
    if k < 10 {
        let mut r = String::new();
        push_char(&mut r, (('0' as u8) + (k as u8)) as char);
        proof {
            assert(r@ =~= spec_numeral(k as nat));
        }
        r
    } else {
        let mut r = format_u64(k / 10);
        push_char(&mut r, (('0' as u8) + ((k % 10) as u8)) as char);
        r
    }
}

/// Writes a number in decimal.
pub fn format_usize(k: usize) -> (r: String)
    ensures
        r@ == spec_numeral(k as nat),
{
    format_u64(k as u64)
}

/// Copies a list of strings, value for value.
pub fn clone_strings(v: &Vec<String>) -> (r: Vec<String>)
    ensures
        r.deep_view() == v.deep_view(),
{
    let mut r: Vec<String> = Vec::new();
    let mut j: usize = 0;
    proof {
        assert(r.deep_view() =~= v.deep_view().take(0));
    }
    while j < v.len()
        invariant
            j <= v.len(),
            v.deep_view().len() == v.len(),
            r.deep_view() =~= v.deep_view().take(j as int),
        decreases v.len() - j,
    {
        let ghost before = r.deep_view();
        proof {
            assert(before.len() == j as int);
            assert(r@.len() == before.len());
        }
        r.push(v[j].clone());
        proof {
            assert(r.deep_view().len() == before.len() + 1);
            assert(forall|t: int| 0 <= t < before.len() ==> r.deep_view()[t] == before[t]);
            assert(r.deep_view()[j as int] == v.deep_view()[j as int]);
            assert(r.deep_view() =~= v.deep_view().take(j as int + 1));
        }
        j = j + 1;
    }
    proof {
        assert(v.deep_view().take(v.len() as int) =~= v.deep_view());
    }
    r
}

/// Character-for-character equality of two string slices.
pub fn str_eq(a: &str, b: &str) -> (r: bool)
    ensures
        r == (a@ == b@),
{
    let a_len = a.unicode_len();
    let b_len = b.unicode_len();
    if a_len != b_len {
        assert(a@.len() != b@.len());
        return false;
    }
    let mut i: usize = 0;
    while i < a_len
        invariant
            a_len == a@.len(),
            b_len == b@.len(),
            a@.len() == b@.len(),
            i <= a_len,
            forall|j: int| 0 <= j < i ==> a@[j] == b@[j],
        decreases a_len - i,
    {
        if a.get_char(i) != b.get_char(i) {
            assert(a@[i as int] != b@[i as int]);
            return false;
        }
        i = i + 1;
    }
    assert(a@ =~= b@);
    true
}

} // verus!
