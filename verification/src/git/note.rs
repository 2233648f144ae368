//! The line grammar of a gtm note: blank lines, the `[ver:N,total:T]`
//! header that opens a block, and the digit runs a header is read from.

use vstd::prelude::*;

verus! {

/// Whether the non-ASCII character `c` is in the Unicode general category
/// Nd (decimal number).
pub uninterp spec fn unicode_decimal_digit(c: char) -> bool;

/// Whether `c` is in the class `\d` as the `regex` crate reads it: Unicode
/// general category Nd, whose ASCII members are `0` to `9`.
pub open spec fn regex_digit(c: char) -> bool {
    if (c as u32) < 128 {
        '0' <= c && c <= '9'
    } else {
        unicode_decimal_digit(c)
    }
}

/// Whether `c` has the Unicode `White_Space` property, as
/// `char::is_whitespace` reads it: the controls U+0009 to U+000D, the space,
/// U+0085, U+00A0, U+1680, U+2000 to U+200A, U+2028, U+2029, U+202F, U+205F
/// and U+3000.
pub open spec fn unicode_white_space(c: char) -> bool {
    let u = c as u32;
    ||| 0x09 <= u <= 0x0D
    ||| u == 0x20
    ||| u == 0x85
    ||| u == 0xA0
    ||| u == 0x1680
    ||| 0x2000 <= u <= 0x200A
    ||| u == 0x2028
    ||| u == 0x2029
    ||| u == 0x202F
    ||| u == 0x205F
    ||| u == 0x3000
}

/// Tests `c` against the `regex` crate's Unicode-aware `\d` class (a
/// match of `^\d$` on the one-character text `c`). The contract claims that
/// the verdict is a function of `c` alone and that, on ASCII characters, it
/// accepts exactly `0` to `9`, the ASCII members of category Nd.
#[verifier::external_body]
fn is_decimal_digit(c: char) -> (b: bool)
    ensures
        b == (if (c as u32) < 128 {
            '0' <= c && c <= '9'
        } else {
            unicode_decimal_digit(c)
        }),
{
    let mut buf = [0u8; 4];
    regex::Regex::new(r"^\d$").unwrap().is_match(c.encode_utf8(&mut buf))
}

/// Whether `c` is white space (`char::is_whitespace`).
pub fn is_white_space(c: char) -> (b: bool)
    ensures
        b == unicode_white_space(c),
{
    let u: u32 = c as u32;
    (0x09 <= u && u <= 0x0D) || u == 0x20 || u == 0x85 || u == 0xA0 || u == 0x1680 || (0x2000 <= u
        && u <= 0x200A) || u == 0x2028 || u == 0x2029 || u == 0x202F || u == 0x205F || u == 0x3000
}

/// The line is empty once trimmed: every character is white space.
pub open spec fn is_blank(line: Seq<char>) -> bool {
    forall|k: int| 0 <= k < line.len() ==> unicode_white_space(#[trigger] line[k])
}

/// Every character of `s` in `[lo, hi)` is a decimal digit.
pub open spec fn digits_in(s: Seq<char>, lo: int, hi: int) -> bool {
    forall|k: int| lo <= k < hi ==> regex_digit(#[trigger] s[k])
}

/// `[ver:`
pub open spec fn header_open() -> Seq<char> {
    seq!['[', 'v', 'e', 'r', ':']
}

/// `,total:`
pub open spec fn header_mid() -> Seq<char> {
    seq![',', 't', 'o', 't', 'a', 'l', ':']
}

/// `s[i..=k]` reads `[ver:` DIGITS `,total:` DIGITS `]`, the first digits
/// ending at `j`.
pub open spec fn header_at(s: Seq<char>, i: int, j: int, k: int) -> bool {
    &&& 0 <= i
    &&& i + 5 < j
    &&& s.subrange(i, i + 5) == header_open()
    &&& digits_in(s, i + 5, j)
    &&& j + 7 < k < s.len()
    &&& s.subrange(j, j + 7) == header_mid()
    &&& digits_in(s, j + 7, k)
    &&& s[k] == ']'
}

/// The line holds a note header somewhere (`\[ver:\d+,total:\d+]`).
pub open spec fn has_header(s: Seq<char>) -> bool {
    exists|i: int, j: int, k: int| header_at(s, i, j, k)
}

/// The digits with which `s` begins.
pub open spec fn leading_digits(s: Seq<char>) -> Seq<char>
    decreases s.len(),
{
    if s.len() > 0 && regex_digit(s[0]) {
        seq![s[0]] + leading_digits(s.skip(1))
    } else {
        Seq::empty()
    }
}

/// The first maximal run of digits in `s` (the first match of `\d+`), empty
/// where `s` holds no digit.
pub open spec fn first_digit_run(s: Seq<char>) -> Seq<char>
    decreases s.len(),
{
    if s.len() == 0 {
        Seq::empty()
    } else if regex_digit(s[0]) {
        leading_digits(s)
    } else {
        first_digit_run(s.skip(1))
    }
}

/// Whether every character of the line is white space.
pub fn blank_line(line: &Vec<char>) -> (b: bool)
    ensures
        b == is_blank(line@),
{
    let mut k: usize = 0;
    while k < line.len()
        invariant
            k <= line.len(),
            forall|m: int| 0 <= m < k ==> unicode_white_space(#[trigger] line@[m]),
        decreases line.len() - k,
    {
        if !is_white_space(line[k]) {
            return false;
        }
        k = k + 1;
    }
    true
}

/// The end of the run of digits that starts at `from`.
fn digits_end(s: &Vec<char>, from: usize) -> (e: usize)
    requires
        from <= s.len(),
    ensures
        from <= e <= s.len(),
        digits_in(s@, from as int, e as int),
        e == s.len() || !regex_digit(s@[e as int]),
{
    let mut e = from;
    while e < s.len() && is_decimal_digit(s[e])
        invariant
            from <= e <= s.len(),
            digits_in(s@, from as int, e as int),
        decreases s.len() - e,
    {
        e = e + 1;
    }
    e
}

fn literal_at(s: &Vec<char>, i: usize, lit: &Vec<char>) -> (b: bool)
    requires
        i <= s.len(),
    ensures
        b == (i + lit.len() <= s.len() && s@.subrange(i as int, i + lit.len()) == lit@),
{
    if lit.len() > s.len() - i {
        return false;
    }
    let mut k: usize = 0;
    while k < lit.len()
        invariant
            k <= lit.len(),
            i + lit.len() <= s.len(),
            forall|m: int| 0 <= m < k ==> s@[i + m] == lit@[m],
        decreases lit.len() - k,
    {
        if s[i + k] != lit[k] {
            assert(s@.subrange(i as int, i + lit.len())[k as int] != lit@[k as int]);
            return false;
        }
        k = k + 1;
    }
    assert(s@.subrange(i as int, i + lit.len()) =~= lit@);
    true
}

/// Whether a note header starts at `i`.
fn header_starts_at(s: &Vec<char>, i: usize, open: &Vec<char>, mid: &Vec<char>) -> (b: bool)
    requires
        i <= s.len(),
        open@ == header_open(),
        mid@ == header_mid(),
    ensures
        b == exists|j: int, k: int| header_at(s@, i as int, j, k),
{
    if !literal_at(s, i, open) {
        assert forall|j: int, k: int| !header_at(s@, i as int, j, k) by {}
        return false;
    }
    let j = digits_end(s, i + 5);
    assert forall|j2: int, k2: int| header_at(s@, i as int, j2, k2) implies j2 == j by {
        if j2 < j {
            assert(regex_digit(s@[j2]));
            assert(s@.subrange(j2, j2 + 7)[0] == s@[j2]);
        } else if j2 > j {
            assert(regex_digit(s@[j as int]));
        }
    }
    if j == i + 5 || !literal_at(s, j, mid) {
        return false;
    }
    let k = digits_end(s, j + 7);
    assert forall|j2: int, k2: int| header_at(s@, i as int, j2, k2) implies k2 == k by {
        if k2 < k {
            assert(regex_digit(s@[k2]));
        } else if k2 > k {
            assert(regex_digit(s@[k as int]));
        }
    }
    if k == j + 7 || k >= s.len() || s[k] != ']' {
        return false;
    }
    assert(header_at(s@, i as int, j as int, k as int));
    true
}

/// Whether the line holds a note header.
pub fn line_has_header(s: &Vec<char>) -> (b: bool)
    ensures
        b == has_header(s@),
{
    let open: Vec<char> = vec!['[', 'v', 'e', 'r', ':'];
    let mid: Vec<char> = vec![',', 't', 'o', 't', 'a', 'l', ':'];
    assert(open@ =~= header_open());
    assert(mid@ =~= header_mid());
    let mut i: usize = 0;
    while i < s.len()
        invariant
            i <= s.len(),
            open@ == header_open(),
            mid@ == header_mid(),
            forall|i2: int, j: int, k: int| 0 <= i2 < i ==> !header_at(s@, i2, j, k),
        decreases s.len() - i,
    {
        if header_starts_at(s, i, &open, &mid) {
            return true;
        }
        i = i + 1;
    }
    assert forall|i2: int, j: int, k: int| !header_at(s@, i2, j, k) by {}
    false
}


proof fn lemma_leading_digits(t: Seq<char>, e: int)
    requires
        0 <= e <= t.len(),
        digits_in(t, 0, e),
        e == t.len() || !regex_digit(t[e]),
    ensures
        leading_digits(t) == t.take(e),
    decreases e,
{
    if e == 0 {
        assert(t.take(0) =~= Seq::<char>::empty());
    } else {
        let u = t.skip(1);
        assert forall|k: int| 0 <= k < e - 1 implies regex_digit(#[trigger] u[k]) by {
            assert(u[k] == t[k + 1]);
        }
        if e < t.len() {
            assert(u[e - 1] == t[e]);
        }
        lemma_leading_digits(u, e - 1);
        assert(t.take(e) =~= seq![t[0]] + u.take(e - 1));
    }
}

/// A line that holds a digit has a nonempty first digit run.
pub proof fn lemma_first_digit_run_nonempty(s: Seq<char>, k: int)
    requires
        0 <= k < s.len(),
        regex_digit(s[k]),
    ensures
        first_digit_run(s).len() > 0,
    decreases k,
{
    if !regex_digit(s[0]) {
        assert(s.skip(1)[k - 1] == s[k]);
        lemma_first_digit_run_nonempty(s.skip(1), k - 1);
    }
}

/// Every header carries a version: a line with a header has a nonempty
/// first digit run, so reading a note never fails for want of one.
pub proof fn lemma_header_has_digits(s: Seq<char>)
    requires
        has_header(s),
    ensures
        first_digit_run(s).len() > 0,
{
    let (i, j, k) = choose|i: int, j: int, k: int| header_at(s, i, j, k);
    assert(regex_digit(s[i + 5]));
    lemma_first_digit_run_nonempty(s, i + 5);
}

/// The first run of digits in the line (the first match of `\d+`).
pub fn first_digits(s: &Vec<char>) -> (r: Vec<char>)
    ensures
        r@ == first_digit_run(s@),
{
    let mut i: usize = 0;
    assert(s@.skip(0) =~= s@);
    while i < s.len() && !is_decimal_digit(s[i])
        invariant
            i <= s.len(),
            first_digit_run(s@) == first_digit_run(s@.skip(i as int)),
        decreases s.len() - i,
    {
        assert(s@.skip(i as int).skip(1) =~= s@.skip(i + 1));
        i = i + 1;
    }
    if i == s.len() {
        return Vec::new();
    }
    let e = digits_end(s, i);
    proof {
        let t = s@.skip(i as int);
        assert forall|k: int| 0 <= k < e - i implies regex_digit(#[trigger] t[k]) by {
            assert(t[k] == s@[i + k]);
        }
        if e < s.len() {
            assert(t[e - i] == s@[e as int]);
        }
        lemma_leading_digits(t, e - i);
        assert(t.take(e - i) =~= s@.subrange(i as int, e as int));
    }
    crate::text::slice_chars(s, i, e)
}

} // verus!
