//! Building text: characters, string slices, and decimal numbers.

use vstd::prelude::*;
use vstd::string::*;

verus! {

/// Append one character to a string (`String::push`).
#[verifier::external_body]
pub fn push_char(out: &mut String, c: char)
    ensures
        final(out)@ == old(out)@.push(c),
{
    out.push(c);
}

/// Append a string slice to a string.
pub fn push_str(out: &mut String, s: &str)
    ensures
        final(out)@ == old(out)@ + s@,
{
    out.append(s);
}

/// Make an owned string from a string slice.
pub fn owned(s: &str) -> (res: String)
    ensures
        res@ == s@,
{
    String::from_str(s)
}

/// The character of one decimal digit.
pub open spec fn digit_char(d: nat) -> char {
    ((48 + d) as u8) as char
}

/// The decimal digits of a number, without sign or padding.
pub open spec fn decimal(n: nat) -> Seq<char>
    decreases n,
{
    if n < 10 {
        seq![digit_char(n)]
    } else {
        decimal(n / 10).push(digit_char(n % 10))
    }
}

/// A number padded with zeros to at least two digits, as `{:02}`.
pub open spec fn pad2(n: nat) -> Seq<char> {
    if n < 10 {
        seq!['0'].add(decimal(n))
    } else {
        decimal(n)
    }
}

/// A number padded with zeros to at least four digits, as `{:04}`.
pub open spec fn pad4(n: nat) -> Seq<char> {
    if n < 10 {
        seq!['0', '0', '0'].add(decimal(n))
    } else if n < 100 {
        seq!['0', '0'].add(decimal(n))
    } else if n < 1000 {
        seq!['0'].add(decimal(n))
    } else {
        decimal(n)
    }
}

pub proof fn lemma_decimal_nonempty(n: nat)
    ensures
        decimal(n).len() >= 1,
    decreases n,
{
    if n >= 10 {
        lemma_decimal_nonempty(n / 10);
    }
}

fn digit(d: u64) -> (c: char)
    requires
        d < 10,
    ensures
        c == digit_char(d as nat),
{
    let b: u8 = 48u8 + (d as u8);
    b as char
}

/// Append the decimal digits of a number.
pub fn push_decimal(out: &mut String, n: u64)
    ensures
        final(out)@ == old(out)@ + decimal(n as nat),
    decreases n,
{
    if n < 10 {
        push_char(out, digit(n));
    } else {
        push_decimal(out, n / 10);
        push_char(out, digit(n % 10));
    }
}

/// Append a number padded to two digits.
pub fn push_pad2(out: &mut String, n: u64)
    ensures
        final(out)@ == old(out)@ + pad2(n as nat),
{
    if n < 10 {
        push_char(out, '0');
    }
    push_decimal(out, n);
}

/// Append a number padded to four digits.
pub fn push_pad4(out: &mut String, n: u64)
    ensures
        final(out)@ == old(out)@ + pad4(n as nat),
{
    if n < 10 {
        push_str(out, "000");
    } else if n < 100 {
        push_str(out, "00");
    } else if n < 1000 {
        push_char(out, '0');
    }
    proof {
        reveal_strlit("000");
        reveal_strlit("00");
    }
    push_decimal(out, n);
}

/// Write a number in decimal.
pub fn decimal_string(n: u64) -> (res: String)
    ensures
        res@ == decimal(n as nat),
{
    let mut out = String::new();
    push_decimal(&mut out, n);
    out
}

} // verus!

verus! {

/// The characters of a string slice, as a vector.
pub fn chars_of(s: &str) -> (v: Vec<char>)
    ensures
        v@ == s@,
{
    let mut v: Vec<char> = Vec::new();
    for c in it: s.chars()
        invariant
            it.seq() == s@,
            v@ == s@.take(it.index() as int),
    {
        proof {
            assert(s@.take(it.index() + 1) =~= s@.take(it.index() as int).push(c));
        }
        v.push(c);
    }
    proof {
        assert(s@.take(s@.len() as int) =~= s@);
    }
    v
}

/// Append the characters `v[from..to]` to a string.
pub fn push_range(out: &mut String, v: &Vec<char>, from: usize, to: usize)
    requires
        from <= to <= v@.len(),
    ensures
        final(out)@ == old(out)@ + v@.subrange(from as int, to as int),
{
    let mut i = from;
    while i < to
        invariant
            from <= i <= to <= v@.len(),
            out@ == old(out)@ + v@.subrange(from as int, i as int),
        decreases to - i,
    {
        proof {
            assert(v@.subrange(from as int, i + 1) =~= v@.subrange(from as int, i as int).push(v@[i as int]));
        }
        push_char(out, v[i]);
        i = i + 1;
    }
}

/// The index of the first `false` flag at or after `i`, or the length.
pub open spec fn first_false_from(f: Seq<bool>, i: int) -> int
    decreases f.len() - i,
{
    if i >= f.len() || i < 0 {
        f.len() as int
    } else if !f[i] {
        i
    } else {
        first_false_from(f, i + 1)
    }
}

/// The end of the last `false` flag at or before `j`, or zero.
pub open spec fn last_false_end(f: Seq<bool>, j: int) -> int
    decreases j,
{
    if j <= 0 || j > f.len() {
        0
    } else if !f[j - 1] {
        j
    } else {
        last_false_end(f, j - 1)
    }
}

/// The part of `s` that remains when the characters flagged by `f` are
/// removed from both ends.
pub open spec fn trim_flagged(s: Seq<char>, f: Seq<bool>) -> Seq<char> {
    let a = first_false_from(f, 0);
    let b = last_false_end(f, f.len() as int);
    if a < b {
        s.subrange(a, b)
    } else {
        Seq::empty()
    }
}

pub proof fn lemma_first_false_bounds(f: Seq<bool>, i: int)
    requires
        0 <= i <= f.len(),
    ensures
        i <= first_false_from(f, i) <= f.len(),
        first_false_from(f, i) < f.len() ==> !f[first_false_from(f, i)],
        forall|k: int| i <= k < first_false_from(f, i) ==> f[k],
    decreases f.len() - i,
{
    if i < f.len() && f[i] {
        lemma_first_false_bounds(f, i + 1);
    }
}

pub proof fn lemma_last_false_bounds(f: Seq<bool>, j: int)
    requires
        0 <= j <= f.len(),
    ensures
        0 <= last_false_end(f, j) <= j,
        last_false_end(f, j) > 0 ==> !f[last_false_end(f, j) - 1],
        forall|k: int| last_false_end(f, j) <= k < j ==> f[k],
    decreases j,
{
    if j > 0 && f[j - 1] {
        lemma_last_false_bounds(f, j - 1);
    }
}

/// Find the bounds that [`trim_flagged`] keeps.
pub fn trim_bounds(f: &Vec<bool>) -> (r: (usize, usize))
    ensures
        r.0 == first_false_from(f@, 0),
        r.1 == last_false_end(f@, f@.len() as int),
{
    let mut i: usize = 0;
    while i < f.len() && f[i]
        invariant
            i <= f@.len(),
            first_false_from(f@, 0) == first_false_from(f@, i as int),
        decreases f@.len() - i,
    {
        i = i + 1;
    }
    let mut j: usize = f.len();
    while j > 0 && f[j - 1]
        invariant
            j <= f@.len(),
            last_false_end(f@, f@.len() as int) == last_false_end(f@, j as int),
        decreases j,
    {
        j = j - 1;
    }
    (i, j)
}

/// Keep the characters of `v` that remain when the flagged characters
/// are removed from both ends.
pub fn trimmed_string(v: &Vec<char>, f: &Vec<bool>) -> (res: String)
    requires
        v@.len() == f@.len(),
    ensures
        res@ == trim_flagged(v@, f@),
{
    let (a, b) = trim_bounds(f);
    proof {
        lemma_first_false_bounds(f@, 0);
        lemma_last_false_bounds(f@, f@.len() as int);
    }
    let mut out = String::new();
    if a < b {
        push_range(&mut out, v, a, b);
    }
    proof {
        if a < b {
            assert(out@ =~= v@.subrange(a as int, b as int));
        }
    }
    out
}

} // verus!

verus! {

/// An ASCII letter.
pub open spec fn ascii_alpha(c: char) -> bool {
    ('a' <= c && c <= 'z') || ('A' <= c && c <= 'Z')
}

/// An ASCII decimal digit.
pub open spec fn ascii_digit(c: char) -> bool {
    '0' <= c && c <= '9'
}

/// An ASCII letter or digit.
pub open spec fn ascii_alnum(c: char) -> bool {
    ascii_alpha(c) || ascii_digit(c)
}

/// An ASCII hexadecimal digit.
pub open spec fn ascii_hex(c: char) -> bool {
    ascii_digit(c) || ('a' <= c && c <= 'f') || ('A' <= c && c <= 'F')
}

/// The ASCII lower-case form of a character; other characters stay.
pub open spec fn ascii_lower(c: char) -> char {
    if 'A' <= c && c <= 'Z' {
        ((c as u32) + 32) as char
    } else {
        c
    }
}

/// The ASCII upper-case form of a character; other characters stay.
pub open spec fn ascii_upper(c: char) -> char {
    if 'a' <= c && c <= 'z' {
        ((c as u32) - 32) as char
    } else {
        c
    }
}

/// An ASCII character.
pub open spec fn is_ascii_char(c: char) -> bool {
    (c as u32) < 128
}

pub fn is_ascii_alpha(c: char) -> (b: bool)
    ensures
        b == ascii_alpha(c),
{
    ('a' <= c && c <= 'z') || ('A' <= c && c <= 'Z')
}

pub fn is_ascii_digit(c: char) -> (b: bool)
    ensures
        b == ascii_digit(c),
{
    '0' <= c && c <= '9'
}

pub fn is_ascii_alnum(c: char) -> (b: bool)
    ensures
        b == ascii_alnum(c),
{
    is_ascii_alpha(c) || is_ascii_digit(c)
}

pub fn is_ascii_hex(c: char) -> (b: bool)
    ensures
        b == ascii_hex(c),
{
    is_ascii_digit(c) || ('a' <= c && c <= 'f') || ('A' <= c && c <= 'F')
}

pub fn to_ascii_lower(c: char) -> (r: char)
    ensures
        r == ascii_lower(c),
{
    if 'A' <= c && c <= 'Z' {
        let v: u32 = (c as u32) + 32;
        let b: u8 = v as u8;
        b as char
    } else {
        c
    }
}

pub fn to_ascii_upper(c: char) -> (r: char)
    ensures
        r == ascii_upper(c),
{
    if 'a' <= c && c <= 'z' {
        let v: u32 = (c as u32) - 32;
        let b: u8 = v as u8;
        b as char
    } else {
        c
    }
}

/// The Unicode `White_Space` property, which `char::is_whitespace`
/// reports: the ASCII tab, line feed, vertical tab, form feed, carriage
/// return and space, the next line and no-break space of Latin-1, the
/// Ogham space mark, the spaces from the en quad to the hair space, the
/// line and paragraph separators, the narrow no-break space, the medium
/// mathematical space, and the ideographic space.
pub open spec fn unicode_white_space(c: char) -> bool {
    ||| '\t' <= c && c <= '\r'
    ||| c == ' '
    ||| c == '\u{85}'
    ||| c == '\u{a0}'
    ||| c == '\u{1680}'
    ||| '\u{2000}' <= c && c <= '\u{200a}'
    ||| c == '\u{2028}'
    ||| c == '\u{2029}'
    ||| c == '\u{202f}'
    ||| c == '\u{205f}'
    ||| c == '\u{3000}'
}

/// What `char::is_alphanumeric` answers: the Unicode `Alphabetic` or
/// `Numeric` property.
pub uninterp spec fn unicode_alphanumeric(c: char) -> bool;

/// Report whether a character is white space, as `char::is_whitespace`
/// does.
pub fn is_whitespace(c: char) -> (b: bool)
    ensures
        b == unicode_white_space(c),
        is_ascii_char(c) ==> (b <==> (c == ' ' || ('\t' <= c && c <= '\r'))),
{
    ('\t' <= c && c <= '\r') || c == ' ' || c == '\u{85}' || c == '\u{a0}' || c == '\u{1680}' || (
    '\u{2000}' <= c && c <= '\u{200a}') || c == '\u{2028}' || c == '\u{2029}' || c == '\u{202f}'
        || c == '\u{205f}' || c == '\u{3000}'
}

/// Report whether a character is alphanumeric (`char::is_alphanumeric`).
///
/// The contract names the answer and states what the standard
/// library documents for ASCII: exactly the ASCII letters and digits
/// are alphanumeric among the ASCII characters.
#[verifier::external_body]
pub fn is_alphanumeric(c: char) -> (b: bool)
    ensures
        b == unicode_alphanumeric(c),
        is_ascii_char(c) ==> (b <==> ascii_alnum(c)),
{
    c.is_alphanumeric()
}

/// The white-space flags of a sequence of characters.
pub open spec fn white_flags(s: Seq<char>) -> Seq<bool> {
    s.map_values(|c: char| unicode_white_space(c))
}

/// A string with leading and trailing white space removed, as
/// `str::trim` does.
pub open spec fn trim_white(s: Seq<char>) -> Seq<char> {
    trim_flagged(s, white_flags(s))
}

/// Remove leading and trailing white space.
pub fn trim(v: &Vec<char>) -> (res: String)
    ensures
        res@ == trim_white(v@),
{
    let mut flags: Vec<bool> = Vec::new();
    let mut i: usize = 0;
    while i < v.len()
        invariant
            i <= v@.len(),
            flags@ == white_flags(v@.take(i as int)),
        decreases v@.len() - i,
    {
        let w = is_whitespace(v[i]);
        proof {
            assert(white_flags(v@.take(i + 1)) =~= white_flags(v@.take(i as int)).push(w));
        }
        flags.push(w);
        i = i + 1;
    }
    proof {
        assert(v@.take(v@.len() as int) =~= v@);
    }
    trimmed_string(v, &flags)
}

} // verus!

verus! {

/// Compare two character vectors.
pub fn chars_eq(a: &Vec<char>, b: &Vec<char>) -> (r: bool)
    ensures
        r == (a@ == b@),
{
    if a.len() != b.len() {
        return false;
    }
    let mut i: usize = 0;
    while i < a.len()
        invariant
            a@.len() == b@.len(),
            i <= a@.len(),
            forall|k: int| 0 <= k < i ==> a@[k] == b@[k],
        decreases a@.len() - i,
    {
        if a[i] != b[i] {
            return false;
        }
        i = i + 1;
    }
    proof {
        assert(a@ =~= b@);
    }
    true
}

/// Compare two string slices.
pub fn str_eq(a: &str, b: &str) -> (r: bool)
    ensures
        r == (a@ == b@),
{
    let x = chars_of(a);
    let y = chars_of(b);
    chars_eq(&x, &y)
}

/// Report whether `s` starts with `p` at position `at`.
pub open spec fn matches_at(s: Seq<char>, p: Seq<char>, at: int) -> bool {
    0 <= at && at + p.len() <= s.len() && s.subrange(at, at + p.len()) == p
}

/// Report whether `v[at..]` starts with `p`.
pub fn starts_at(v: &Vec<char>, p: &Vec<char>, at: usize) -> (r: bool)
    ensures
        r == matches_at(v@, p@, at as int),
{
    if at > v.len() || p.len() > v.len() - at {
        return false;
    }
    let vl = v.len();
    let mut k: usize = 0;
    while k < p.len()
        invariant
            vl == v@.len(),
            at <= v@.len(),
            p@.len() <= v@.len() - at,
            k <= p@.len(),
            forall|j: int| 0 <= j < k ==> v@[at + j] == p@[j],
        decreases p@.len() - k,
    {
        if v[at + k] != p[k] {
            proof {
                assert(v@.subrange(at as int, at + p@.len())[k as int] != p@[k as int]);
            }
            return false;
        }
        k = k + 1;
    }
    proof {
        assert(v@.subrange(at as int, at + p@.len()) =~= p@);
    }
    true
}

/// Report whether `p` occurs anywhere in `s`.
pub open spec fn contains_seq(s: Seq<char>, p: Seq<char>) -> bool {
    exists|at: int| matches_at(s, p, at)
}

/// Report whether `p` occurs in `v`, as `str::contains` does.
pub fn contains_chars(v: &Vec<char>, p: &Vec<char>) -> (r: bool)
    ensures
        r == contains_seq(v@, p@),
{
    let mut at: usize = 0;
    while at <= v.len()
        invariant
            at <= v@.len(),
            forall|k: int| 0 <= k < at ==> !matches_at(v@, p@, k),
        decreases v@.len() + 1 - at,
    {
        if starts_at(v, p, at) {
            return true;
        }
        if at == v.len() {
            proof {
                assert forall|k: int| !matches_at(v@, p@, k) by {
                    if k > v@.len() {
                    }
                }
            }
            return false;
        }
        at = at + 1;
    }
    false
}

} // verus!

verus! {

/// Every non-overlapping occurrence of `p` in `s` replaced by `v`,
/// scanning from the left, as `str::replace` does for a non-empty
/// pattern.
pub open spec fn replace_all(s: Seq<char>, p: Seq<char>, v: Seq<char>) -> Seq<char>
    decreases s.len(),
{
    if p.len() == 0 || s.len() == 0 {
        s
    } else if p.len() <= s.len() && s.subrange(0, p.len() as int) == p {
        v + replace_all(s.skip(p.len() as int), p, v)
    } else {
        seq![s[0]] + replace_all(s.skip(1), p, v)
    }
}

/// Replace every occurrence of `p` in `s` by `v`.
pub fn replace_chars(s: &Vec<char>, p: &Vec<char>, v: &str) -> (res: String)
    requires
        p@.len() > 0,
    ensures
        res@ == replace_all(s@, p@, v@),
{
    let mut out = String::new();
    let mut i: usize = 0;
    proof {
        assert(s@.skip(0) =~= s@);
    }
    while i < s.len()
        invariant
            i <= s@.len(),
            p@.len() > 0,
            out@ + replace_all(s@.skip(i as int), p@, v@) == replace_all(s@, p@, v@),
        decreases s@.len() - i,
    {
        let ghost rest = s@.skip(i as int);
        if starts_at(s, p, i) {
            proof {
                assert(rest.subrange(0, p@.len() as int) =~= s@.subrange(i as int, i + p@.len()));
                assert(rest.skip(p@.len() as int) =~= s@.skip(i + p@.len()));
                assert(out@ + (v@ + replace_all(rest.skip(p@.len() as int), p@, v@)) =~= (out@
                    + v@) + replace_all(rest.skip(p@.len() as int), p@, v@));
            }
            push_str(&mut out, v);
            i = i + p.len();
        } else {
            proof {
                if p@.len() <= rest.len() {
                    assert(rest.subrange(0, p@.len() as int) =~= s@.subrange(
                        i as int,
                        i + p@.len(),
                    ));
                }
                assert(rest.skip(1) =~= s@.skip(i + 1));
                assert(rest[0] == s@[i as int]);
                assert(out@ + (seq![rest[0]] + replace_all(rest.skip(1), p@, v@)) =~= out@.push(
                    rest[0],
                ) + replace_all(rest.skip(1), p@, v@));
            }
            push_char(&mut out, s[i]);
            i = i + 1;
        }
    }
    proof {
        assert(s@.skip(i as int).len() == 0);
        assert(out@ + s@.skip(i as int) =~= out@);
    }
    out
}

/// The ASCII lower-case form of a string.
pub open spec fn lower_seq(s: Seq<char>) -> Seq<char> {
    s.map_values(|c: char| ascii_lower(c))
}

/// The ASCII upper-case form of a string.
pub open spec fn upper_seq(s: Seq<char>) -> Seq<char> {
    s.map_values(|c: char| ascii_upper(c))
}

/// Make the ASCII lower-case form of a character vector.
pub fn to_lower_chars(v: &Vec<char>) -> (r: Vec<char>)
    ensures
        r@ == lower_seq(v@),
{
    let mut r: Vec<char> = Vec::new();
    let mut i: usize = 0;
    while i < v.len()
        invariant
            i <= v@.len(),
            r@ == lower_seq(v@.take(i as int)),
        decreases v@.len() - i,
    {
        proof {
            assert(lower_seq(v@.take(i + 1)) =~= lower_seq(v@.take(i as int)).push(
                ascii_lower(v@[i as int]),
            ));
        }
        r.push(to_ascii_lower(v[i]));
        i = i + 1;
    }
    proof {
        assert(v@.take(v@.len() as int) =~= v@);
    }
    r
}

/// Make the ASCII upper-case form of a character vector.
pub fn to_upper_chars(v: &Vec<char>) -> (r: Vec<char>)
    ensures
        r@ == upper_seq(v@),
{
    let mut r: Vec<char> = Vec::new();
    let mut i: usize = 0;
    while i < v.len()
        invariant
            i <= v@.len(),
            r@ == upper_seq(v@.take(i as int)),
        decreases v@.len() - i,
    {
        proof {
            assert(upper_seq(v@.take(i + 1)) =~= upper_seq(v@.take(i as int)).push(
                ascii_upper(v@[i as int]),
            ));
        }
        r.push(to_ascii_upper(v[i]));
        i = i + 1;
    }
    proof {
        assert(v@.take(v@.len() as int) =~= v@);
    }
    r
}

/// Make a string from a character vector.
pub fn string_of(v: &Vec<char>) -> (s: String)
    ensures
        s@ == v@,
{
    let mut s = String::new();
    push_range(&mut s, v, 0, v.len());
    proof {
        assert(v@.subrange(0, v@.len() as int) =~= v@);
    }
    s
}

} // verus!
