//! Character-level building blocks: decimal rendering and literal replacement.

use vstd::prelude::*;

verus! {

/// The character of one decimal digit.
pub open spec fn digit(d: int) -> char {
    if d == 0 {
        '0'
    } else if d == 1 {
        '1'
    } else if d == 2 {
        '2'
    } else if d == 3 {
        '3'
    } else if d == 4 {
        '4'
    } else if d == 5 {
        '5'
    } else if d == 6 {
        '6'
    } else if d == 7 {
        '7'
    } else if d == 8 {
        '8'
    } else {
        '9'
    }
}

/// The decimal digits of a natural number, most significant first, without
/// leading zeros.
pub open spec fn decimal(n: nat) -> Seq<char>
    decreases n,
{
    if n < 10 {
        seq![digit(n as int)]
    } else {
        decimal(n / 10).push(digit((n % 10) as int))
    }
}

/// The decimal rendering of an integer: a minus sign before the digits of a
/// negative number.
pub open spec fn signed_decimal(n: int) -> Seq<char> {
    if n < 0 {
        seq!['-'] + decimal((-n) as nat)
    } else {
        decimal(n as nat)
    }
}

/// The rendering of an integer in a field at least two characters wide,
/// filled with a zero on the left.
pub open spec fn pad2(n: int) -> Seq<char> {
    if 0 <= n < 10 {
        seq!['0'] + decimal(n as nat)
    } else {
        signed_decimal(n)
    }
}

/// The rendering of an integer in a field at least four characters wide: a
/// number from 0 to 999 is filled with zeros on the left, every other number
/// is written as it is.
pub open spec fn pad4(n: int) -> Seq<char> {
    if 0 <= n < 10 {
        seq!['0', '0', '0'] + decimal(n as nat)
    } else if 10 <= n < 100 {
        seq!['0', '0'] + decimal(n as nat)
    } else if 100 <= n < 1000 {
        seq!['0'] + decimal(n as nat)
    } else {
        signed_decimal(n)
    }
}

/// Whether `needle` stands in `s` at position `i`.
pub open spec fn occurs_at(s: Seq<char>, i: int, needle: Seq<char>) -> bool {
    &&& 0 <= i
    &&& i + needle.len() <= s.len()
    &&& s.subrange(i, i + needle.len()) == needle
}

/// What is left of `s` from position `i` on after every occurrence of
/// `needle` has been replaced by `with`, scanning left to right and never
/// looking again at replaced text. An empty needle replaces nothing.
pub open spec fn replace_from(s: Seq<char>, i: int, needle: Seq<char>, with: Seq<char>) -> Seq<
    char,
>
    decreases s.len() - i,
{
    if i < 0 || i >= s.len() {
        Seq::<char>::empty()
    } else if needle.len() > 0 && occurs_at(s, i, needle) {
        with + replace_from(s, i + needle.len(), needle, with)
    } else {
        seq![s[i]] + replace_from(s, i + 1, needle, with)
    }
}

/// `s` with every occurrence of `needle` replaced by `with`.
pub open spec fn replace_all(s: Seq<char>, needle: Seq<char>, with: Seq<char>) -> Seq<char> {
    replace_from(s, 0, needle, with)
}

/// A replacement as long as what it replaces keeps the length of the text.
pub proof fn lemma_replace_from_len(s: Seq<char>, i: int, needle: Seq<char>, with: Seq<char>)
    requires
        0 <= i <= s.len(),
        needle.len() == with.len(),
    ensures
        replace_from(s, i, needle, with).len() == s.len() - i,
    decreases s.len() - i,
{
    if i >= s.len() {
    } else if needle.len() > 0 && occurs_at(s, i, needle) {
        lemma_replace_from_len(s, i + needle.len(), needle, with);
    } else {
        lemma_replace_from_len(s, i + 1, needle, with);
    }
}

/// Where the needle stands, each of its characters stands in the text.
pub proof fn lemma_occurrence_chars(s: Seq<char>, i: int, needle: Seq<char>, k: int)
    requires
        occurs_at(s, i, needle),
        0 <= k < needle.len(),
    ensures
        s[i + k] == needle[k],
{
    assert(s.subrange(i, i + needle.len())[k] == s[i + k]);
}

/// The needle does not stand where one of its characters is missing.
pub proof fn lemma_no_occurrence(s: Seq<char>, i: int, needle: Seq<char>, k: int)
    requires
        0 <= k < needle.len(),
        i < 0 || i + k >= s.len() || s[i + k] != needle[k],
    ensures
        !occurs_at(s, i, needle),
{
    if occurs_at(s, i, needle) {
        lemma_occurrence_chars(s, i, needle, k);
    }
}

/// A stretch of text in which the needle stands nowhere is copied as it is.
pub proof fn lemma_replace_skips(s: Seq<char>, i: int, k: int, needle: Seq<char>, with: Seq<char>)
    requires
        0 <= i <= k <= s.len(),
        forall|j: int| i <= j < k ==> !occurs_at(s, j, needle),
    ensures
        replace_from(s, i, needle, with) == s.subrange(i, k) + replace_from(s, k, needle, with),
    decreases k - i,
{
    if i < k {
        lemma_replace_skips(s, i + 1, k, needle, with);
        assert(!occurs_at(s, i, needle));
        assert(seq![s[i]] + (s.subrange(i + 1, k) + replace_from(s, k, needle, with))
            =~= s.subrange(i, k) + replace_from(s, k, needle, with));
    } else {
        assert(s.subrange(i, k) + replace_from(s, k, needle, with) =~= replace_from(
            s,
            k,
            needle,
            with,
        ));
    }
}

/// Text in which the needle stands nowhere is left as it is.
pub proof fn lemma_replace_none(s: Seq<char>, needle: Seq<char>, with: Seq<char>)
    requires
        forall|j: int| 0 <= j < s.len() ==> !occurs_at(s, j, needle),
    ensures
        replace_all(s, needle, with) == s,
{
    lemma_replace_skips(s, 0, s.len() as int, needle, with);
    assert(s.subrange(0, s.len() as int) + Seq::<char>::empty() =~= s);
}

/// Text in which the needle stands once, at `p`, is the text before it, the
/// replacement, and the text after it.
pub proof fn lemma_replace_one(s: Seq<char>, p: int, needle: Seq<char>, with: Seq<char>)
    requires
        needle.len() > 0,
        occurs_at(s, p, needle),
        forall|j: int| 0 <= j < p ==> !occurs_at(s, j, needle),
        forall|j: int| p + needle.len() <= j < s.len() ==> !occurs_at(s, j, needle),
    ensures
        replace_all(s, needle, with) == s.subrange(0, p) + with + s.subrange(
            p + needle.len(),
            s.len() as int,
        ),
{
    let after = p + needle.len();
    lemma_replace_skips(s, 0, p, needle, with);
    lemma_replace_skips(s, after, s.len() as int, needle, with);
    assert(s.subrange(after, s.len() as int) + Seq::<char>::empty() =~= s.subrange(
        after,
        s.len() as int,
    ));
    assert(s.subrange(0, p) + (with + s.subrange(after, s.len() as int)) =~= s.subrange(0, p) + with
        + s.subrange(after, s.len() as int));
}

/// Text in which the needle stands twice, at `p` and at `q`, is the text
/// around the two places with the replacement in each.
pub proof fn lemma_replace_two(s: Seq<char>, p: int, q: int, needle: Seq<char>, with: Seq<char>)
    requires
        needle.len() > 0,
        occurs_at(s, p, needle),
        occurs_at(s, q, needle),
        p + needle.len() <= q,
        forall|j: int| 0 <= j < p ==> !occurs_at(s, j, needle),
        forall|j: int| p + needle.len() <= j < q ==> !occurs_at(s, j, needle),
        forall|j: int| q + needle.len() <= j < s.len() ==> !occurs_at(s, j, needle),
    ensures
        replace_all(s, needle, with) == s.subrange(0, p) + with + s.subrange(p + needle.len(), q)
            + with + s.subrange(q + needle.len(), s.len() as int),
{
    let mid = p + needle.len();
    let after = q + needle.len();
    lemma_replace_skips(s, 0, p, needle, with);
    lemma_replace_skips(s, mid, q, needle, with);
    lemma_replace_skips(s, after, s.len() as int, needle, with);
    let tail = s.subrange(after, s.len() as int);
    assert(tail + Seq::<char>::empty() =~= tail);
    assert(s.subrange(0, p) + (with + (s.subrange(mid, q) + (with + tail))) =~= s.subrange(0, p)
        + with + s.subrange(mid, q) + with + tail);
}

/// A number below one hundred, zero-filled, is its two digits.
pub proof fn lemma_pad2_digits(n: int)
    requires
        0 <= n < 100,
    ensures
        pad2(n) == seq![digit(n / 10), digit(n % 10)],
{
    if n >= 10 {
        assert(decimal(n as nat) == decimal((n / 10) as nat).push(digit(n % 10)));
        assert(decimal((n / 10) as nat) == seq![digit(n / 10)]);
        assert(pad2(n) =~= seq![digit(n / 10), digit(n % 10)]);
    } else {
        assert(pad2(n) =~= seq![digit(n / 10), digit(n % 10)]);
    }
}

/// A number below one hundred fills a two-character field exactly.
pub proof fn lemma_pad2_len(n: int)
    requires
        0 <= n < 100,
    ensures
        pad2(n).len() == 2,
{
    if n >= 10 {
        assert(decimal(n as nat) == decimal((n / 10) as nat).push(digit(n % 10)));
        assert(decimal((n / 10) as nat).len() == 1);
    } else {
        assert(decimal(n as nat).len() == 1);
    }
}

/// A number from 0 to 9999 fills a four-character field exactly.
pub proof fn lemma_pad4_len(n: int)
    requires
        0 <= n <= 9999,
    ensures
        pad4(n).len() == 4,
{
    reveal_with_fuel(decimal, 5);
}

/// The characters of a string slice.
pub fn chars_of(s: &str) -> (out: Vec<char>)
    ensures
        out@ == s@,
{
    let n: usize = s.unicode_len();
    let mut out: Vec<char> = Vec::new();
    let mut i: usize = 0;
    while i < n
        invariant
            i <= n,
            n == s@.len(),
            out@ == s@.subrange(0, i as int),
        decreases n - i,
    {
        out.push(s.get_char(i));
        assert(out@ =~= s@.subrange(0, i + 1));
        i += 1;
    }
    assert(s@.subrange(0, n as int) =~= s@);
    out
}

/// `String::push` appends one character to the end of the string.
pub assume_specification[ String::push ](s: &mut String, c: char)
    ensures
        final(s)@ == old(s)@.push(c),
;

/// The string made of the given characters.
pub fn string_of(chars: &Vec<char>) -> (out: String)
    ensures
        out@ == chars@,
{
    let mut out = String::new();
    let mut i: usize = 0;
    while i < chars.len()
        invariant
            i <= chars.len(),
            out@ == chars@.subrange(0, i as int),
        decreases chars.len() - i,
    {
        out.push(chars[i]);
        assert(out@ =~= chars@.subrange(0, i + 1));
        i += 1;
    }
    assert(chars@.subrange(0, chars.len() as int) =~= chars@);
    out
}

fn digit_char(d: u64) -> (c: char)
    requires
        d < 10,
    ensures
        c == digit(d as int),
{
    if d == 0 {
        '0'
    } else if d == 1 {
        '1'
    } else if d == 2 {
        '2'
    } else if d == 3 {
        '3'
    } else if d == 4 {
        '4'
    } else if d == 5 {
        '5'
    } else if d == 6 {
        '6'
    } else if d == 7 {
        '7'
    } else if d == 8 {
        '8'
    } else {
        '9'
    }
}

/// Appends the decimal digits of `n` to `out`.
pub fn push_decimal(out: &mut Vec<char>, n: u64)
    ensures
        final(out)@ == old(out)@ + decimal(n as nat),
    decreases n,
{
    if n >= 10 {
        push_decimal(out, n / 10);
    }
    out.push(digit_char(n % 10));
    assert(out@ =~= old(out)@ + decimal(n as nat));
}

/// Appends the decimal rendering of `n`, with its sign, to `out`.
pub fn push_signed_decimal(out: &mut Vec<char>, n: i64)
    ensures
        final(out)@ == old(out)@ + signed_decimal(n as int),
{
    if n < 0 {
        out.push('-');
        let below: i64 = -(n + 1);
        let magnitude: u64 = below as u64 + 1;
        push_decimal(out, magnitude);
        assert(out@ =~= old(out)@ + signed_decimal(n as int));
    } else {
        push_decimal(out, n as u64);
    }
}

/// Appends `n`, zero-filled to two characters, to `out`.
pub fn push_pad2(out: &mut Vec<char>, n: i64)
    ensures
        final(out)@ == old(out)@ + pad2(n as int),
{
    if 0 <= n && n < 10 {
        out.push('0');
        push_decimal(out, n as u64);
        assert(out@ =~= old(out)@ + pad2(n as int));
    } else {
        push_signed_decimal(out, n);
    }
}

/// Appends `n`, zero-filled to four characters, to `out`.
pub fn push_pad4(out: &mut Vec<char>, n: i64)
    ensures
        final(out)@ == old(out)@ + pad4(n as int),
{
    if 0 <= n && n < 1000 {
        out.push('0');
        if n < 100 {
            out.push('0');
        }
        if n < 10 {
            out.push('0');
        }
        push_decimal(out, n as u64);
        assert(out@ =~= old(out)@ + pad4(n as int));
    } else {
        push_signed_decimal(out, n);
    }
}

/// Whether `needle` stands in `s` at position `i`.
pub fn occurs_at_exec(s: &Vec<char>, i: usize, needle: &Vec<char>) -> (found: bool)
    ensures
        found == occurs_at(s@, i as int, needle@),
{
    if needle.len() > s.len() || i > s.len() - needle.len() {
        return false;
    }
    let mut k: usize = 0;
    while k < needle.len()
        invariant
            k <= needle.len(),
            i + needle.len() <= s.len(),
            forall|j: int| 0 <= j < k ==> s@[i + j] == needle@[j],
        decreases needle.len() - k,
    {
        if s[i + k] != needle[k] {
            proof {
                let sub = s@.subrange(i as int, i + needle.len());
                assert(sub[k as int] == s@[i + k]);
            }
            return false;
        }
        k += 1;
    }
    assert(s@.subrange(i as int, i + needle.len()) =~= needle@);
    true
}

/// `s` with every occurrence of `needle` replaced by `with`, as
/// [`replace_all`] states it.
pub fn replace(s: &Vec<char>, needle: &Vec<char>, with: &Vec<char>) -> (out: Vec<char>)
    ensures
        out@ == replace_all(s@, needle@, with@),
{
    let mut out: Vec<char> = Vec::new();
    let mut i: usize = 0;
    while i < s.len()
        invariant
            i <= s.len(),
            out@ + replace_from(s@, i as int, needle@, with@) == replace_all(s@, needle@, with@),
        decreases s.len() - i,
    {
        let ghost before = out@;
        if needle.len() > 0 && occurs_at_exec(s, i, needle) {
            let mut k: usize = 0;
            while k < with.len()
                invariant
                    k <= with.len(),
                    out@ == before + with@.subrange(0, k as int),
                decreases with.len() - k,
            {
                out.push(with[k]);
                assert(out@ =~= before + with@.subrange(0, k + 1));
                k += 1;
            }
            assert(with@.subrange(0, with.len() as int) =~= with@);
            assert(out@ + replace_from(s@, i + needle.len(), needle@, with@) =~= before
                + replace_from(s@, i as int, needle@, with@));
            i += needle.len();
        } else {
            out.push(s[i]);
            assert(out@ + replace_from(s@, i + 1, needle@, with@) =~= before + replace_from(
                s@,
                i as int,
                needle@,
                with@,
            ));
            i += 1;
        }
    }
    assert(out@ + replace_from(s@, i as int, needle@, with@) =~= out@);
    out
}

} // verus!
