//! Character-level helpers shared by the descriptor parsers.
//!
//! Every grammar of this crate is stated over `Seq<char>`. The functions here
//! give the few notions those grammars are built from (blank trimming, the
//! first occurrence of a separator, decimal digits) and the executable
//! counterparts that work on `&str`.

use vstd::prelude::*;

verus! {

/// Blank characters: what is removed around every segment of a descriptor.
/// They are the characters that Unicode calls white space: the controls from
/// tab to carriage return, the space, the next-line control, and the other
/// spaces and line separators.
pub open spec fn is_blank(c: char) -> bool {
    ||| '\u{9}' <= c <= '\u{d}'
    ||| c == ' '
    ||| c == '\u{85}'
    ||| c == '\u{a0}'
    ||| c == '\u{1680}'
    ||| '\u{2000}' <= c <= '\u{200a}'
    ||| c == '\u{2028}'
    ||| c == '\u{2029}'
    ||| c == '\u{202f}'
    ||| c == '\u{205f}'
    ||| c == '\u{3000}'
}

/// ASCII decimal digits.
pub open spec fn is_digit(c: char) -> bool {
    '0' <= c <= '9'
}

/// ASCII letters, either case.
pub open spec fn is_letter(c: char) -> bool {
    ('a' <= c <= 'z') || ('A' <= c <= 'Z')
}

/// ASCII capital letters.
pub open spec fn is_capital(c: char) -> bool {
    'A' <= c <= 'Z'
}

/// The number a decimal digit stands for.
pub open spec fn digit_value(c: char) -> int {
    c as int - '0' as int
}

/// Index of the first character at or after `i` that is not blank
/// (`s.len()` when there is none).
pub open spec fn blanks_end(s: Seq<char>, i: int) -> int
    decreases s.len() - i,
{
    if 0 <= i < s.len() && is_blank(s[i]) {
        blanks_end(s, i + 1)
    } else {
        i
    }
}

/// Index just after the last character before `j` that is not blank
/// (`0` when there is none).
pub open spec fn blanks_start(s: Seq<char>, j: int) -> int
    decreases j,
{
    if 0 < j <= s.len() && is_blank(s[j - 1]) {
        blanks_start(s, j - 1)
    } else {
        j
    }
}

/// `s` without its leading and trailing blanks.
pub open spec fn trimmed(s: Seq<char>) -> Seq<char> {
    let a = blanks_end(s, 0);
    let b = blanks_start(s, s.len() as int);
    if a < b {
        s.subrange(a, b)
    } else {
        Seq::empty()
    }
}

/// Index of the first occurrence of `c` at or after `i`
/// (`s.len()` when there is none).
pub open spec fn position_from(s: Seq<char>, c: char, i: int) -> int
    decreases s.len() - i,
{
    if 0 <= i < s.len() && s[i] != c {
        position_from(s, c, i + 1)
    } else {
        i
    }
}

/// Index of the first occurrence of `c` in `s` (`s.len()` when there is none).
pub open spec fn position(s: Seq<char>, c: char) -> int {
    position_from(s, c, 0)
}

/// What stands before the first `c` in `s`: all of `s` when `c` does not occur.
pub open spec fn head(s: Seq<char>, c: char) -> Seq<char> {
    s.take(position(s, c))
}

/// What stands after the first `c` in `s`, when `c` occurs.
pub open spec fn tail(s: Seq<char>, c: char) -> Option<Seq<char>> {
    if position(s, c) < s.len() {
        Some(s.skip(position(s, c) + 1))
    } else {
        None
    }
}

/// `s` is made of decimal digits only (the empty sequence included).
pub open spec fn all_digits(s: Seq<char>) -> bool {
    forall|i: int| 0 <= i < s.len() ==> is_digit(#[trigger] s[i])
}

/// The number that a sequence of decimal digits denotes.
pub open spec fn decimal(s: Seq<char>) -> nat
    decreases s.len(),
{
    if s.len() == 0 {
        0
    } else {
        (decimal(s.drop_last()) * 10 + digit_value(s.last())) as nat
    }
}

/// A letter is no blank.
pub proof fn lemma_letter_is_no_blank(c: char)
    requires
        is_letter(c),
    ensures
        !is_blank(c),
{
}

/// The position of a separator lies within the text, and nothing before it
/// is the separator.
pub proof fn lemma_position_from(s: Seq<char>, c: char, i: int)
    requires
        0 <= i <= s.len(),
    ensures
        i <= position_from(s, c, i) <= s.len(),
        position_from(s, c, i) < s.len() ==> s[position_from(s, c, i)] == c,
        forall|k: int| i <= k < position_from(s, c, i) ==> s[k] != c,
    decreases s.len() - i,
{
    if i < s.len() && s[i] != c {
        lemma_position_from(s, c, i + 1);
    }
}

/// Trimming leaves no blank at either end, and takes nothing else away.
pub proof fn lemma_trimmed(s: Seq<char>)
    ensures
        trimmed(s).len() <= s.len(),
        trimmed(s).len() > 0 ==> !is_blank(trimmed(s).first()) && !is_blank(trimmed(s).last()),
        trimmed(trimmed(s)) == trimmed(s),
{
    let a = blanks_end(s, 0);
    let b = blanks_start(s, s.len() as int);
    lemma_blanks_end(s, 0);
    lemma_blanks_start(s, s.len() as int);
    let t = trimmed(s);
    if a < b {
        assert(t.len() == b - a);
        assert(t.first() == s[a]);
        assert(t.last() == s[b - 1]);
        assert(blanks_end(t, 0) == 0);
        assert(blanks_start(t, t.len() as int) == t.len());
        assert(t.subrange(0, t.len() as int) =~= t);
    } else {
        assert(blanks_end(t, 0) == 0);
    }
}

/// Where the leading blanks end: within the text, at a character that is not
/// blank, with only blanks before.
pub proof fn lemma_blanks_end(s: Seq<char>, i: int)
    requires
        0 <= i <= s.len(),
    ensures
        i <= blanks_end(s, i) <= s.len(),
        blanks_end(s, i) < s.len() ==> !is_blank(s[blanks_end(s, i)]),
        forall|k: int| i <= k < blanks_end(s, i) ==> is_blank(s[k]),
    decreases s.len() - i,
{
    if i < s.len() && is_blank(s[i]) {
        lemma_blanks_end(s, i + 1);
    }
}

/// Where the trailing blanks start: within the text, after a character that
/// is not blank, with only blanks behind.
pub proof fn lemma_blanks_start(s: Seq<char>, j: int)
    requires
        0 <= j <= s.len(),
    ensures
        0 <= blanks_start(s, j) <= j,
        blanks_start(s, j) > 0 ==> !is_blank(s[blanks_start(s, j) - 1]),
        forall|k: int| blanks_start(s, j) <= k < j ==> is_blank(s[k]),
    decreases j,
{
    if 0 < j && is_blank(s[j - 1]) {
        lemma_blanks_start(s, j - 1);
    }
}

/// A text that neither starts nor ends with a blank is its own trimming.
pub proof fn lemma_trimmed_fixed(s: Seq<char>)
    requires
        s.len() > 0 ==> !is_blank(s.first()) && !is_blank(s.last()),
    ensures
        trimmed(s) == s,
{
    if s.len() > 0 {
        assert(blanks_end(s, 0) == 0);
        assert(blanks_start(s, s.len() as int) == s.len());
        assert(s.subrange(0, s.len() as int) =~= s);
    } else {
        assert(trimmed(s) =~= s);
    }
}

/// A longer run of digits denotes no smaller number than its prefixes.
pub proof fn lemma_decimal_prefix(s: Seq<char>, k: int)
    requires
        all_digits(s),
        0 <= k <= s.len(),
    ensures
        decimal(s.take(k)) <= decimal(s),
    decreases s.len() - k,
{
    if k < s.len() {
        lemma_decimal_prefix(s, k + 1);
        let p = s.take(k + 1);
        assert(p.drop_last() =~= s.take(k));
        assert(is_digit(s[k]));
        assert(p.last() == s[k]);
    } else {
        assert(s.take(k) =~= s);
    }
}

/// Whether `c` is a blank.
pub fn is_blank_char(c: char) -> (r: bool)
    ensures
        r == is_blank(c),
{
    ('\u{9}' <= c && c <= '\u{d}') || c == ' ' || c == '\u{85}' || c == '\u{a0}' || c
        == '\u{1680}' || ('\u{2000}' <= c && c <= '\u{200a}') || c == '\u{2028}' || c
        == '\u{2029}' || c == '\u{202f}' || c == '\u{205f}' || c == '\u{3000}'
}

/// Whether `c` is an ASCII decimal digit.
pub fn is_digit_char(c: char) -> (r: bool)
    ensures
        r == is_digit(c),
{
    '0' <= c && c <= '9'
}

/// Whether `c` is an ASCII letter.
pub fn is_letter_char(c: char) -> (r: bool)
    ensures
        r == is_letter(c),
{
    ('a' <= c && c <= 'z') || ('A' <= c && c <= 'Z')
}

/// The characters of `s`, one by one.
pub fn chars_of(s: &str) -> (v: Vec<char>)
    ensures
        v@ == s@,
{
    let mut v: Vec<char> = Vec::new();
    for c in it: s.chars()
        invariant
            v@ == it.seq().take(it.index()),
            it.seq() == s@,
    {
        v.push(c);
    }
    v
}

/// Removes the blanks around `s`.
pub fn trim(s: &str) -> (r: &str)
    ensures
        r@ == trimmed(s@),
{
    let chars = chars_of(s);
    let n = chars.len();
    let mut a: usize = 0;
    while a < n && is_blank_char(chars[a])
        invariant
            a <= n,
            n == chars@.len(),
            blanks_end(chars@, 0) == blanks_end(chars@, a as int),
        decreases n - a,
    {
        a += 1;
    }
    assert(blanks_end(chars@, 0) == a);
    let mut b: usize = n;
    while b > a && is_blank_char(chars[b - 1])
        invariant
            a <= b <= n,
            n == chars@.len(),
            a < n ==> a < b && !is_blank(chars@[a as int]),
            blanks_start(chars@, n as int) == blanks_start(chars@, b as int),
        decreases b,
    {
        b -= 1;
    }
    proof {
        lemma_blanks_start(chars@, n as int);
        if a == n {
            assert(s@.subrange(a as int, b as int) =~= Seq::<char>::empty());
        } else {
            assert(blanks_start(chars@, n as int) == b);
        }
    }
    s.substring_char(a, b)
}

/// Whether the characters of `chars` from `from` on spell `word`.
pub(crate) fn spells(chars: &Vec<char>, from: usize, word: &str) -> (r: bool)
    requires
        from <= chars.len(),
    ensures
        r == (chars@.skip(from as int) == word@),
{
    let letters = chars_of(word);
    let n = letters.len();
    if chars.len() - from != n {
        return false;
    }
    let mut i: usize = 0;
    while i < n
        invariant
            i <= n,
            n == letters@.len(),
            from + n == chars.len(),
            letters@ == word@,
            forall|k: int| 0 <= k < i ==> chars@[from + k] == letters@[k],
        decreases n - i,
    {
        if chars[from + i] != letters[i] {
            proof {
                assert(chars@.skip(from as int)[i as int] == chars@[from + i]);
            }
            return false;
        }
        i += 1;
    }
    proof {
        assert(chars@.skip(from as int) =~= word@);
    }
    true
}

/// Index of the first `c` in `chars` at or after `from`, or the length of
/// `chars` when there is none.
pub(crate) fn find(chars: &Vec<char>, c: char, from: usize) -> (k: usize)
    requires
        from <= chars.len(),
    ensures
        k == position_from(chars@, c, from as int),
        from <= k <= chars.len(),
{
    let n = chars.len();
    let mut k: usize = from;
    while k < n && chars[k] != c
        invariant
            from <= k <= n,
            n == chars@.len(),
            position_from(chars@, c, from as int) == position_from(chars@, c, k as int),
        decreases n - k,
    {
        k += 1;
    }
    k
}

/// Whether the characters of `chars` from `lo` up to `hi` are all digits.
pub(crate) fn digits_between(chars: &Vec<char>, lo: usize, hi: usize) -> (r: bool)
    requires
        lo <= hi <= chars.len(),
    ensures
        r == all_digits(chars@.subrange(lo as int, hi as int)),
{
    let mut i: usize = lo;
    while i < hi
        invariant
            lo <= i <= hi <= chars.len(),
            all_digits(chars@.subrange(lo as int, i as int)),
        decreases hi - i,
    {
        if !is_digit_char(chars[i]) {
            proof {
                let whole = chars@.subrange(lo as int, hi as int);
                assert(whole[i - lo] == chars@[i as int]);
            }
            return false;
        }
        proof {
            let next = chars@.subrange(lo as int, i + 1);
            assert forall|k: int| 0 <= k < next.len() implies is_digit(#[trigger] next[k]) by {
                if k < i - lo {
                    assert(next[k] == chars@.subrange(lo as int, i as int)[k]);
                }
            }
        }
        i += 1;
    }
    true
}

/// The number that the digits of `chars` from `lo` up to `hi` denote,
/// when it fits in 32 bits.
pub(crate) fn decimal_between(chars: &Vec<char>, lo: usize, hi: usize) -> (r: Option<u32>)
    requires
        lo <= hi <= chars.len(),
        all_digits(chars@.subrange(lo as int, hi as int)),
    ensures
        match r {
            Some(n) => n == decimal(chars@.subrange(lo as int, hi as int)),
            None => decimal(chars@.subrange(lo as int, hi as int)) > u32::MAX,
        },
{
    let ghost whole = chars@.subrange(lo as int, hi as int);
    let mut acc: u32 = 0;
    let mut i: usize = lo;
    while i < hi
        invariant
            lo <= i <= hi <= chars.len(),
            whole == chars@.subrange(lo as int, hi as int),
            all_digits(whole),
            acc == decimal(whole.take(i - lo)),
        decreases hi - i,
    {
        let c = chars[i];
        proof {
            assert(whole[i - lo] == c);
            assert(whole.take(i - lo + 1).drop_last() =~= whole.take(i - lo));
            assert(whole.take(i - lo + 1).last() == c);
            lemma_decimal_prefix(whole, i - lo + 1);
        }
        let d: u32 = (c as u32) - ('0' as u32);
        if acc > (u32::MAX - d) / 10 {
            return None;
        }
        acc = acc * 10 + d;
        i += 1;
    }
    proof {
        assert(whole.take(hi - lo) =~= whole);
    }
    Some(acc)
}

} // verus!
