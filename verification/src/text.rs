//! Texts taken apart and put together: numbers in decimal, lines joined,
//! and what it takes to read a list that somebody typed.

use vstd::prelude::*;

verus! {

/// The character for a single digit.
pub open spec fn digit(d: nat) -> char
    recommends
        d < 10,
{
    if d == 0 {
        '0'
    } else if d == 1 {
        '1'
    } else if d == 2 {
        '2'
    } else if d == 3 {
        '3'
    } else if d == 4 {
        '4'
    } else if d == 5 {
        '5'
    } else if d == 6 {
        '6'
    } else if d == 7 {
        '7'
    } else if d == 8 {
        '8'
    } else {
        '9'
    }
}

/// `n` in decimal, without leading zeros.
pub open spec fn decimal(n: nat) -> Seq<char>
    decreases n,
{
    if n < 10 {
        seq![digit(n)]
    } else {
        decimal(n / 10).push(digit(n % 10))
    }
}

/// A single digit as a text.
fn digit_text(d: u8) -> (r: &'static str)
    requires
        d < 10,
    ensures
        r@ == seq![digit(d as nat)],
{
    proof {
        reveal_strlit("0");
        reveal_strlit("1");
        reveal_strlit("2");
        reveal_strlit("3");
        reveal_strlit("4");
        reveal_strlit("5");
        reveal_strlit("6");
        reveal_strlit("7");
        reveal_strlit("8");
        reveal_strlit("9");
    }
    let r = if d == 0 {
        "0"
    } else if d == 1 {
        "1"
    } else if d == 2 {
        "2"
    } else if d == 3 {
        "3"
    } else if d == 4 {
        "4"
    } else if d == 5 {
        "5"
    } else if d == 6 {
        "6"
    } else if d == 7 {
        "7"
    } else if d == 8 {
        "8"
    } else {
        "9"
    };
    assert(r@ =~= seq![digit(d as nat)]);
    r
}

/// Writes `n` in decimal at the end of `out`.
pub fn push_decimal(out: &mut String, n: u128)
    ensures
        final(out)@ == old(out)@ + decimal(n as nat),
    decreases n,
{
    if n >= 10 {
        push_decimal(out, n / 10);
    }
    let d: u8 = (n % 10) as u8;
    out.append(digit_text(d));
    proof {
        if n >= 10 {
            assert(out@ =~= old(out)@ + decimal(n as nat));
        } else {
            assert(out@ =~= old(out)@ + decimal(n as nat));
        }
    }
}

/// `n` in decimal.
pub fn to_decimal(n: u128) -> (r: String)
    ensures
        r@ == decimal(n as nat),
{
    let mut r = String::new();
    push_decimal(&mut r, n);
    assert(r@ =~= decimal(n as nat));
    r
}

/// `n` in decimal, with a minus sign where it is below zero.
pub open spec fn signed_decimal(n: int) -> Seq<char> {
    if n < 0 {
        "-"@ + decimal((-n) as nat)
    } else {
        decimal(n as nat)
    }
}

/// Writes `n` in decimal at the end of `out`.
pub fn push_signed_decimal(out: &mut String, n: i64)
    ensures
        final(out)@ == old(out)@ + signed_decimal(n as int),
{
    if n < 0 {
        out.append("-");
        let wide: i128 = n as i128;
        push_decimal(out, (0 - wide) as u128);
        proof {
            assert(out@ =~= old(out)@ + signed_decimal(n as int));
        }
    } else {
        push_decimal(out, n as u128);
    }
}

/// The lines put together, with `separator` between each two.
pub open spec fn joined(lines: Seq<Seq<char>>, separator: Seq<char>) -> Seq<char>
    decreases lines.len(),
{
    if lines.len() == 0 {
        Seq::empty()
    } else if lines.len() == 1 {
        lines[0]
    } else {
        joined(lines.drop_last(), separator) + separator + lines.last()
    }
}

/// The texts of `lines`.
pub open spec fn line_views(lines: Seq<String>) -> Seq<Seq<char>> {
    lines.map_values(|line: String| line@)
}

/// Puts the lines together, with `separator` between each two.
pub fn join(lines: &Vec<String>, separator: &str) -> (r: String)
    ensures
        r@ == joined(line_views(lines@), separator@),
{
    let ghost views = line_views(lines@);
    let mut r = String::new();
    let mut i: usize = 0;
    while i < lines.len()
        invariant
            i <= lines.len(),
            views == line_views(lines@),
            r@ == joined(views.take(i as int), separator@),
        decreases lines.len() - i,
    {
        proof {
            assert(views.take(i + 1).drop_last() =~= views.take(i as int));
            assert(views.take(i + 1).last() == lines[i as int]@);
        }
        if i > 0 {
            r.append(separator);
        }
        r.append(lines[i].as_str());
        proof {
            if i == 0 {
                assert(r@ =~= lines[0]@);
            }
        }
        i += 1;
    }
    proof {
        assert(views.take(i as int) =~= views);
    }
    r
}

/// The text in lower case, as `str::to_lowercase` gives it.
pub uninterp spec fn lowercase(s: Seq<char>) -> Seq<char>;

/// The text in lower case.
///
/// This is `str::to_lowercase` of the standard library, which follows the
/// Unicode tables for every character. The contract gives the outcome its
/// name, [`lowercase`], and says no more of it.
#[verifier::external_body]
pub(crate) fn to_lowercase(s: &str) -> (r: String)
    ensures
        r@ == lowercase(s@),
{
    s.to_lowercase()
}

/// Whether the two texts are the same.
pub fn same_text(a: &str, b: &str) -> (r: bool)
    ensures
        r == (a@ == b@),
{
    a.to_owned() == b.to_owned()
}

/// The characters of the text.
pub fn chars_of(s: &str) -> (r: Vec<char>)
    ensures
        r@ == s@,
{
    let mut r: Vec<char> = Vec::new();
    for c in it: s.chars()
        invariant
            r@ == it.seq().take(it.index() as int),
            it.seq() == s@,
    {
        r.push(c);
    }
    r
}

/// White space, as Unicode lists it.
pub open spec fn is_space(c: char) -> bool {
    let code = c as u32;
    ||| 0x09 <= code <= 0x0d
    ||| code == 0x20
    ||| code == 0x85
    ||| code == 0xa0
    ||| code == 0x1680
    ||| 0x2000 <= code <= 0x200a
    ||| code == 0x2028
    ||| code == 0x2029
    ||| code == 0x202f
    ||| code == 0x205f
    ||| code == 0x3000
}

/// Whether the character is white space.
pub fn is_space_char(c: char) -> (r: bool)
    ensures
        r == is_space(c),
{
    let code: u32 = c as u32;
    (0x09 <= code && code <= 0x0d) || code == 0x20 || code == 0x85 || code == 0xa0 || code
        == 0x1680 || (0x2000 <= code && code <= 0x200a) || code == 0x2028 || code == 0x2029
        || code == 0x202f || code == 0x205f || code == 0x3000
}

/// The text without the white space at its end.
pub open spec fn trimmed_end(s: Seq<char>) -> Seq<char>
    decreases s.len(),
{
    if s.len() > 0 && is_space(s.last()) {
        trimmed_end(s.drop_last())
    } else {
        s
    }
}

/// The text without the white space at its start and at its end.
pub open spec fn trimmed(s: Seq<char>) -> Seq<char>
    decreases s.len(),
{
    if s.len() > 0 && is_space(s[0]) {
        trimmed(s.skip(1))
    } else {
        trimmed_end(s)
    }
}

/// The bounds of what is left of the characters from `from` up to `to`
/// when the white space at both ends is taken off.
pub fn trim(chars: &Vec<char>, from: usize, to: usize) -> (r: (usize, usize))
    requires
        from <= to <= chars.len(),
    ensures
        from <= r.0 <= r.1 <= to,
        chars@.subrange(r.0 as int, r.1 as int) == trimmed(chars@.subrange(from as int, to as int)),
{
    let mut a: usize = from;
    while a < to && is_space_char(chars[a])
        invariant
            from <= a <= to <= chars.len(),
            trimmed(chars@.subrange(a as int, to as int)) == trimmed(
                chars@.subrange(from as int, to as int),
            ),
        decreases to - a,
    {
        proof {
            assert(chars@.subrange(a as int, to as int).skip(1) =~= chars@.subrange(
                a + 1,
                to as int,
            ));
        }
        a += 1;
    }
    let mut b: usize = to;
    while b > a && is_space_char(chars[b - 1])
        invariant
            a <= b <= to <= chars.len(),
            trimmed_end(chars@.subrange(a as int, b as int)) == trimmed_end(
                chars@.subrange(a as int, to as int),
            ),
        decreases b,
    {
        proof {
            assert(chars@.subrange(a as int, b as int).drop_last() =~= chars@.subrange(
                a as int,
                b - 1,
            ));
        }
        b -= 1;
    }
    proof {
        let rest = chars@.subrange(a as int, to as int);
        if a < to {
            assert(rest[0] == chars@[a as int]);
        }
        assert(trimmed(rest) == trimmed_end(rest));
        let kept = chars@.subrange(a as int, b as int);
        if b > a {
            assert(kept.last() == chars@[b - 1]);
        }
        assert(trimmed_end(kept) == kept);
    }
    (a, b)
}

/// The place of the first `c` in the text, or the length of the text if
/// there is none.
pub open spec fn first_index(s: Seq<char>, c: char) -> int
    decreases s.len(),
{
    if s.len() == 0 {
        0
    } else if s[0] == c {
        0
    } else {
        1 + first_index(s.skip(1), c)
    }
}

/// The first `c` in the text stands within it, or there is none.
pub proof fn lemma_first_index(s: Seq<char>, c: char)
    ensures
        0 <= first_index(s, c) <= s.len(),
        first_index(s, c) < s.len() ==> s[first_index(s, c)] == c,
        forall|i: int| 0 <= i < first_index(s, c) ==> s[i] != c,
    decreases s.len(),
{
    if s.len() > 0 && s[0] != c {
        lemma_first_index(s.skip(1), c);
        assert forall|i: int| 0 <= i < first_index(s, c) implies s[i] != c by {
            if i > 0 {
                assert(s.skip(1)[i - 1] == s[i]);
            }
        }
    }
}

/// A place with `c` before which there is no `c` is the place of the
/// first `c`; so is the length of a text without `c`.
pub proof fn lemma_first_index_is(s: Seq<char>, c: char, place: int)
    requires
        0 <= place <= s.len(),
        place < s.len() ==> s[place] == c,
        forall|i: int| 0 <= i < place ==> s[i] != c,
    ensures
        first_index(s, c) == place,
{
    lemma_first_index(s, c);
    let found = first_index(s, c);
    if found < place {
        assert(s[found] != c);
    }
}

/// The place of the first `c` among the characters from `from` up to `to`,
/// or `to` if there is none.
pub fn find_char(chars: &Vec<char>, from: usize, to: usize, c: char) -> (r: usize)
    requires
        from <= to <= chars.len(),
    ensures
        from <= r <= to,
        r - from == first_index(chars@.subrange(from as int, to as int), c),
{
    let mut r: usize = from;
    while r < to && chars[r] != c
        invariant
            from <= r <= to <= chars.len(),
            forall|i: int| from <= i < r ==> chars@[i] != c,
        decreases to - r,
    {
        r += 1;
    }
    proof {
        lemma_first_index_is(chars@.subrange(from as int, to as int), c, r - from);
    }
    r
}

/// The pieces of the text between the occurrences of `c`. There is always
/// at least one piece.
pub open spec fn split_on(s: Seq<char>, c: char) -> Seq<Seq<char>>
    decreases s.len(),
{
    let i = first_index(s, c);
    if 0 <= i < s.len() {
        seq![s.take(i)] + split_on(s.skip(i + 1), c)
    } else {
        seq![s]
    }
}

/// Whether the characters from `from` up to `to` spell `word`.
pub fn spells(chars: &Vec<char>, from: usize, to: usize, word: &str) -> (r: bool)
    requires
        from <= to <= chars.len(),
    ensures
        r == (chars@.subrange(from as int, to as int) == word@),
{
    let letters = chars_of(word);
    if letters.len() != to - from {
        return false;
    }
    let mut i: usize = 0;
    while i < letters.len()
        invariant
            i <= letters.len(),
            letters.len() == to - from,
            letters@ == word@,
            from <= to <= chars.len(),
            forall|k: int| 0 <= k < i ==> chars@[from + k] == letters@[k],
        decreases letters.len() - i,
    {
        if chars[from + i] != letters[i] {
            assert(chars@.subrange(from as int, to as int)[i as int] != letters@[i as int]);
            return false;
        }
        i += 1;
    }
    proof {
        assert(chars@.subrange(from as int, to as int) =~= letters@);
    }
    true
}

/// The text begins with `prefix`.
pub open spec fn has_prefix(s: Seq<char>, prefix: Seq<char>) -> bool {
    s.len() >= prefix.len() && s.take(prefix.len() as int) == prefix
}

/// The length of `prefix`, if the characters begin with it.
pub fn starts_with(chars: &Vec<char>, prefix: &str) -> (r: Option<usize>)
    ensures
        match r {
            Some(n) => n == prefix@.len() && has_prefix(chars@, prefix@),
            None => !has_prefix(chars@, prefix@),
        },
{
    let n: usize = prefix.unicode_len();
    if n <= chars.len() && spells(chars, 0, n, prefix) {
        proof {
            assert(chars@.take(n as int) =~= chars@.subrange(0, n as int));
        }
        Some(n)
    } else {
        proof {
            if chars@.len() >= n {
                assert(chars@.take(n as int) =~= chars@.subrange(0, n as int));
            }
        }
        None
    }
}

/// The value of a decimal digit.
pub open spec fn digit_value(c: char) -> Option<nat> {
    if '0' <= c <= '9' {
        Some((c as u32 - '0' as u32) as nat)
    } else {
        None
    }
}

/// The value of a text that is made of decimal digits, at least one.
pub open spec fn digits_value(s: Seq<char>) -> Option<nat>
    decreases s.len(),
{
    if s.len() == 0 {
        None
    } else if s.len() == 1 {
        digit_value(s[0])
    } else {
        match (digits_value(s.drop_last()), digit_value(s.last())) {
            (Some(value), Some(d)) => Some(value * 10 + d),
            _ => None,
        }
    }
}

/// The number that the text stands for, if it stands for one that is no
/// more than `max`: decimal digits, with or without a plus sign before
/// them, and nothing else.
pub open spec fn number_in(s: Seq<char>, max: nat) -> Option<nat> {
    let digits = if s.len() > 0 && s[0] == '+' {
        s.skip(1)
    } else {
        s
    };
    match digits_value(digits) {
        Some(value) => if value <= max {
            Some(value)
        } else {
            None
        },
        None => None,
    }
}

/// A text whose start is no number, or too large a number, is none
/// itself.
proof fn lemma_digits_value_grows(s: Seq<char>, n: int)
    requires
        1 <= n <= s.len(),
    ensures
        digits_value(s.take(n)).is_none() ==> digits_value(s).is_none(),
        digits_value(s).is_some() ==> digits_value(s.take(n)).unwrap() <= digits_value(s).unwrap(),
    decreases s.len() - n,
{
    if n < s.len() {
        lemma_digits_value_grows(s, n + 1);
        assert(s.take(n + 1).drop_last() =~= s.take(n));
    } else {
        assert(s.take(n) =~= s);
    }
}

/// Reads the characters from `from` up to `to` as a number that is no
/// more than `max`.
pub fn read_number(chars: &Vec<char>, from: usize, to: usize, max: u64) -> (r: Option<u64>)
    requires
        from <= to <= chars.len(),
    ensures
        match r {
            Some(value) => number_in(chars@.subrange(from as int, to as int), max as nat) == Some(
                value as nat,
            ),
            None => number_in(chars@.subrange(from as int, to as int), max as nat).is_none(),
        },
{
    let ghost whole = chars@.subrange(from as int, to as int);
    let start: usize = if from < to && chars[from] == '+' {
        from + 1
    } else {
        from
    };
    let ghost digits = chars@.subrange(start as int, to as int);
    proof {
        if start > from {
            assert(whole[0] == '+');
            assert(whole.skip(1) =~= digits);
        } else {
            if whole.len() > 0 {
                assert(whole[0] == chars@[from as int]);
            }
            assert(whole =~= digits);
        }
    }
    if start == to {
        return None;
    }
    let mut value: u64 = 0;
    let mut i: usize = start;
    while i < to
        invariant
            start <= i <= to <= chars.len(),
            start < to,
            digits == chars@.subrange(start as int, to as int),
            number_in(chars@.subrange(from as int, to as int), max as nat) == match digits_value(
                digits,
            ) {
                Some(value) => if value <= max {
                    Some(value)
                } else {
                    None
                },
                None => None,
            },
            value <= max,
            i > start ==> digits_value(digits.take(i - start)) == Some(value as nat),
            i == start ==> value == 0,
        decreases to - i,
    {
        let c = chars[i];
        proof {
            assert(digits.take(i - start + 1).drop_last() =~= digits.take(i - start));
            assert(digits.take(i - start + 1).last() == c);
            lemma_digits_value_grows(digits, i - start + 1);
        }
        if c < '0' || c > '9' {
            return None;
        }
        let d: u64 = (c as u32 - '0' as u32) as u64;
        if d > max {
            return None;
        }
        if value > (max - d) / 10 {
            assert(value * 10 + d > max) by (nonlinear_arith)
                requires
                    value > (max - d) / 10,
                    d <= 9,
                    max >= 0,
                    value <= max,
            ;
            return None;
        }
        assert(value * 10 + d <= max) by (nonlinear_arith)
            requires
                value <= (max - d) / 10,
                d <= max,
        ;
        value = value * 10 + d;
        i += 1;
    }
    proof {
        assert(digits.take(to - start) =~= digits);
    }
    Some(value)
}

} // verus!
