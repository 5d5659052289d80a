//! Reading text: lines, words, numbers.
use crate::text::{chars_of, string_of, texts};
use vstd::prelude::*;

verus! {

/// Whether Unicode counts a character as white space.
pub open spec fn is_space(c: char) -> bool {
    let n = c as int;
    ||| 9 <= n <= 13
    ||| n == 0x20
    ||| n == 0x85
    ||| n == 0xa0
    ||| n == 0x1680
    ||| 0x2000 <= n <= 0x200a
    ||| n == 0x2028
    ||| n == 0x2029
    ||| n == 0x202f
    ||| n == 0x205f
    ||| n == 0x3000
}

/// Whether Unicode counts a character as white space.
pub fn is_space_char(c: char) -> (res: bool)
    ensures
        res == is_space(c),
{
    let n: u32 = c as u32;
    9 <= n && n <= 13 || n == 0x20 || n == 0x85 || n == 0xa0 || n == 0x1680 || 0x2000 <= n && n
        <= 0x200a || n == 0x2028 || n == 0x2029 || n == 0x202f || n == 0x205f || n == 0x3000
}

/// The place of the first `c` from `i` on; the length where there is none.
pub open spec fn find_from(s: Seq<char>, c: char, i: int) -> int
    decreases s.len() - i,
{
    if i < 0 || i >= s.len() {
        s.len() as int
    } else if s[i] == c {
        i
    } else {
        find_from(s, c, i + 1)
    }
}

/// Where [`find_from`] ends.
pub proof fn lemma_find_from(s: Seq<char>, c: char, i: int)
    requires
        0 <= i <= s.len(),
    ensures
        i <= find_from(s, c, i) <= s.len(),
        forall|j: int| i <= j < find_from(s, c, i) ==> s[j] != c,
        find_from(s, c, i) < s.len() ==> s[find_from(s, c, i)] == c,
    decreases s.len() - i,
{
    if i < s.len() && s[i] != c {
        lemma_find_from(s, c, i + 1);
    }
}

/// [`find_from`] is the place of the first `c`.
pub proof fn lemma_find_from_is(s: Seq<char>, c: char, i: int, k: int)
    requires
        0 <= i <= k <= s.len(),
        forall|j: int| i <= j < k ==> s[j] != c,
        k < s.len() ==> s[k] == c,
    ensures
        find_from(s, c, i) == k,
    decreases k - i,
{
    if i < k {
        lemma_find_from_is(s, c, i + 1, k);
    }
}

/// The place of the first `c` from `i` on; the length where there is none.
pub fn find_char(s: &Vec<char>, c: char, i: usize) -> (k: usize)
    requires
        i <= s@.len(),
    ensures
        k == find_from(s@, c, i as int),
        i <= k <= s@.len(),
{
    let mut k: usize = i;
    while k < s.len() && s[k] != c
        invariant
            i <= k <= s@.len(),
            forall|j: int| i <= j < k ==> s@[j] != c,
        decreases s@.len() - k,
    {
        k = k + 1;
    }
    proof {
        lemma_find_from_is(s@, c, i as int, k as int);
    }
    k
}

/// Without the carriage return at its end, if there is one.
pub open spec fn without_cr(s: Seq<char>) -> Seq<char> {
    if s.len() > 0 && s.last() == '\r' {
        s.drop_last()
    } else {
        s
    }
}

/// The lines from `i` on. A line ends with a line feed, before which a carriage return may stand;
/// the last one need not.
pub open spec fn lines_from(s: Seq<char>, i: int) -> Seq<Seq<char>>
    decreases s.len() - i,
{
    if i < 0 || i >= s.len() {
        Seq::empty()
    } else {
        let k = find_from(s, '\n', i);
        proof {
            lemma_find_from(s, '\n', i);
        }
        if k >= s.len() {
            seq![s.subrange(i, s.len() as int)]
        } else {
            seq![without_cr(s.subrange(i, k))] + lines_from(s, k + 1)
        }
    }
}

/// The lines of a text.
pub open spec fn lines_of(s: Seq<char>) -> Seq<Seq<char>> {
    lines_from(s, 0)
}

/// The lines of a text.
pub fn lines(s: &str) -> (res: Vec<String>)
    ensures
        texts(res@) == lines_of(s@),
{
    let v = chars_of(s);
    let mut res: Vec<String> = Vec::new();
    let mut i: usize = 0;
    while i < v.len()
        invariant
            v@ == s@,
            i <= v@.len(),
            texts(res@) + lines_from(v@, i as int) == lines_of(v@),
        decreases v@.len() - i,
    {
        let ghost before = texts(res@);
        let k = find_char(&v, '\n', i);
        if k >= v.len() {
            res.push(string_of(&v, i, v.len()));
            proof {
                assert(texts(res@) =~= before.push(v@.subrange(i as int, v@.len() as int)));
                assert(texts(res@) =~= before + lines_from(v@, i as int));
                assert(lines_from(v@, v@.len() as int) =~= Seq::empty());
                assert(texts(res@) + lines_from(v@, v@.len() as int) =~= texts(res@));
            }
            i = v.len();
        } else {
            let end: usize = if k > i && v[k - 1] == '\r' {
                k - 1
            } else {
                k
            };
            res.push(string_of(&v, i, end));
            proof {
                let line = v@.subrange(i as int, k as int);
                assert(without_cr(line) =~= v@.subrange(i as int, end as int));
                assert(texts(res@) =~= before.push(without_cr(line)));
                assert(texts(res@) + lines_from(v@, k + 1) =~= before + lines_from(v@, i as int));
            }
            i = k + 1;
        }
    }
    proof {
        assert(lines_from(v@, i as int) =~= Seq::empty());
        assert(texts(res@) + lines_from(v@, i as int) =~= texts(res@));
    }
    res
}

/// The place of the first character from `i` on that is no white space.
pub open spec fn skip_spaces(s: Seq<char>, i: int) -> int
    decreases s.len() - i,
{
    if i < 0 || i >= s.len() {
        s.len() as int
    } else if is_space(s[i]) {
        skip_spaces(s, i + 1)
    } else {
        i
    }
}

/// The place of the first white space from `i` on.
pub open spec fn word_end(s: Seq<char>, i: int) -> int
    decreases s.len() - i,
{
    if i < 0 || i >= s.len() {
        s.len() as int
    } else if is_space(s[i]) {
        i
    } else {
        word_end(s, i + 1)
    }
}

/// Where [`skip_spaces`] ends.
pub proof fn lemma_skip_spaces(s: Seq<char>, i: int)
    requires
        0 <= i <= s.len(),
    ensures
        i <= skip_spaces(s, i) <= s.len(),
        skip_spaces(s, i) < s.len() ==> !is_space(s[skip_spaces(s, i)]),
    decreases s.len() - i,
{
    if i < s.len() && is_space(s[i]) {
        lemma_skip_spaces(s, i + 1);
    }
}

/// Where [`word_end`] ends.
pub proof fn lemma_word_end(s: Seq<char>, i: int)
    requires
        0 <= i <= s.len(),
    ensures
        i <= word_end(s, i) <= s.len(),
        i < s.len() && !is_space(s[i]) ==> i < word_end(s, i),
    decreases s.len() - i,
{
    if i < s.len() && !is_space(s[i]) {
        lemma_word_end(s, i + 1);
    }
}

/// The words from `i` on: the longest runs of characters that are no white space.
pub open spec fn words_from(s: Seq<char>, i: int) -> Seq<Seq<char>>
    decreases s.len() - i,
{
    if i < 0 || i > s.len() {
        Seq::empty()
    } else {
        let j = skip_spaces(s, i);
        let k = word_end(s, j);
        proof {
            lemma_skip_spaces(s, i);
            lemma_word_end(s, j);
        }
        if j >= s.len() {
            Seq::empty()
        } else {
            seq![s.subrange(j, k)] + words_from(s, k)
        }
    }
}

/// The words of a text.
pub open spec fn words_of(s: Seq<char>) -> Seq<Seq<char>> {
    words_from(s, 0)
}

/// The place of the first character from `i` on that is no white space.
fn find_word(s: &Vec<char>, i: usize) -> (k: usize)
    requires
        i <= s@.len(),
    ensures
        k == skip_spaces(s@, i as int),
        i <= k <= s@.len(),
{
    let mut k: usize = i;
    while k < s.len() && is_space_char(s[k])
        invariant
            i <= k <= s@.len(),
            skip_spaces(s@, i as int) == skip_spaces(s@, k as int),
        decreases s@.len() - k,
    {
        k = k + 1;
    }
    k
}

/// The place of the first white space from `i` on.
fn find_word_end(s: &Vec<char>, i: usize) -> (k: usize)
    requires
        i <= s@.len(),
    ensures
        k == word_end(s@, i as int),
        i <= k <= s@.len(),
{
    let mut k: usize = i;
    while k < s.len() && !is_space_char(s[k])
        invariant
            i <= k <= s@.len(),
            word_end(s@, i as int) == word_end(s@, k as int),
        decreases s@.len() - k,
    {
        k = k + 1;
    }
    k
}

/// The words of a text.
pub fn words(s: &str) -> (res: Vec<String>)
    ensures
        texts(res@) == words_of(s@),
{
    let v = chars_of(s);
    let mut res: Vec<String> = Vec::new();
    let mut i: usize = find_word(&v, 0);
    proof {
        lemma_skip_spaces_twice(v@, 0);
        lemma_words_from_word(v@, 0);
        assert(texts(res@) + words_from(v@, i as int) =~= words_from(v@, i as int));
    }
    while i < v.len()
        invariant
            v@ == s@,
            i <= v@.len(),
            skip_spaces(v@, i as int) == i,
            texts(res@) + words_from(v@, i as int) == words_of(v@),
        decreases v@.len() - i,
    {
        let ghost before = texts(res@);
        proof {
            lemma_skip_spaces(v@, i as int);
            lemma_word_end(v@, i as int);
        }
        let k = find_word_end(&v, i);
        res.push(string_of(&v, i, k));
        let next = find_word(&v, k);
        proof {
            let word = v@.subrange(i as int, k as int);
            assert(texts(res@) =~= before.push(word));
            lemma_skip_spaces_twice(v@, k as int);
            lemma_words_from_word(v@, k as int);
            assert(texts(res@) + words_from(v@, next as int) =~= before + words_from(
                v@,
                i as int,
            ));
        }
        i = next;
    }
    proof {
        assert(words_from(v@, i as int) =~= Seq::empty());
        assert(texts(res@) + words_from(v@, i as int) =~= texts(res@));
    }
    res
}

/// Skipping white space twice is the same as once.
proof fn lemma_skip_spaces_twice(s: Seq<char>, i: int)
    requires
        0 <= i <= s.len(),
    ensures
        skip_spaces(s, skip_spaces(s, i)) == skip_spaces(s, i),
    decreases s.len() - i,
{
    if i < s.len() && is_space(s[i]) {
        lemma_skip_spaces_twice(s, i + 1);
    }
}

/// The words from some place on are those from the next word on.
proof fn lemma_words_from_word(s: Seq<char>, i: int)
    requires
        0 <= i <= s.len(),
    ensures
        words_from(s, i) == words_from(s, skip_spaces(s, i)),
{
    lemma_skip_spaces(s, i);
    lemma_skip_spaces_twice(s, i);
}

/// The end of the first `n` characters without the white space at their end.
pub open spec fn spaces_start(s: Seq<char>, n: int) -> int
    decreases n,
{
    if n > 0 && n <= s.len() && is_space(s[n - 1]) {
        spaces_start(s, n - 1)
    } else {
        n
    }
}

/// A text without the white space at its start and at its end.
pub open spec fn trimmed(s: Seq<char>) -> Seq<char> {
    let start = skip_spaces(s, 0);
    let end = spaces_start(s, s.len() as int);
    if start <= end {
        s.subrange(start, end)
    } else {
        Seq::empty()
    }
}

/// A text without the white space at its start and at its end.
pub fn trim(s: &str) -> (res: String)
    ensures
        res@ == trimmed(s@),
{
    let v = chars_of(s);
    let start = find_word(&v, 0);
    let mut end: usize = v.len();
    while end > 0 && is_space_char(v[end - 1])
        invariant
            end <= v@.len(),
            spaces_start(v@, v@.len() as int) == spaces_start(v@, end as int),
        decreases end,
    {
        end = end - 1;
    }
    if start <= end {
        string_of(&v, start, end)
    } else {
        String::new()
    }
}

/// `p` stands in `s` at `i`.
pub open spec fn occurs_at(s: Seq<char>, p: Seq<char>, i: int) -> bool {
    0 <= i && i + p.len() <= s.len() && s.subrange(i, i + p.len()) == p
}

/// `p` stands somewhere in `s`.
pub open spec fn occurs(s: Seq<char>, p: Seq<char>) -> bool {
    exists|i: int| occurs_at(s, p, i)
}

/// Whether `p` stands in `s` at `i`.
pub fn is_at(s: &Vec<char>, p: &Vec<char>, i: usize) -> (res: bool)
    ensures
        res == occurs_at(s@, p@, i as int),
{
    if i > s.len() || p.len() > s.len() - i {
        return false;
    }
    let mut k: usize = 0;
    while k < p.len()
        invariant
            k <= p@.len(),
            i + p@.len() <= s@.len() <= usize::MAX,
            forall|j: int| 0 <= j < k ==> s@[i + j] == p@[j],
        decreases p@.len() - k,
    {
        if s[i + k] != p[k] {
            proof {
                let sub = s@.subrange(i as int, i + p@.len());
                assert(sub[k as int] == s@[i + k]);
                assert(sub != p@);
            }
            return false;
        }
        k = k + 1;
    }
    assert(s@.subrange(i as int, i + p@.len()) =~= p@);
    true
}

/// Whether `p` stands somewhere in `s`.
pub fn contains(s: &str, p: &str) -> (res: bool)
    ensures
        res == occurs(s@, p@),
{
    let v = chars_of(s);
    let q = chars_of(p);
    let mut i: usize = 0;
    while i < v.len()
        invariant
            v@ == s@,
            q@ == p@,
            i <= v@.len(),
            forall|j: int| 0 <= j < i ==> !occurs_at(v@, q@, j),
        decreases v@.len() - i,
    {
        if is_at(&v, &q, i) {
            return true;
        }
        i = i + 1;
    }
    is_at(&v, &q, i)
}

/// Whether `s` starts with `p`.
pub fn starts_with(s: &str, p: &str) -> (res: bool)
    ensures
        res == occurs_at(s@, p@, 0),
{
    is_at(&chars_of(s), &chars_of(p), 0)
}

/// The first `n` characters, or all where there are fewer.
pub open spec fn at_most(s: Seq<char>, n: int) -> Seq<char> {
    if s.len() <= n {
        s
    } else {
        s.take(n)
    }
}

/// The first `n` characters, or all where there are fewer.
pub fn take_chars(s: &str, n: usize) -> (res: String)
    ensures
        res@ == at_most(s@, n as int),
{
    let v = chars_of(s);
    let end: usize = if v.len() <= n {
        v.len()
    } else {
        n
    };
    let res = string_of(&v, 0, end);
    assert(res@ =~= at_most(s@, n as int));
    res
}

/// What stands before and behind the first `c`; none where there is no `c`.
pub open spec fn split_at_first(s: Seq<char>, c: char) -> Option<(Seq<char>, Seq<char>)> {
    let k = find_from(s, c, 0);
    if k < s.len() {
        Some((s.take(k), s.skip(k + 1)))
    } else {
        None
    }
}

/// What stands before and behind the first `c`; none where there is no `c`.
pub fn split_once(s: &str, c: char) -> (res: Option<(String, String)>)
    ensures
        match (res, split_at_first(s@, c)) {
            (Some(parts), Some(expected)) => parts.0@ == expected.0 && parts.1@ == expected.1,
            (None, None) => true,
            _ => false,
        },
{
    let v = chars_of(s);
    let k = find_char(&v, c, 0);
    if k < v.len() {
        let left = string_of(&v, 0, k);
        let right = string_of(&v, k + 1, v.len());
        assert(left@ =~= s@.take(k as int));
        assert(right@ =~= s@.skip(k + 1));
        Some((left, right))
    } else {
        None
    }
}

/// The value of a digit: decimal ones up to nine, then the letters of either case.
pub open spec fn digit_of(c: char, radix: int) -> Option<nat> {
    let n = c as int;
    let d = if '0' as int <= n <= '9' as int {
        n - '0' as int
    } else if 'a' as int <= n <= 'z' as int {
        n - 'a' as int + 10
    } else if 'A' as int <= n <= 'Z' as int {
        n - 'A' as int + 10
    } else {
        radix
    };
    if d < radix {
        Some(d as nat)
    } else {
        None
    }
}

/// The value of a digit, where it is one in a radix up to 36.
pub fn digit_value(c: char, radix: u32) -> (res: Option<u32>)
    requires
        2 <= radix <= 36,
    ensures
        match (res, digit_of(c, radix as int)) {
            (Some(d), Some(e)) => d == e && d < radix,
            (None, None) => true,
            _ => false,
        },
{
    let n: u32 = c as u32;
    let d: u32 = if 48 <= n && n <= 57 {
        n - 48
    } else if 97 <= n && n <= 122 {
        n - 97 + 10
    } else if 65 <= n && n <= 90 {
        n - 65 + 10
    } else {
        radix
    };
    if d < radix {
        Some(d)
    } else {
        None
    }
}

/// The number that digits stand for; none where one of them is no digit.
pub open spec fn number_of(s: Seq<char>, radix: int) -> Option<nat>
    decreases s.len(),
{
    if s.len() == 0 {
        Some(0)
    } else {
        match (number_of(s.drop_last(), radix), digit_of(s.last(), radix)) {
            (Some(v), Some(d)) => Some((v * radix + d) as nat),
            _ => None,
        }
    }
}

/// A number that fits 32 bits, with an optional plus sign before its digits; none for anything
/// else.
pub open spec fn parsed_u32(s: Seq<char>, radix: int) -> Option<u32> {
    let digits = if s.len() > 0 && s[0] == '+' {
        s.skip(1)
    } else {
        s
    };
    match number_of(digits, radix) {
        Some(v) => if digits.len() > 0 && v <= u32::MAX {
            Some(v as u32)
        } else {
            None
        },
        None => None,
    }
}

/// More digits never make a number smaller, nor digits of what are none.
proof fn lemma_number_grows(s: Seq<char>, radix: int, n: int)
    requires
        radix >= 2,
        0 <= n <= s.len(),
    ensures
        number_of(s, radix) is Some ==> number_of(s.take(n), radix) is Some && number_of(
            s.take(n),
            radix,
        )->0 <= number_of(s, radix)->0,
    decreases s.len(),
{
    if n == s.len() {
        assert(s.take(n) =~= s);
    } else {
        assert(s.drop_last().take(n) =~= s.take(n));
        lemma_number_grows(s.drop_last(), radix, n);
        if number_of(s, radix) is Some {
            let v = number_of(s.drop_last(), radix)->0;
            assert(v <= v * radix) by (nonlinear_arith)
                requires
                    radix >= 2,
                    v >= 0,
            ;
        }
    }
}

/// Reads a number that fits 32 bits, in the radix 10 or 16.
pub fn parse_u32(s: &str, radix: u32) -> (res: Option<u32>)
    requires
        radix == 10 || radix == 16,
    ensures
        res == parsed_u32(s@, radix as int),
{
    let v = chars_of(s);
    let start: usize = if v.len() > 0 && v[0] == '+' {
        1
    } else {
        0
    };
    let ghost digits = s@.skip(start as int);
    assert(start == 0 ==> digits =~= s@);
    if start == v.len() {
        assert(digits.len() == 0);
        return None;
    }
    let mut value: u64 = 0;
    let mut i: usize = start;
    while i < v.len()
        invariant
            v@ == s@,
            radix == 10 || radix == 16,
            start <= i <= v@.len(),
            start < v@.len(),
            start <= 1,
            digits == s@.skip(start as int),
            digits == (if s@.len() > 0 && s@[0] == '+' {
                s@.skip(1)
            } else {
                s@
            }),
            digits.len() > 0,
            value <= u32::MAX,
            number_of(digits.take(i - start), radix as int) == Some(value as nat),
        decreases v@.len() - i,
    {
        let ghost part = digits.take(i - start + 1);
        proof {
            assert(part.drop_last() =~= digits.take(i - start));
            assert(part.last() == v@[i as int]);
            lemma_number_grows(digits, radix as int, i - start + 1);
        }
        match digit_value(v[i], radix) {
            None => {
                return None;
            },
            Some(d) => {
                assert(0 <= value * radix <= 0xffff_ffff * 16) by (nonlinear_arith)
                    requires
                        value <= 0xffff_ffff,
                        radix <= 16,
                ;
                value = value * (radix as u64) + d as u64;
            },
        }
        assert(number_of(part, radix as int) == Some(value as nat));
        if value > u32::MAX as u64 {
            return None;
        }
        i = i + 1;
    }
    assert(digits.take(i - start) =~= digits);
    Some(value as u32)
}

/// The white space of ASCII is the space and the characters 9 to 13. Beyond ASCII it is the next-line
/// character, the no-break spaces, and the spaces and separators of general punctuation, of Ogham and
/// of CJK.
pub proof fn what_counts_as_white_space(c: char)
    ensures
        (c as int) < 128 ==> (is_space(c) <==> c == ' ' || 9 <= c as int <= 13),
        128 <= (c as int) && (c as int) < 0x2000 ==> (is_space(c) <==> c as int == 0x85 || c as int
            == 0xa0 || c as int == 0x1680),
        0x2000 <= (c as int) && (c as int) < 0x2070 ==> (is_space(c) <==> c as int <= 0x200a || c as int
            == 0x2028 || c as int == 0x2029 || c as int == 0x202f || c as int == 0x205f),
        0x2070 <= (c as int) ==> (is_space(c) <==> c as int == 0x3000),
{
}

/// Looking for a character behind a part that is left out is looking in the rest.
proof fn lemma_find_shift(p: Seq<char>, s: Seq<char>, c: char, i: int)
    requires
        0 <= i <= s.len(),
    ensures
        find_from(p + s, c, p.len() + i) == p.len() + find_from(s, c, i),
{
    lemma_find_from(s, c, i);
    let k = p.len() + find_from(s, c, i);
    let all = p + s;
    assert forall|j: int| p.len() + i <= j < k implies all[j] != c by {
        assert(all[j] == s[j - p.len()]);
    }
    lemma_find_from_is(all, c, p.len() + i, k);
}

/// The lines behind a part that is left out are the lines of the rest.
proof fn lemma_lines_shift(p: Seq<char>, s: Seq<char>, i: int)
    requires
        0 <= i <= s.len(),
    ensures
        lines_from(p + s, p.len() + i) == lines_from(s, i),
    decreases s.len() - i,
{
    let all = p + s;
    if i < s.len() {
        lemma_find_from(s, '\n', i);
        lemma_find_shift(p, s, '\n', i);
        let k = find_from(s, '\n', i);
        if k >= s.len() {
            assert(all.subrange(p.len() + i, all.len() as int) =~= s.subrange(i, s.len() as int));
        } else {
            assert(all.subrange(p.len() + i, p.len() + k) =~= s.subrange(i, k));
            lemma_lines_shift(p, s, k + 1);
        }
    }
}

/// A text is cut into lines at its line feeds: what stands before the first is the first line, without
/// a carriage return at its end, and the other lines are those of what stands behind it. A text without
/// a line feed is one line, as it is, and an empty text has none.
pub proof fn lines_are_cut_at_line_feeds(first: Seq<char>, rest: Seq<char>)
    requires
        !first.contains('\n'),
    ensures
        lines_of(first + seq!['\n'] + rest) == seq![without_cr(first)] + lines_of(rest),
        first.len() > 0 ==> lines_of(first) == seq![first],
        lines_of(Seq::empty()) == Seq::<Seq<char>>::empty(),
{
    let p = first + seq!['\n'];
    let all = p + rest;
    let n = first.len() as int;
    assert forall|j: int| 0 <= j < n implies first[j] != '\n' by {
        assert(first.contains(first[j]));
    }
    assert forall|j: int| 0 <= j < n implies all[j] != '\n' by {
        assert(all[j] == first[j]);
    }
    assert(all[n] == '\n');
    lemma_find_from_is(all, '\n', 0, n);
    assert(all.subrange(0, n) =~= first);
    lemma_lines_shift(p, rest, 0);
    lemma_find_from_is(first, '\n', 0, n);
    assert(first.subrange(0, n) =~= first);
}

/// One carriage return at the end is taken off, and nothing else.
pub proof fn one_carriage_return_is_taken_off(s: Seq<char>)
    ensures
        without_cr(s.push('\r')) == s,
        s.len() == 0 || s.last() != '\r' ==> without_cr(s) == s,
{
    assert(s.push('\r').drop_last() =~= s);
}

/// Skipping white space ends at the first character that is none, and a word at the first that is.
pub proof fn words_end_at_white_space(s: Seq<char>, i: int)
    requires
        0 <= i <= s.len(),
    ensures
        i <= skip_spaces(s, i) <= s.len(),
        forall|j: int| i <= j < skip_spaces(s, i) ==> is_space(#[trigger] s[j]),
        skip_spaces(s, i) < s.len() ==> !is_space(s[skip_spaces(s, i)]),
        i <= word_end(s, i) <= s.len(),
        forall|j: int| i <= j < word_end(s, i) ==> !is_space(#[trigger] s[j]),
        word_end(s, i) < s.len() ==> is_space(s[word_end(s, i)]),
    decreases s.len() - i,
{
    if i < s.len() {
        words_end_at_white_space(s, i + 1);
    }
}

/// The place that these conditions name.
proof fn lemma_word_end_is(s: Seq<char>, i: int, k: int)
    requires
        0 <= i <= k <= s.len(),
        forall|j: int| i <= j < k ==> !is_space(#[trigger] s[j]),
        k < s.len() ==> is_space(s[k]),
    ensures
        word_end(s, i) == k,
    decreases k - i,
{
    if i < k {
        assert(!is_space(s[i]));
        lemma_word_end_is(s, i + 1, k);
    }
}

/// Words behind a part that is left out are the words of the rest.
proof fn lemma_words_shift(p: Seq<char>, s: Seq<char>, i: int)
    requires
        0 <= i <= s.len(),
    ensures
        skip_spaces(p + s, p.len() + i) == p.len() + skip_spaces(s, i),
        word_end(p + s, p.len() + i) == p.len() + word_end(s, i),
    decreases s.len() - i,
{
    if i < s.len() {
        assert((p + s)[p.len() + i] == s[i]);
        lemma_words_shift(p, s, i + 1);
    }
}

/// The words behind a part that is left out are the words of the rest.
proof fn lemma_words_from_shift(p: Seq<char>, s: Seq<char>, i: int)
    requires
        0 <= i <= s.len(),
    ensures
        words_from(p + s, p.len() + i) == words_from(s, i),
    decreases s.len() - i,
{
    let all = p + s;
    let j = skip_spaces(s, i);
    let k = word_end(s, j);
    lemma_skip_spaces(s, i);
    lemma_word_end(s, j);
    lemma_words_shift(p, s, i);
    lemma_words_shift(p, s, j);
    if j < s.len() {
        assert(all.subrange(p.len() + j, p.len() + k) =~= s.subrange(j, k));
        lemma_words_from_shift(p, s, k);
    }
}

/// A text is cut into words at its white space: white space at its start says nothing, and what stands
/// before the next white space is the first word, which the words of the rest follow. A text without
/// white space is one word, and an empty text has none.
pub proof fn words_are_cut_at_white_space(word: Seq<char>, c: char, rest: Seq<char>)
    requires
        is_space(c),
        forall|j: int| 0 <= j < word.len() ==> !is_space(#[trigger] word[j]),
    ensures
        words_of(seq![c] + rest) == words_of(rest),
        word.len() > 0 ==> words_of(word + seq![c] + rest) == seq![word] + words_of(rest),
        word.len() > 0 ==> words_of(word) == seq![word],
        words_of(Seq::empty()) == Seq::<Seq<char>>::empty(),
{
    let one = seq![c];
    let led = one + rest;
    assert(led[0] == c);
    lemma_words_shift(one, rest, 0);
    lemma_words_from_shift(one, rest, 0);
    lemma_words_from_word(led, 0);
    lemma_words_from_word(led, 1);
    assert(skip_spaces(led, 0) == skip_spaces(led, 1));
    if word.len() > 0 {
        let n = word.len() as int;
        let p = word + one;
        let all = p + rest;
        assert forall|j: int| 0 <= j < n implies !is_space(#[trigger] all[j]) by {
            assert(all[j] == word[j]);
        }
        assert(all[n] == c);
        assert(!is_space(all[0]));
        assert(skip_spaces(all, 0) == 0);
        lemma_word_end_is(all, 0, n);
        assert(all.subrange(0, n) =~= word);
        assert(all =~= word + led);
        lemma_words_from_shift(word, led, 0);
        assert(!is_space(word[0]));
        assert(skip_spaces(word, 0) == 0);
        lemma_word_end_is(word, 0, n);
        assert(word.subrange(0, n) =~= word);
        assert(words_from(word, n) =~= Seq::empty());
        assert(words_of(word) =~= seq![word]);
    }
    assert(skip_spaces(Seq::<char>::empty(), 0) == 0);
}

/// Trimming takes white space off both ends and nothing else: what is left starts and ends with
/// something else, or is empty.
pub proof fn trimming_takes_white_space_off_both_ends(s: Seq<char>) -> (around: (
    Seq<char>,
    Seq<char>,
))
    ensures
        s == around.0 + trimmed(s) + around.1,
        forall|i: int| 0 <= i < around.0.len() ==> is_space(#[trigger] around.0[i]),
        forall|i: int| 0 <= i < around.1.len() ==> is_space(#[trigger] around.1[i]),
        trimmed(s).len() > 0 ==> !is_space(trimmed(s)[0]) && !is_space(trimmed(s).last()),
{
    let n = s.len() as int;
    let start = skip_spaces(s, 0);
    let end = spaces_start(s, n);
    words_end_at_white_space(s, 0);
    lemma_spaces_start(s, n);
    if start <= end {
        assert(s =~= s.subrange(0, start) + s.subrange(start, end) + s.subrange(end, n));
        (s.subrange(0, start), s.subrange(end, n))
    } else {
        assert forall|i: int| 0 <= i < s.len() implies is_space(#[trigger] s[i]) by {}
        assert(s =~= s + Seq::<char>::empty() + Seq::<char>::empty());
        (s, Seq::empty())
    }
}

/// Where the white space at the end starts.
proof fn lemma_spaces_start(s: Seq<char>, n: int)
    requires
        0 <= n <= s.len(),
    ensures
        0 <= spaces_start(s, n) <= n,
        forall|j: int| spaces_start(s, n) <= j < n ==> is_space(#[trigger] s[j]),
        spaces_start(s, n) > 0 ==> !is_space(s[spaces_start(s, n) - 1]),
    decreases n,
{
    if n > 0 && is_space(s[n - 1]) {
        lemma_spaces_start(s, n - 1);
    }
}

/// A part stands at a place where each of its characters does.
pub proof fn a_part_stands_character_by_character(s: Seq<char>, p: Seq<char>, i: int)
    ensures
        occurs_at(s, p, i) <==> 0 <= i && i + p.len() <= s.len() && forall|j: int|
            0 <= j < p.len() ==> s[i + j] == #[trigger] p[j],
        occurs_at(s, p, i) ==> occurs(s, p),
        occurs_at(p + s, p, 0),
{
    if occurs_at(s, p, i) {
        assert forall|j: int| 0 <= j < p.len() implies s[i + j] == #[trigger] p[j] by {
            assert(s.subrange(i, i + p.len())[j] == p[j]);
        }
    } else if 0 <= i && i + p.len() <= s.len() && forall|j: int|
        0 <= j < p.len() ==> s[i + j] == #[trigger] p[j] {
        assert(s.subrange(i, i + p.len()) =~= p);
    }
    assert((p + s).subrange(0, p.len() as int) =~= p);
}

/// No more than so many characters are left, and they are the first ones; a text that is no longer is
/// left whole.
pub proof fn a_text_is_cut_at_its_limit(s: Seq<char>, n: nat)
    ensures
        at_most(s, n as int).len() <= n,
        s.len() <= n ==> at_most(s, n as int) == s,
        s.len() > n ==> at_most(s, n as int).len() == n,
        forall|i: int|
            0 <= i < at_most(s, n as int).len() ==> #[trigger] at_most(s, n as int)[i] == s[i],
{
}

/// A text is split at the first of the characters: what stands before it holds none. A text without
/// one is not split.
pub proof fn a_text_is_split_at_the_first(s: Seq<char>, c: char)
    ensures
        split_at_first(s, c) is Some <==> s.contains(c),
        split_at_first(s, c) matches Some((before, behind)) ==> s == before + seq![c] + behind
            && !before.contains(c),
{
    lemma_find_from(s, c, 0);
    let k = find_from(s, c, 0);
    if k < s.len() {
        assert(s[k] == c);
        assert(s =~= s.take(k) + seq![c] + s.skip(k + 1));
        if s.take(k).contains(c) {
            let j = choose|j: int| 0 <= j < k && s.take(k)[j] == c;
            assert(s[j] == c);
        }
    }
}

/// The digits are `0` to `9`, and the letters from `a` on in either case as far as the radix goes.
pub proof fn digits_of_a_radix(c: char, radix: int)
    requires
        2 <= radix <= 36,
    ensures
        48 <= c as int <= 57 && c as int - 48 < radix ==> digit_of(c, radix) == Some(
            (c as int - 48) as nat,
        ),
        97 <= c as int <= 122 && c as int - 87 < radix ==> digit_of(c, radix) == Some(
            (c as int - 87) as nat,
        ),
        65 <= c as int <= 90 && c as int - 55 < radix ==> digit_of(c, radix) == Some(
            (c as int - 55) as nat,
        ),
        digit_of(c, radix) matches Some(d) ==> d < radix && (48 <= c as int <= 57 || 97 <= c as int
            <= 122 || 65 <= c as int <= 90),
{
}

/// A digit more makes a number the radix times as large, and adds the digit. What is no digit makes no
/// number.
pub proof fn numbers_are_read_digit_by_digit(s: Seq<char>, c: char, radix: int)
    requires
        2 <= radix <= 36,
    ensures
        number_of(Seq::empty(), radix) == Some(0nat),
        number_of(s, radix) is Some && digit_of(c, radix) is Some ==> number_of(s.push(c), radix)
            == Some((number_of(s, radix).unwrap() * radix + digit_of(c, radix).unwrap()) as nat),
        number_of(s, radix) is None || digit_of(c, radix) is None ==> number_of(s.push(c), radix)
            is None,
{
    assert(s.push(c).drop_last() =~= s);
}

/// A number of 32 bits is read with a plus sign or without one. There has to be a digit, and there may
/// be nothing else; what does not fit is refused.
pub proof fn numbers_of_32_bits(digits: Seq<char>, radix: int)
    requires
        digits.len() > 0 ==> digits[0] != '+',
    ensures
        parsed_u32(digits, radix) == parsed_u32(seq!['+'] + digits, radix),
        digits.len() == 0 ==> parsed_u32(digits, radix) is None,
        digits.len() > 0 ==> {
            &&& parsed_u32(digits, radix) is Some <==> (number_of(digits, radix) matches Some(v) && v
                < 0x1_0000_0000)
            &&& parsed_u32(digits, radix) matches Some(v) ==> number_of(digits, radix) == Some(
                v as nat,
            )
        },
{
    assert((seq!['+'] + digits).skip(1) =~= digits);
}

/// A sign anywhere but once at the start is no part of a number.
pub proof fn only_one_sign_is_read(digits: Seq<char>, radix: int)
    requires
        2 <= radix <= 36,
    ensures
        parsed_u32(seq!['+', '+'] + digits, radix) is None,
        parsed_u32(seq!['-'] + digits, radix) is None,
        parsed_u32(seq!['+', '-'] + digits, radix) is None,
{
    let plus = seq!['+', '+'] + digits;
    let minus = seq!['-'] + digits;
    let both = seq!['+', '-'] + digits;
    assert(plus.skip(1) =~= seq!['+'] + digits);
    assert(both.skip(1) =~= minus);
    lemma_no_number(seq!['+'] + digits, radix);
    lemma_no_number(minus, radix);
}

/// What starts with something else than a digit is no number.
proof fn lemma_no_number(s: Seq<char>, radix: int)
    requires
        2 <= radix <= 36,
        s.len() > 0,
        digit_of(s[0], radix) is None,
    ensures
        number_of(s, radix) is None,
    decreases s.len(),
{
    if s.len() > 1 {
        lemma_no_number(s.drop_last(), radix);
    }
}

} // verus!
