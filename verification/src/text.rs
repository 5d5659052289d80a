//! Strings, as sequences of characters.
use vstd::prelude::*;

verus! {

/// `String::push` of std: the character is put at the end.
pub assume_specification[ String::push ](s: &mut String, c: char)
    ensures
        final(s)@ == old(s)@.push(c),
;

/// What the strings of a list hold.
pub open spec fn texts(list: Seq<String>) -> Seq<Seq<char>> {
    Seq::new(list.len(), |i: int| list[i]@)
}

/// The characters of `s`, in order.
pub fn chars_of(s: &str) -> (v: Vec<char>)
    ensures
        v@ == s@,
{
    let mut v: Vec<char> = Vec::new();
    for c in it: s.chars()
        invariant
            it.seq() == s@,
            v@ == it.seq().take(it.index() as int),
    {
        v.push(c);
    }
    v
}

/// The string made of the characters `v[from..to]`.
pub fn string_of(v: &Vec<char>, from: usize, to: usize) -> (s: String)
    requires
        from <= to <= v@.len(),
    ensures
        s@ == v@.subrange(from as int, to as int),
{
    let mut s = String::new();
    let mut i: usize = from;
    while i < to
        invariant
            from <= i <= to <= v@.len(),
            s@ == v@.subrange(from as int, i as int),
        decreases to - i,
    {
        s.push(v[i]);
        i = i + 1;
    }
    s
}

/// A copy of `s`.
pub fn copy_text(s: &str) -> (res: String)
    ensures
        res@ == s@,
{
    s.to_owned()
}

/// Whether two strings hold the same characters.
pub fn same_text(a: &str, b: &str) -> (res: bool)
    ensures
        res == (a@ == b@),
{
    let x = chars_of(a);
    let y = chars_of(b);
    if x.len() != y.len() {
        return false;
    }
    let mut i: usize = 0;
    while i < x.len()
        invariant
            x@ == a@,
            y@ == b@,
            i <= x@.len(),
            x@.len() == y@.len(),
            forall|j: int| 0 <= j < i ==> x@[j] == y@[j],
        decreases x@.len() - i,
    {
        if x[i] != y[i] {
            return false;
        }
        i = i + 1;
    }
    assert(x@ =~= y@);
    true
}

/// `a` and `b` have the same first `k` characters.
pub open spec fn agree(a: Seq<char>, b: Seq<char>, k: int) -> bool {
    &&& 0 <= k <= a.len()
    &&& k <= b.len()
    &&& forall|j: int| 0 <= j < k ==> a[j] == b[j]
}

/// `a` comes before `b` in the order of their characters: it is a proper start of `b`, or has the
/// smaller character where they first differ. UTF-8 keeps this order, so it is that of `str`.
pub open spec fn text_before(a: Seq<char>, b: Seq<char>) -> bool {
    exists|k: int| #[trigger]
        agree(a, b, k) && k < b.len() && (k < a.len() ==> (a[k] as int) < (b[k] as int))
}

/// Any two strings are equal, or one comes before the other.
pub proof fn text_order_is_total(a: Seq<char>, b: Seq<char>)
    ensures
        a == b || text_before(a, b) || text_before(b, a),
{
    lemma_first_difference(a, b, 0);
    let k = choose|k: int| #[trigger]
        agree(a, b, k) && (k == a.len() || k == b.len() || a[k] != b[k]);
    if k == a.len() && k == b.len() {
        assert(a =~= b);
    } else if k == a.len() {
        assert(text_before(a, b));
    } else if k == b.len() {
        assert(agree(b, a, k));
    } else {
        assert(agree(b, a, k));
        if (a[k] as int) < (b[k] as int) {
            assert(text_before(a, b));
        } else {
            assert(text_before(b, a));
        }
    }
}

/// Two strings agree up to the end of one of them or up to a difference.
proof fn lemma_first_difference(a: Seq<char>, b: Seq<char>, from: int)
    requires
        agree(a, b, from),
    ensures
        exists|k: int| #[trigger]
            agree(a, b, k) && (k == a.len() || k == b.len() || a[k] != b[k]),
    decreases a.len() - from,
{
    if from < a.len() && from < b.len() && a[from] == b[from] {
        lemma_first_difference(a, b, from + 1);
    }
}

/// The order of strings is transitive.
pub proof fn text_order_is_transitive(a: Seq<char>, b: Seq<char>, c: Seq<char>)
    requires
        text_before(a, b),
        text_before(b, c),
    ensures
        text_before(a, c),
{
    let i = choose|k: int| #[trigger]
        agree(a, b, k) && k < b.len() && (k < a.len() ==> (a[k] as int) < (b[k] as int));
    let j = choose|k: int| #[trigger]
        agree(b, c, k) && k < c.len() && (k < b.len() ==> (b[k] as int) < (c[k] as int));
    let k = if i <= j {
        i
    } else {
        j
    };
    assert(agree(a, c, k));
}

/// No string comes before itself.
pub proof fn text_order_is_strict(a: Seq<char>)
    ensures
        !text_before(a, a),
{
}

/// Whether `a` comes before `b`.
pub fn is_text_before(a: &str, b: &str) -> (res: bool)
    ensures
        res == text_before(a@, b@),
{
    let x = chars_of(a);
    let y = chars_of(b);
    let mut k: usize = 0;
    while k < x.len() && k < y.len() && x[k] == y[k]
        invariant
            agree(x@, y@, k as int),
        decreases x@.len() - k,
    {
        k = k + 1;
    }
    let res = if k == y.len() {
        false
    } else if k == x.len() {
        true
    } else {
        let p: char = x[k];
        let q: char = y[k];
        p < q
    };
    proof {
        if !res && text_before(x@, y@) {
            let m = choose|m: int| #[trigger]
                agree(x@, y@, m) && m < y@.len() && (m < x@.len() ==> (x@[m] as int) < (
                y@[m] as int));
            if m < k {
                assert(x@[m] == y@[m]);
            } else if m > k {
                assert(x@[k as int] == y@[k as int]);
            }
            assert(false);
        }
    }
    res
}

/// The list is in strictly ascending order.
pub open spec fn ascending(list: Seq<Seq<char>>) -> bool {
    forall|i: int, j: int| 0 <= i < j < list.len() ==> text_before(list[i], list[j])
}

/// Puts a string into an ascending list that does not hold it.
pub fn insert_ascending(list: &mut Vec<String>, s: String)
    requires
        ascending(texts(old(list)@)),
        !texts(old(list)@).contains(s@),
    ensures
        ascending(texts(final(list)@)),
        exists|i: int|
            0 <= i <= old(list)@.len() && #[trigger] texts(old(list)@).insert(i, s@) == texts(
                final(list)@,
            ),
{
    let ghost before = texts(list@);
    let ghost x = s@;
    let mut i: usize = 0;
    while i < list.len() && is_text_before(list[i].as_str(), s.as_str())
        invariant
            i <= list@.len(),
            list@ == old(list)@,
            forall|j: int| 0 <= j < i ==> text_before(#[trigger] texts(list@)[j], s@),
        decreases list@.len() - i,
    {
        i = i + 1;
    }
    proof {
        if i < list@.len() {
            assert(texts(list@)[i as int] == list@[i as int]@);
            assert(texts(list@).contains(list@[i as int]@));
            text_order_is_total(list@[i as int]@, s@);
            assert(text_before(x, before[i as int]));
            assert forall|j: int| i <= j < before.len() implies text_before(
                x,
                #[trigger] before[j],
            ) by {
                if j > i {
                    text_order_is_transitive(x, before[i as int], before[j]);
                }
            }
        }
    }
    list.insert(i, s);
    proof {
        assert(texts(list@) =~= before.insert(i as int, x));
        let after = before.insert(i as int, x);
        assert forall|p: int, q: int| 0 <= p < q < after.len() implies text_before(
            after[p],
            after[q],
        ) by {
            if p < i && q < i {
                assert(text_before(before[p], before[q]));
            } else if p < i && q == i {
                assert(text_before(before[p], x));
            } else if p < i {
                assert(text_before(before[p], before[q - 1]));
            } else if p == i {
                assert(text_before(x, before[q - 1]));
            } else {
                assert(text_before(before[p - 1], before[q - 1]));
            }
        }
    }
}

/// Puts a string at the end of another.
pub fn push_text(s: &mut String, t: &str)
    ensures
        final(s)@ == old(s)@ + t@,
{
    let v = chars_of(t);
    let mut i: usize = 0;
    while i < v.len()
        invariant
            i <= v@.len(),
            s@ == old(s)@ + v@.take(i as int),
        decreases v@.len() - i,
    {
        s.push(v[i]);
        i = i + 1;
        assert(old(s)@ + v@.take(i as int) =~= (old(s)@ + v@.take(i - 1)).push(v@[i - 1]));
    }
    assert(v@.take(i as int) =~= v@);
}

/// Two strings, one after the other.
pub fn join_two(a: &str, b: &str) -> (s: String)
    ensures
        s@ == a@ + b@,
{
    let mut s = copy_text(a);
    push_text(&mut s, b);
    s
}

/// Three strings, one after the other.
pub fn join_three(a: &str, b: &str, c: &str) -> (s: String)
    ensures
        s@ == a@ + b@ + c@,
{
    let mut s = copy_text(a);
    push_text(&mut s, b);
    push_text(&mut s, c);
    s
}

/// Whether a list holds a string.
pub fn contains_text(list: &Vec<String>, s: &str) -> (res: bool)
    ensures
        res == texts(list@).contains(s@),
{
    let mut i: usize = 0;
    while i < list.len()
        invariant
            i <= list@.len(),
            forall|j: int| 0 <= j < i ==> #[trigger] texts(list@)[j] != s@,
        decreases list@.len() - i,
    {
        if same_text(list[i].as_str(), s) {
            assert(texts(list@)[i as int] == s@);
            return true;
        }
        i = i + 1;
    }
    false
}

/// A list of copies of texts.
pub fn args_of(parts: &[&str]) -> (args: Vec<String>)
    ensures
        args@.len() == parts@.len(),
        forall|i: int| 0 <= i < parts@.len() ==> #[trigger] texts(args@)[i] == parts@[i]@,
{
    let mut args: Vec<String> = Vec::new();
    let mut i: usize = 0;
    while i < parts.len()
        invariant
            i <= parts@.len(),
            args@.len() == i,
            forall|j: int| 0 <= j < i ==> #[trigger] texts(args@)[j] == parts@[j]@,
        decreases parts@.len() - i,
    {
        let ghost before = texts(args@);
        args.push(copy_text(parts[i]));
        assert(texts(args@) =~= before.push(parts@[i as int]@));
        i = i + 1;
    }
    args
}

/// A character in lower case, where it is an ASCII letter.
pub open spec fn ascii_lower(c: char) -> char {
    if 'A' <= c && c <= 'Z' {
        ((c as int + 32) as u32) as char
    } else {
        c
    }
}

/// A text with its ASCII letters in lower case.
pub open spec fn ascii_lowercased(s: Seq<char>) -> Seq<char> {
    Seq::new(s.len(), |i: int| ascii_lower(s[i]))
}

/// Whether a text is `lower` but for the case of ASCII letters.
pub fn lower_is(s: &str, lower: &str) -> (res: bool)
    ensures
        res == (ascii_lowercased(s@) == lower@),
{
    let v = chars_of(s);
    let w = chars_of(lower);
    if v.len() != w.len() {
        return false;
    }
    let mut i: usize = 0;
    while i < v.len()
        invariant
            v@ == s@,
            w@ == lower@,
            i <= v@.len(),
            v@.len() == w@.len(),
            forall|j: int| 0 <= j < i ==> ascii_lower(v@[j]) == w@[j],
        decreases v@.len() - i,
    {
        if lower_char(v[i]) != w[i] {
            assert(ascii_lowercased(s@)[i as int] != lower@[i as int]);
            return false;
        }
        i = i + 1;
    }
    assert(ascii_lowercased(s@) =~= lower@);
    true
}

/// A character in lower case, where it is an ASCII letter.
fn lower_char(c: char) -> (res: char)
    ensures
        res == ascii_lower(c),
{
    match c {
        'A' => 'a',
        'B' => 'b',
        'C' => 'c',
        'D' => 'd',
        'E' => 'e',
        'F' => 'f',
        'G' => 'g',
        'H' => 'h',
        'I' => 'i',
        'J' => 'j',
        'K' => 'k',
        'L' => 'l',
        'M' => 'm',
        'N' => 'n',
        'O' => 'o',
        'P' => 'p',
        'Q' => 'q',
        'R' => 'r',
        'S' => 's',
        'T' => 't',
        'U' => 'u',
        'V' => 'v',
        'W' => 'w',
        'X' => 'x',
        'Y' => 'y',
        'Z' => 'z',
        _ => c,
    }
}

/// What `String::from_utf8_lossy` makes of bytes: the text they encode, with a replacement for
/// what is no UTF-8.
pub uninterp spec fn utf8_lossy(bytes: Seq<u8>) -> Seq<char>;

/// `String::from_utf8_lossy` of std. Claimed: the result depends on the bytes alone, and is the
/// text that they encode where they are UTF-8.
#[verifier::external_body]
fn text_of_bytes(bytes: &[u8]) -> (s: String)
    ensures
        s@ == utf8_lossy(bytes@),
        vstd::utf8::valid_utf8(bytes@) ==> s@ == vstd::utf8::decode_utf8(bytes@),
{
    String::from_utf8_lossy(bytes).into_owned()
}

/// The text that bytes encode, with a replacement for what is no UTF-8.
pub fn lossy_text(bytes: &[u8]) -> (s: String)
    ensures
        s@ == utf8_lossy(bytes@),
        vstd::utf8::valid_utf8(bytes@) ==> s@ == vstd::utf8::decode_utf8(bytes@),
{
    text_of_bytes(bytes)
}

/// A proper start of a string comes before it, and of two strings with a common start the one with the
/// smaller next character comes first, whatever follows.
pub proof fn the_first_difference_decides(
    common: Seq<char>,
    x: char,
    y: char,
    a: Seq<char>,
    b: Seq<char>,
)
    ensures
        a.len() > 0 ==> text_before(common, common + a),
        (x as int) < (y as int) ==> text_before(common + seq![x] + a, common + seq![y] + b),
        (x as int) < (y as int) ==> !text_before(common + seq![y] + b, common + seq![x] + a),
{
    let n = common.len() as int;
    if a.len() > 0 {
        assert(agree(common, common + a, n));
    }
    if (x as int) < (y as int) {
        let s = common + seq![x] + a;
        let t = common + seq![y] + b;
        assert(s[n] == x && t[n] == y);
        assert(agree(s, t, n));
        if text_before(t, s) {
            text_order_is_transitive(s, t, s);
            text_order_is_strict(s);
        }
    }
}

/// The texts of a list are those of its strings, in their order.
pub proof fn texts_are_what_the_strings_hold(list: Seq<String>, i: int)
    requires
        0 <= i < list.len(),
    ensures
        texts(list).len() == list.len(),
        texts(list)[i] == list[i]@,
{
}

/// In an ascending list of strings each comes before the next.
pub proof fn ascending_means_step_by_step(list: Seq<Seq<char>>, i: int)
    requires
        ascending(list),
        0 <= i,
        i + 1 < list.len(),
    ensures
        text_before(list[i], list[i + 1]),
        list[i] != list[i + 1],
{
    text_order_is_strict(list[i]);
}

/// The letters A to Z become those that stand 32 places further on, and every other character stays;
/// doing it again changes nothing.
pub proof fn lower_case_of_ascii_letters(c: char, s: Seq<char>)
    ensures
        65 <= c as int <= 90 ==> ascii_lower(c) as int == c as int + 32,
        !(65 <= c as int <= 90) ==> ascii_lower(c) == c,
        ascii_lower(ascii_lower(c)) == ascii_lower(c),
        ascii_lowercased(s).len() == s.len(),
        forall|i: int| 0 <= i < s.len() ==> #[trigger] ascii_lowercased(s)[i] == ascii_lower(s[i]),
{
}

} // verus!
