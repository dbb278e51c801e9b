//! Character-level string helpers with exact specifications.
use vstd::prelude::*;
use vstd::string::*;

verus! {

broadcast use vstd::string::group_string_axioms;

/// The characters of `s`, in order.
pub fn chars_of(s: &str) -> (res: Vec<char>)
    ensures
        res@ == s@,
{
    let mut v: Vec<char> = Vec::new();
    for c in it: s.chars()
        invariant
            v@ == it.history(),
    {
        v.push(c);
    }
    v
}

/// `needle` occurs in `hay` starting at position `i`.
pub open spec fn occurs_at(hay: Seq<char>, needle: Seq<char>, i: int) -> bool {
    &&& 0 <= i
    &&& i + needle.len() <= hay.len()
    &&& hay.subrange(i, i + needle.len()) == needle
}

/// The first position at or after `start` where `needle` occurs in `hay`.
pub open spec fn find_from_spec(hay: Seq<char>, needle: Seq<char>, start: int) -> Option<int>
    decreases hay.len() + 1 - start,
{
    if start < 0 || start + needle.len() > hay.len() {
        None
    } else if hay.subrange(start, start + needle.len()) == needle {
        Some(start)
    } else {
        find_from_spec(hay, needle, start + 1)
    }
}

/// `needle` occurs somewhere in `hay`.
pub open spec fn contains_spec(hay: Seq<char>, needle: Seq<char>) -> bool {
    find_from_spec(hay, needle, 0) is Some
}

/// What `find_from_spec` returns is the first occurrence at or after `start`.
pub proof fn lemma_find_from(hay: Seq<char>, needle: Seq<char>, start: int)
    requires
        0 <= start,
    ensures
        match find_from_spec(hay, needle, start) {
            Some(i) => start <= i && occurs_at(hay, needle, i) && forall|j: int|
                start <= j < i ==> !occurs_at(hay, needle, j),
            None => forall|j: int| start <= j ==> !occurs_at(hay, needle, j),
        },
    decreases hay.len() + 1 - start,
{
    if start + needle.len() > hay.len() {
    } else if hay.subrange(start, start + needle.len()) == needle {
    } else {
        lemma_find_from(hay, needle, start + 1);
    }
}

/// An occurrence at any position makes `contains_spec` true.
pub proof fn lemma_contains_occurrence(hay: Seq<char>, needle: Seq<char>, i: int)
    requires
        occurs_at(hay, needle, i),
    ensures
        contains_spec(hay, needle),
{
    lemma_find_from(hay, needle, 0);
}

/// A text contains each of the pieces it is made of.
pub proof fn lemma_contains_piece(a: Seq<char>, x: Seq<char>, b: Seq<char>)
    ensures
        contains_spec(a + x + b, x),
{
    let h = a + x + b;
    assert(h.subrange(a.len() as int, (a.len() + x.len()) as int) =~= x);
    lemma_contains_occurrence(h, x, a.len() as int);
}

/// Containment is transitive.
pub proof fn lemma_contains_trans(h: Seq<char>, x: Seq<char>, n: Seq<char>)
    requires
        contains_spec(h, x),
        contains_spec(x, n),
    ensures
        contains_spec(h, n),
{
    lemma_find_from(h, x, 0);
    lemma_find_from(x, n, 0);
    let i = find_from_spec(h, x, 0).unwrap();
    let j = find_from_spec(x, n, 0).unwrap();
    assert forall|k: int| 0 <= k < n.len() implies #[trigger] h[i + j + k] == n[k] by {
        assert(h.subrange(i, i + x.len())[j + k] == h[i + j + k]);
        assert(x.subrange(j, j + n.len())[k] == x[j + k]);
    }
    assert(h.subrange(i + j, i + j + n.len()) =~= n);
    lemma_contains_occurrence(h, n, i + j);
}

/// Whether `needle` occurs in `hay` at position `i`.
pub fn occurs_at_exec(hay: &Vec<char>, needle: &Vec<char>, i: usize) -> (res: bool)
    ensures
        res == occurs_at(hay@, needle@, i as int),
{
    if i > hay.len() || needle.len() > hay.len() - i {
        return false;
    }
    let mut k: usize = 0;
    while k < needle.len()
        invariant
            i + needle.len() <= hay.len(),
            0 <= k <= needle.len(),
            forall|j: int| 0 <= j < k ==> hay@[i + j] == needle@[j],
        decreases needle.len() - k,
    {
        if hay[i + k] != needle[k] {
            assert(hay@.subrange(i as int, i + needle.len())[k as int] != needle@[k as int]);
            return false;
        }
        k = k + 1;
    }
    assert(hay@.subrange(i as int, i + needle.len()) =~= needle@);
    true
}

/// The first position at or after `start` where `needle` occurs in `hay`.
pub fn find_from(hay: &Vec<char>, needle: &Vec<char>, start: usize) -> (res: Option<usize>)
    ensures
        match res {
            Some(i) => find_from_spec(hay@, needle@, start as int) == Some(i as int),
            None => find_from_spec(hay@, needle@, start as int) is None,
        },
{
    if needle.len() == 0 {
        if start <= hay.len() {
            assert(hay@.subrange(start as int, start as int) =~= needle@);
            return Some(start);
        } else {
            return None;
        }
    }
    let mut i = start;
    while i < hay.len() && needle.len() <= hay.len() - i
        invariant
            start <= i,
            needle.len() > 0,
            find_from_spec(hay@, needle@, start as int) == find_from_spec(hay@, needle@, i as int),
        decreases hay.len() - i,
    {
        if occurs_at_exec(hay, needle, i) {
            return Some(i);
        }
        i = i + 1;
    }
    None
}

/// `prefix` is a prefix of `s`.
pub open spec fn starts_with_spec(s: Seq<char>, prefix: Seq<char>) -> bool {
    prefix.len() <= s.len() && s.subrange(0, prefix.len() as int) == prefix
}

/// Whether `s` starts with `prefix`.
pub fn starts_with(s: &Vec<char>, prefix: &Vec<char>) -> (res: bool)
    ensures
        res == starts_with_spec(s@, prefix@),
{
    occurs_at_exec(s, prefix, 0)
}

/// Whether `text` starts with the string `prefix`.
pub fn str_starts_with(text: &str, prefix: &str) -> (res: bool)
    ensures
        res == starts_with_spec(text@, prefix@),
{
    let t = chars_of(text);
    let p = chars_of(prefix);
    starts_with(&t, &p)
}

/// Whether `needle` occurs somewhere in `hay`.
pub fn str_contains(hay: &str, needle: &str) -> (res: bool)
    ensures
        res == contains_spec(hay@, needle@),
{
    let h = chars_of(hay);
    let n = chars_of(needle);
    find_from(&h, &n, 0).is_some()
}

/// Unicode `White_Space`, which is what `char::is_whitespace` tests.
pub open spec fn is_whitespace_spec(c: char) -> bool {
    ||| c == ' '
    ||| ('\t' <= c && c <= '\r')
    ||| c == '\u{85}'
    ||| c == '\u{a0}'
    ||| c == '\u{1680}'
    ||| ('\u{2000}' <= c && c <= '\u{200a}')
    ||| c == '\u{2028}'
    ||| c == '\u{2029}'
    ||| c == '\u{202f}'
    ||| c == '\u{205f}'
    ||| c == '\u{3000}'
}

/// Whether `c` is white space.
pub fn is_whitespace(c: char) -> (res: bool)
    ensures
        res == is_whitespace_spec(c),
{
    c == ' ' || ('\t' <= c && c <= '\r') || c == '\u{85}' || c == '\u{a0}' || c == '\u{1680}' || (
    '\u{2000}' <= c && c <= '\u{200a}') || c == '\u{2028}' || c == '\u{2029}' || c == '\u{202f}'
        || c == '\u{205f}' || c == '\u{3000}'
}

/// `s` without its leading white space.
pub open spec fn trim_start_spec(s: Seq<char>) -> Seq<char>
    decreases s.len(),
{
    if s.len() > 0 && is_whitespace_spec(s[0]) {
        trim_start_spec(s.drop_first())
    } else {
        s
    }
}

/// `s` without its trailing white space.
pub open spec fn trim_end_spec(s: Seq<char>) -> Seq<char>
    decreases s.len(),
{
    if s.len() > 0 && is_whitespace_spec(s.last()) {
        trim_end_spec(s.drop_last())
    } else {
        s
    }
}

/// `s` without leading and trailing white space, as `str::trim` gives it.
pub open spec fn trim_spec(s: Seq<char>) -> Seq<char> {
    trim_end_spec(trim_start_spec(s))
}

proof fn lemma_trim_start(s: Seq<char>) -> (lo: int)
    ensures
        0 <= lo <= s.len(),
        trim_start_spec(s) == s.subrange(lo, s.len() as int),
        forall|k: int| 0 <= k < lo ==> is_whitespace_spec(#[trigger] s[k]),
        lo < s.len() ==> !is_whitespace_spec(s[lo]),
    decreases s.len(),
{
    if s.len() > 0 && is_whitespace_spec(s[0]) {
        let t = s.drop_first();
        let l = lemma_trim_start(t);
        assert(t.subrange(l, t.len() as int) =~= s.subrange(l + 1, s.len() as int));
        assert forall|k: int| 0 <= k < l + 1 implies is_whitespace_spec(#[trigger] s[k]) by {
            if k > 0 {
                assert(s[k] == t[k - 1]);
            }
        }
        l + 1
    } else {
        assert(s.subrange(0, s.len() as int) =~= s);
        0
    }
}

proof fn lemma_trim_end(s: Seq<char>) -> (hi: int)
    ensures
        0 <= hi <= s.len(),
        trim_end_spec(s) == s.subrange(0, hi),
        forall|k: int| hi <= k < s.len() ==> is_whitespace_spec(#[trigger] s[k]),
        hi > 0 ==> !is_whitespace_spec(s[hi - 1]),
    decreases s.len(),
{
    if s.len() > 0 && is_whitespace_spec(s.last()) {
        let t = s.drop_last();
        let h = lemma_trim_end(t);
        assert(t.subrange(0, h) =~= s.subrange(0, h));
        assert forall|k: int| h <= k < s.len() implies is_whitespace_spec(#[trigger] s[k]) by {
            if k < s.len() - 1 {
                assert(s[k] == t[k]);
            }
        }
        h
    } else {
        assert(s.subrange(0, s.len() as int) =~= s);
        s.len() as int
    }
}

/// Trimming removes exactly the white space at both ends: the result is a
/// stretch of the text that neither starts nor ends with white space, and
/// everything cut off before and after it is white space.
pub proof fn lemma_trim_cuts_only_white_space(s: Seq<char>)
    ensures
        exists|lo: int, hi: int|
            0 <= lo <= hi <= s.len() && trim_spec(s) == #[trigger] s.subrange(lo, hi) && (forall|k: int|
                0 <= k < lo ==> is_whitespace_spec(#[trigger] s[k])) && (forall|k: int|
                hi <= k < s.len() ==> is_whitespace_spec(#[trigger] s[k])) && (lo < hi
                ==> !is_whitespace_spec(s[lo]) && !is_whitespace_spec(s[hi - 1])),
{
    let lo = lemma_trim_start(s);
    let mid = s.subrange(lo, s.len() as int);
    let h = lemma_trim_end(mid);
    let hi = lo + h;
    assert(mid.subrange(0, h) =~= s.subrange(lo, hi));
    assert forall|k: int| hi <= k < s.len() implies is_whitespace_spec(#[trigger] s[k]) by {
        assert(s[k] == mid[k - lo]);
    }
    if lo < hi {
        assert(s[lo] == mid[0]);
        assert(s[hi - 1] == mid[h - 1]);
    }
    assert(trim_spec(s) == s.subrange(lo, hi));
}

/// `s` without leading and trailing white space.
pub fn trim(s: &str) -> (res: String)
    ensures
        res@ == trim_spec(s@),
{
    let c = chars_of(s);
    let n = c.len();
    let mut lo: usize = 0;
    assert(s@.subrange(0, n as int) =~= s@);
    while lo < n && is_whitespace(c[lo])
        invariant
            c@ == s@,
            n == c.len(),
            lo <= n,
            trim_start_spec(s@) == trim_start_spec(s@.subrange(lo as int, n as int)),
        decreases n - lo,
    {
        assert(s@.subrange(lo as int, n as int).drop_first() =~= s@.subrange(lo + 1, n as int));
        lo = lo + 1;
    }
    let mut hi: usize = n;
    while hi > lo && is_whitespace(c[hi - 1])
        invariant
            c@ == s@,
            n == c.len(),
            lo <= hi <= n,
            trim_end_spec(s@.subrange(lo as int, n as int)) == trim_end_spec(
                s@.subrange(lo as int, hi as int),
            ),
        decreases hi - lo,
    {
        assert(s@.subrange(lo as int, hi as int).drop_last() =~= s@.subrange(lo as int, hi - 1));
        hi = hi - 1;
    }
    let ghost mid = s@.subrange(lo as int, n as int);
    assert(trim_start_spec(s@) == mid);
    assert(trim_end_spec(mid) == s@.subrange(lo as int, hi as int));
    String::from_str(s.substring_char(lo, hi))
}

/// The decimal text of one digit.
pub open spec fn digit_text(d: nat) -> Seq<char> {
    if d == 0 {
        "0"@
    } else if d == 1 {
        "1"@
    } else if d == 2 {
        "2"@
    } else if d == 3 {
        "3"@
    } else if d == 4 {
        "4"@
    } else if d == 5 {
        "5"@
    } else if d == 6 {
        "6"@
    } else if d == 7 {
        "7"@
    } else if d == 8 {
        "8"@
    } else {
        "9"@
    }
}

/// The decimal text of `n`, without sign or leading zeros.
pub open spec fn decimal(n: nat) -> Seq<char>
    decreases n,
{
    if n < 10 {
        digit_text(n)
    } else {
        decimal(n / 10) + digit_text(n % 10)
    }
}

/// The number a string of decimal digits denotes.
pub open spec fn digits_value(s: Seq<char>) -> int
    decreases s.len(),
{
    if s.len() == 0 {
        0
    } else {
        digits_value(s.drop_last()) * 10 + (s.last() as int - '0' as int)
    }
}

proof fn lemma_digit_text(d: nat)
    requires
        d < 10,
    ensures
        digit_text(d).len() == 1,
        '0' <= digit_text(d)[0] <= '9',
        digit_text(d)[0] as int - '0' as int == d,
{
    reveal_strlit("0");
    reveal_strlit("1");
    reveal_strlit("2");
    reveal_strlit("3");
    reveal_strlit("4");
    reveal_strlit("5");
    reveal_strlit("6");
    reveal_strlit("7");
    reveal_strlit("8");
    reveal_strlit("9");
}

/// The decimal text of a number is made of digits, starts with `0` only for
/// zero itself, and denotes that number.
pub proof fn lemma_decimal_denotes(n: nat)
    ensures
        decimal(n).len() >= 1,
        forall|i: int| 0 <= i < decimal(n).len() ==> '0' <= #[trigger] decimal(n)[i] <= '9',
        decimal(n)[0] == '0' ==> n == 0 && decimal(n).len() == 1,
        digits_value(decimal(n)) == n,
    decreases n,
{
    if n < 10 {
        lemma_digit_text(n);
        let d = decimal(n);
        assert(d.drop_last() =~= Seq::<char>::empty());
        assert(digits_value(d.drop_last()) == 0);
        assert(d.last() == d[0]);
        assert(digits_value(d) == digits_value(d.drop_last()) * 10 + (d.last() as int - '0' as int));
    } else {
        let q = n / 10;
        let r = n % 10;
        assert(n == q * 10 + r) by (nonlinear_arith)
            requires
                q == n / 10,
                r == n % 10,
        ;
        lemma_decimal_denotes(q);
        lemma_digit_text(r);
        let d = decimal(n);
        assert(d == decimal(q) + digit_text(r));
        assert(d.drop_last() =~= decimal(q));
        assert(d.last() == digit_text(r)[0]);
        assert(d[0] == decimal(q)[0]);
        assert(digits_value(d) == digits_value(d.drop_last()) * 10 + (d.last() as int - '0' as int));
        assert(digits_value(d) == q * 10 + r);
        assert forall|i: int| 0 <= i < d.len() implies '0' <= #[trigger] d[i] <= '9' by {
            if i < decimal(q).len() {
                assert(d[i] == decimal(q)[i]);
            } else {
                assert(d[i] == digit_text(r)[0]);
            }
        }
    }
}

fn digit_str(d: u64) -> (res: &'static str)
    requires
        d < 10,
    ensures
        res@ == digit_text(d as nat),
{
    if d == 0 {
        "0"
    } else if d == 1 {
        "1"
    } else if d == 2 {
        "2"
    } else if d == 3 {
        "3"
    } else if d == 4 {
        "4"
    } else if d == 5 {
        "5"
    } else if d == 6 {
        "6"
    } else if d == 7 {
        "7"
    } else if d == 8 {
        "8"
    } else {
        "9"
    }
}

/// The decimal text of `n`.
pub fn decimal_string(n: u64) -> (res: String)
    ensures
        res@ == decimal(n as nat),
    decreases n,
{
    if n < 10 {
        String::from_str(digit_str(n))
    } else {
        let mut s = decimal_string(n / 10);
        s.append(digit_str(n % 10));
        s
    }
}

} // verus!
