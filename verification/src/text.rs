//! Characters, white space and decimal numbers: what the wire format and the
//! configuration are written in.

use vstd::prelude::*;
use vstd::string::*;

verus! {

/// The characters of `s`, in order.
pub fn chars_of(s: &str) -> (v: Vec<char>)
    ensures
        v@ == s@,
{
    let mut v: Vec<char> = Vec::new();
    for c in it: s.chars()
        invariant
            it.seq() == s@,
            v@ == it.seq().take(it.index()),
    {
        v.push(c);
    }
    v
}

/// Whether `v` and `w` hold the same text.
pub fn same_text(v: &Vec<char>, w: &Vec<char>) -> (b: bool)
    ensures
        b == (v@ == w@),
{
    if v.len() != w.len() {
        return false;
    }
    let mut i: usize = 0;
    while i < v.len()
        invariant
            i <= v.len() == w.len(),
            forall|k: int| 0 <= k < i ==> v@[k] == w@[k],
        decreases v.len() - i,
    {
        if v[i] != w[i] {
            return false;
        }
        i += 1;
    }
    assert(v@ =~= w@);
    true
}

/// White space: the characters that Unicode marks as `White_Space`.
pub open spec fn is_whitespace(c: char) -> bool {
    let n = c as int;
    ||| 0x09 <= n <= 0x0D
    ||| n == 0x20
    ||| n == 0x85
    ||| n == 0xA0
    ||| n == 0x1680
    ||| 0x2000 <= n <= 0x200A
    ||| n == 0x2028
    ||| n == 0x2029
    ||| n == 0x202F
    ||| n == 0x205F
    ||| n == 0x3000
}

/// The number of the character `c` in Unicode.
pub fn code_point(c: char) -> (n: u32)
    ensures
        n == c as int,
{
    c as u32
}

/// Whether `c` is white space.
pub fn char_is_whitespace(c: char) -> (b: bool)
    ensures
        b == is_whitespace(c),
{
    let n: u32 = code_point(c);
    (0x09 <= n && n <= 0x0D) || n == 0x20 || n == 0x85 || n == 0xA0 || n == 0x1680 || (0x2000 <= n
        && n <= 0x200A) || n == 0x2028 || n == 0x2029 || n == 0x202F || n == 0x205F || n == 0x3000
}

/// `s` without the white space it starts with.
pub open spec fn trim_start(s: Seq<char>) -> Seq<char>
    decreases s.len(),
{
    if s.len() > 0 && is_whitespace(s[0]) {
        trim_start(s.drop_first())
    } else {
        s
    }
}

/// `s` without the white space it ends with.
pub open spec fn trim_end(s: Seq<char>) -> Seq<char>
    decreases s.len(),
{
    if s.len() > 0 && is_whitespace(s.last()) {
        trim_end(s.drop_last())
    } else {
        s
    }
}

/// `s` without the white space around it.
pub open spec fn trim(s: Seq<char>) -> Seq<char> {
    trim_end(trim_start(s))
}

/// Where the trimmed text lies in `v`.
pub(crate) fn trim_bounds(v: &Vec<char>) -> (r: (usize, usize))
    ensures
        r.0 <= r.1 <= v.len(),
        v@.subrange(r.0 as int, r.1 as int) == trim(v@),
{
    let n = v.len();
    let mut lo: usize = 0;
    assert(v@.subrange(0, n as int) == v@);
    while lo < n && char_is_whitespace(v[lo])
        invariant
            lo <= n == v.len(),
            trim_start(v@) == trim_start(v@.subrange(lo as int, n as int)),
        decreases n - lo,
    {
        assert(v@.subrange(lo as int, n as int).drop_first() == v@.subrange(lo + 1, n as int));
        lo += 1;
    }
    let mut hi: usize = n;
    while hi > lo && char_is_whitespace(v[hi - 1])
        invariant
            lo <= hi <= n == v.len(),
            trim_end(v@.subrange(lo as int, n as int)) == trim_end(
                v@.subrange(lo as int, hi as int),
            ),
        decreases hi,
    {
        assert(v@.subrange(lo as int, hi as int).drop_last() == v@.subrange(lo as int, hi - 1));
        hi -= 1;
    }
    (lo, hi)
}

/// A decimal digit.
pub open spec fn is_digit(c: char) -> bool {
    0x30 <= c as int <= 0x39
}

/// The number that the digit `c` stands for.
pub open spec fn digit_value(c: char) -> nat {
    (c as int - 0x30) as nat
}

/// The digit that stands for `d`, for `d` below ten.
pub open spec fn digit_char(d: nat) -> char {
    (0x30 + d) as char
}

/// Every character of `s` is a digit.
pub open spec fn all_digits(s: Seq<char>) -> bool {
    forall|i: int| 0 <= i < s.len() ==> is_digit(#[trigger] s[i])
}

/// The number that a text of digits stands for, read in base ten.
pub open spec fn decimal_value(s: Seq<char>) -> nat
    decreases s.len(),
{
    if s.len() == 0 {
        0
    } else {
        decimal_value(s.drop_last()) * 10 + digit_value(s.last())
    }
}

/// One digit or more, and nothing else.
pub open spec fn is_decimal(s: Seq<char>) -> bool {
    s.len() > 0 && all_digits(s)
}

/// A decimal number written the shortest way: no needless zero in front.
pub open spec fn is_canonical_decimal(s: Seq<char>) -> bool {
    is_decimal(s) && (s.len() == 1 || s[0] != '0')
}

/// The number that `s` stands for, where `s` is a decimal number of at most
/// `max`.
pub open spec fn decimal_up_to(s: Seq<char>, max: nat) -> Option<u32> {
    if is_decimal(s) && decimal_value(s) <= max && max <= u32::MAX {
        Some(decimal_value(s) as u32)
    } else {
        None
    }
}

/// The number that `s` stands for, where `s` is the shortest decimal text of
/// a number of at most `max`.
pub open spec fn canonical_up_to(s: Seq<char>, max: nat) -> Option<u32> {
    if is_canonical_decimal(s) {
        decimal_up_to(s, max)
    } else {
        None
    }
}

/// The shortest decimal text of `n`.
pub open spec fn decimal_digits(n: nat) -> Seq<char>
    decreases n,
{
    if n < 10 {
        seq![digit_char(n)]
    } else {
        decimal_digits(n / 10).push(digit_char(n % 10))
    }
}

/// Each number below ten has its digit.
pub proof fn lemma_digit_char(d: nat)
    requires
        d < 10,
    ensures
        is_digit(digit_char(d)),
        digit_value(digit_char(d)) == d,
{
}

/// Each digit stands for a number below ten, and for no other digit's.
pub proof fn lemma_digit_value(c: char)
    requires
        is_digit(c),
    ensures
        digit_value(c) < 10,
        digit_char(digit_value(c)) == c,
{
}

/// The value of a text of digits is at least the value of each of its
/// beginnings.
pub proof fn lemma_decimal_value_grows(s: Seq<char>, k: int)
    requires
        all_digits(s),
        0 <= k <= s.len(),
    ensures
        decimal_value(s.take(k)) <= decimal_value(s),
    decreases s.len(),
{
    if k == s.len() {
        assert(s.take(k) == s);
    } else {
        lemma_decimal_value_grows(s.drop_last(), k);
        assert(s.drop_last().take(k) == s.take(k));
    }
}

/// `decimal_digits(n)` is the shortest decimal text, and it stands for `n`.
pub proof fn lemma_decimal_digits(n: nat)
    ensures
        is_canonical_decimal(decimal_digits(n)),
        decimal_value(decimal_digits(n)) == n,
        n >= 1 ==> decimal_digits(n)[0] != '0',
    decreases n,
{
    if n < 10 {
        lemma_digit_char(n);
        let s = decimal_digits(n);
        assert(s.drop_last() == Seq::<char>::empty());
        assert(decimal_value(s.drop_last()) == 0);
    } else {
        lemma_decimal_digits(n / 10);
        lemma_digit_char(n % 10);
        let t = decimal_digits(n / 10);
        let s = decimal_digits(n);
        assert(s.drop_last() == t);
        assert(s[0] == t[0]);
    }
}

/// A text of digits that does not start with a zero stands for a number that
/// is not zero.
pub proof fn lemma_leading_digit(s: Seq<char>)
    requires
        is_decimal(s),
        s[0] != '0',
    ensures
        decimal_value(s) >= 1,
    decreases s.len(),
{
    if s.len() == 1 {
        assert(s.drop_last() == Seq::<char>::empty());
        assert(decimal_value(s.drop_last()) == 0);
        assert(is_digit(s[0]));
    } else {
        let t = s.drop_last();
        assert(t[0] == s[0]);
        assert forall|i: int| 0 <= i < t.len() implies is_digit(#[trigger] t[i]) by {
            assert(t[i] == s[i]);
        }
        lemma_leading_digit(t);
    }
}

/// A number has one shortest decimal text.
pub proof fn lemma_canonical_decimal_unique(s: Seq<char>)
    requires
        is_canonical_decimal(s),
    ensures
        decimal_digits(decimal_value(s)) == s,
    decreases s.len(),
{
    let t = s.drop_last();
    let c = s.last();
    assert(is_digit(c));
    lemma_digit_value(c);
    if s.len() == 1 {
        assert(t == Seq::<char>::empty());
        assert(decimal_value(t) == 0);
        assert(decimal_digits(decimal_value(s)) == seq![c]);
    } else {
        assert(t[0] == s[0]);
        lemma_leading_digit(t);
        lemma_canonical_decimal_unique(t);
        let n = decimal_value(s);
        assert(n == decimal_value(t) * 10 + digit_value(c));
        assert(n / 10 == decimal_value(t));
        assert(n % 10 == digit_value(c));
        assert(t.push(c) == s);
    }
}

/// Reads `v[lo..hi]` as a decimal number of at most `max`.
pub(crate) fn parse_decimal(v: &Vec<char>, lo: usize, hi: usize, max: u32) -> (r: Option<u32>)
    requires
        lo <= hi <= v.len(),
    ensures
        r == decimal_up_to(v@.subrange(lo as int, hi as int), max as nat),
{
    let ghost whole = v@.subrange(lo as int, hi as int);
    if lo == hi {
        return None;
    }
    let mut acc: u64 = 0;
    let mut i: usize = lo;
    while i < hi
        invariant
            lo <= i <= hi <= v.len(),
            whole == v@.subrange(lo as int, hi as int),
            all_digits(whole.take(i - lo)),
            acc == decimal_value(whole.take(i - lo)),
            acc <= max,
        decreases hi - i,
    {
        let c = v[i];
        let n: u32 = code_point(c);
        let ghost before = whole.take(i - lo);
        let ghost after = whole.take(i + 1 - lo);
        assert(after.drop_last() == before);
        assert(after.last() == c);
        if n < 0x30 || n > 0x39 {
            assert(!is_digit(whole[i - lo]));
            return None;
        }
        acc = acc * 10 + (n - 0x30) as u64;
        assert(acc == decimal_value(after));
        if acc > max as u64 {
            proof {
                if all_digits(whole) {
                    lemma_decimal_value_grows(whole, i + 1 - lo);
                }
            }
            return None;
        }
        assert forall|j: int| 0 <= j < after.len() implies is_digit(#[trigger] after[j]) by {
            if j < before.len() {
                assert(after[j] == before[j]);
            }
        }
        i += 1;
    }
    assert(whole.take(hi - lo) == whole);
    Some(acc as u32)
}

/// The text of one digit.
fn digit_str(d: u8) -> (s: &'static str)
    requires
        d < 10,
    ensures
        s@ == seq![digit_char(d as nat)],
{
    proof {
        reveal_strlit("0");
        reveal_strlit("1");
        reveal_strlit("2");
        reveal_strlit("3");
        reveal_strlit("4");
        reveal_strlit("5");
        reveal_strlit("6");
        reveal_strlit("7");
        reveal_strlit("8");
        reveal_strlit("9");
    }
    let s = if d == 0 {
        "0"
    } else if d == 1 {
        "1"
    } else if d == 2 {
        "2"
    } else if d == 3 {
        "3"
    } else if d == 4 {
        "4"
    } else if d == 5 {
        "5"
    } else if d == 6 {
        "6"
    } else if d == 7 {
        "7"
    } else if d == 8 {
        "8"
    } else {
        "9"
    };
    assert(s@ =~= seq![digit_char(d as nat)]);
    s
}

/// Appends the shortest decimal text of `n` to `out`.
pub fn push_decimal(out: &mut String, n: u8)
    ensures
        final(out)@ == old(out)@ + decimal_digits(n as nat),
{
    let ghost start = out@;
    if n >= 100 {
        out.append(digit_str(n / 100));
    }
    if n >= 10 {
        out.append(digit_str((n / 10) % 10));
    }
    out.append(digit_str(n % 10));
    proof {
        let m = n as nat;
        if m >= 100 {
            assert(decimal_digits(m / 10 / 10) == seq![digit_char(m / 100)]);
            assert(decimal_digits(m / 10) == seq![digit_char(m / 100)].push(
                digit_char((m / 10) % 10),
            ));
        } else if m >= 10 {
            assert(decimal_digits(m / 10) == seq![digit_char(m / 10)]);
        }
        assert(out@ =~= start + decimal_digits(m));
    }
}

/// Reads `v[lo..hi]` as the shortest decimal text of a number of at most
/// `max`.
pub(crate) fn parse_canonical(v: &Vec<char>, lo: usize, hi: usize, max: u32) -> (r: Option<u32>)
    requires
        lo <= hi <= v.len(),
    ensures
        r == canonical_up_to(v@.subrange(lo as int, hi as int), max as nat),
{
    if hi - lo > 1 && v[lo] == '0' {
        assert(v@.subrange(lo as int, hi as int)[0] == v@[lo as int]);
        return None;
    }
    assert(hi - lo > 1 ==> v@.subrange(lo as int, hi as int)[0] == v@[lo as int]);
    parse_decimal(v, lo, hi, max)
}

/// Where `c` first stands in `s`; the length of `s` where it does not.
pub open spec fn find(s: Seq<char>, c: char) -> int
    decreases s.len(),
{
    if s.len() == 0 || s[0] == c {
        0
    } else {
        1 + find(s.drop_first(), c)
    }
}

/// The pieces of `s` between the separators `sep`. A text without a separator
/// is one piece, and so is the empty text.
pub open spec fn split(s: Seq<char>, sep: char) -> Seq<Seq<char>>
    decreases s.len(),
{
    let i = find(s, sep);
    if 0 <= i < s.len() {
        seq![s.take(i)] + split(s.skip(i + 1), sep)
    } else {
        seq![s]
    }
}

/// `find` gives the first place of `c`.
pub proof fn lemma_find(s: Seq<char>, c: char, i: int)
    requires
        0 <= i <= s.len(),
        forall|k: int| 0 <= k < i ==> s[k] != c,
        i < s.len() ==> s[i] == c,
    ensures
        find(s, c) == i,
    decreases s.len(),
{
    if i > 0 {
        let t = s.drop_first();
        assert forall|k: int| 0 <= k < i - 1 implies t[k] != c by {
            assert(t[k] == s[k + 1]);
        }
        lemma_find(t, c, i - 1);
    }
}

/// The pieces of `v[lo..hi]` between the separators `sep`, each given by
/// where it starts and where it ends in `v`.
pub(crate) fn split_ranges(v: &Vec<char>, lo: usize, hi: usize, sep: char) -> (r: Vec<(usize, usize)>)
    requires
        lo <= hi <= v.len(),
    ensures
        r@.len() == split(v@.subrange(lo as int, hi as int), sep).len(),
        forall|k: int|
            0 <= k < r@.len() ==> lo <= (#[trigger] r@[k]).0 <= r@[k].1 <= hi && v@.subrange(
                r@[k].0 as int,
                r@[k].1 as int,
            ) == split(v@.subrange(lo as int, hi as int), sep)[k],
{
    let ghost whole = v@.subrange(lo as int, hi as int);
    let ghost mut done: Seq<Seq<char>> = Seq::empty();
    let mut pieces: Vec<(usize, usize)> = Vec::new();
    let mut start: usize = lo;
    let mut j: usize = lo;
    while j < hi
        invariant
            lo <= start <= j <= hi <= v.len(),
            whole == v@.subrange(lo as int, hi as int),
            forall|k: int| start <= k < j ==> v@[k] != sep,
            split(whole, sep) == done + split(v@.subrange(start as int, hi as int), sep),
            done.len() == pieces@.len(),
            forall|k: int|
                0 <= k < pieces@.len() ==> lo <= (#[trigger] pieces@[k]).0 <= pieces@[k].1 <= hi
                    && v@.subrange(pieces@[k].0 as int, pieces@[k].1 as int) == done[k],
        decreases hi - j,
    {
        if v[j] == sep {
            let ghost rest = v@.subrange(start as int, hi as int);
            proof {
                assert forall|k: int| 0 <= k < j - start implies rest[k] != sep by {
                    assert(rest[k] == v@[start + k]);
                }
                lemma_find(rest, sep, j - start);
                assert(rest.take(j - start) == v@.subrange(start as int, j as int));
                assert(rest.skip(j - start + 1) == v@.subrange(j + 1, hi as int));
                assert(done + (seq![rest.take(j - start)] + split(rest.skip(j - start + 1), sep))
                    == done.push(rest.take(j - start)) + split(rest.skip(j - start + 1), sep));
                done = done.push(v@.subrange(start as int, j as int));
            }
            pieces.push((start, j));
            start = j + 1;
        }
        j += 1;
    }
    proof {
        let rest = v@.subrange(start as int, hi as int);
        assert forall|k: int| 0 <= k < rest.len() implies rest[k] != sep by {
            assert(rest[k] == v@[start + k]);
        }
        lemma_find(rest, sep, rest.len() as int);
        assert(split(rest, sep) == seq![rest]);
        assert(done + seq![rest] == done.push(rest));
        done = done.push(rest);
    }
    pieces.push((start, hi));
    pieces
}

} // verus!
