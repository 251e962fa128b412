//! Text as sequences of characters: splitting, trimming, and decimal numbers.

use vstd::prelude::*;

verus! {

/// The characters of a string, in order.
pub fn chars_of(s: &str) -> (v: Vec<char>)
    ensures
        v@ == s@,
{
    let mut v: Vec<char> = Vec::new();
    for c in it: s.chars()
        invariant
            it.seq() == s@,
            v.len() == it.index(),
            forall|j: int| 0 <= j < v.len() ==> v@[j] == it.seq()[j],
    {
        v.push(c);
    }
    v
}

/// Appends one character with `String::push`, which adds it at the end of the
/// string and changes nothing else.
#[verifier::external_body]
fn push_char(s: &mut String, c: char)
    ensures
        final(s)@ == old(s)@.push(c),
{
    s.push(c);
}

/// The string that holds the given characters.
pub fn string_of(v: &Vec<char>) -> (s: String)
    ensures
        s@ == v@,
{
    let mut s = String::new();
    let mut i: usize = 0;
    while i < v.len()
        invariant
            i <= v.len(),
            s@ == v@.take(i as int),
        decreases v.len() - i,
    {
        push_char(&mut s, v[i]);
        assert(v@.take(i as int).push(v@[i as int]) == v@.take(i + 1));
        i += 1;
    }
    assert(v@.take(v.len() as int) == v@);
    s
}

/// A copy of the characters from `from` up to `to`.
pub fn slice_of(v: &Vec<char>, from: usize, to: usize) -> (r: Vec<char>)
    requires
        from <= to <= v.len(),
    ensures
        r@ == v@.subrange(from as int, to as int),
{
    let mut r: Vec<char> = Vec::new();
    let mut i: usize = from;
    while i < to
        invariant
            from <= i <= to <= v.len(),
            r@ == v@.subrange(from as int, i as int),
        decreases to - i,
    {
        r.push(v[i]);
        assert(v@.subrange(from as int, i as int).push(v@[i as int]) == v@.subrange(
            from as int,
            i + 1,
        ));
        i += 1;
    }
    r
}

/// Whether two runs of characters are the same.
pub fn same_chars(a: &Vec<char>, b: &Vec<char>) -> (r: bool)
    ensures
        r == (a@ == b@),
{
    if a.len() != b.len() {
        return false;
    }
    let mut i: usize = 0;
    while i < a.len()
        invariant
            i <= a.len(),
            a.len() == b.len(),
            forall|j: int| 0 <= j < i ==> a@[j] == b@[j],
        decreases a.len() - i,
    {
        if a[i] != b[i] {
            return false;
        }
        i += 1;
    }
    assert(a@ =~= b@);
    true
}

/// Whether the characters are exactly those of `text`.
pub fn is_text(v: &Vec<char>, text: &str) -> (r: bool)
    ensures
        r == (v@ == text@),
{
    let t = chars_of(text);
    same_chars(v, &t)
}

/// The characters that count as white space: those that Unicode gives the
/// property White_Space.
pub open spec fn is_space(c: char) -> bool {
    let n = c as u32;
    ||| 0x09 <= n <= 0x0D
    ||| n == 0x20
    ||| n == 0x85
    ||| n == 0xA0
    ||| n == 0x1680
    ||| 0x2000 <= n <= 0x200A
    ||| n == 0x2028
    ||| n == 0x2029
    ||| n == 0x202F
    ||| n == 0x205F
    ||| n == 0x3000
}

/// Whether `c` is white space.
pub fn is_whitespace(c: char) -> (r: bool)
    ensures
        r == is_space(c),
{
    let n: u32 = c as u32;
    (0x09 <= n && n <= 0x0D) || n == 0x20 || n == 0x85 || n == 0xA0 || n == 0x1680 || (0x2000 <= n
        && n <= 0x200A) || n == 0x2028 || n == 0x2029 || n == 0x202F || n == 0x205F || n
        == 0x3000
}

/// How many white-space characters `s` starts with.
pub open spec fn leading_spaces(s: Seq<char>) -> nat
    decreases s.len(),
{
    if s.len() > 0 && is_space(s[0]) {
        1 + leading_spaces(s.drop_first())
    } else {
        0
    }
}

/// How many white-space characters `s` ends with.
pub open spec fn trailing_spaces(s: Seq<char>) -> nat
    decreases s.len(),
{
    if s.len() > 0 && is_space(s.last()) {
        1 + trailing_spaces(s.drop_last())
    } else {
        0
    }
}

/// `s` without the white space at its two ends.
pub open spec fn trim(s: Seq<char>) -> Seq<char> {
    if leading_spaces(s) == s.len() {
        Seq::empty()
    } else {
        s.subrange(leading_spaces(s) as int, s.len() - trailing_spaces(s))
    }
}

/// The first `n` characters are white space and the next one, if any, is not:
/// then `n` is the number of leading white-space characters.
pub proof fn lemma_leading_spaces(s: Seq<char>, n: int)
    requires
        0 <= n <= s.len(),
        forall|j: int| 0 <= j < n ==> is_space(#[trigger] s[j]),
        n == s.len() || !is_space(s[n]),
    ensures
        leading_spaces(s) == n,
    decreases n,
{
    if n > 0 {
        let t = s.drop_first();
        assert forall|j: int| 0 <= j < n - 1 implies is_space(#[trigger] t[j]) by {
            assert(t[j] == s[j + 1]);
        }
        lemma_leading_spaces(t, n - 1);
        assert(leading_spaces(s) == 1 + leading_spaces(t));
    } else {
        assert(leading_spaces(s) == 0);
    }
}

/// The last `n` characters are white space and the one before them, if any,
/// is not: then `n` is the number of trailing white-space characters.
pub proof fn lemma_trailing_spaces(s: Seq<char>, n: int)
    requires
        0 <= n <= s.len(),
        forall|j: int| s.len() - n <= j < s.len() ==> is_space(#[trigger] s[j]),
        n == s.len() || !is_space(s[s.len() - n - 1]),
    ensures
        trailing_spaces(s) == n,
    decreases n,
{
    if n > 0 {
        let t = s.drop_last();
        assert forall|j: int| t.len() - (n - 1) <= j < t.len() implies is_space(#[trigger] t[j]) by {
            assert(t[j] == s[j]);
        }
        lemma_trailing_spaces(t, n - 1);
        assert(trailing_spaces(s) == 1 + trailing_spaces(t));
    } else {
        assert(trailing_spaces(s) == 0);
    }
}

/// A copy of `v` without the white space at its two ends.
pub fn trimmed(v: &Vec<char>) -> (r: Vec<char>)
    ensures
        r@ == trim(v@),
{
    let mut a: usize = 0;
    while a < v.len() && is_whitespace(v[a])
        invariant
            a <= v.len(),
            forall|j: int| 0 <= j < a ==> is_space(#[trigger] v@[j]),
        decreases v.len() - a,
    {
        a += 1;
    }
    proof {
        lemma_leading_spaces(v@, a as int);
    }
    if a == v.len() {
        return Vec::new();
    }
    let mut b: usize = v.len();
    while b > a + 1 && is_whitespace(v[b - 1])
        invariant
            a < b <= v.len(),
            !is_space(v@[a as int]),
            forall|j: int| b <= j < v.len() ==> is_space(#[trigger] v@[j]),
        decreases b,
    {
        b -= 1;
    }
    proof {
        lemma_trailing_spaces(v@, v.len() - b);
    }
    slice_of(v, a, b)
}

/// The place of the first `c` in `s`, or the length of `s` if it holds none.
pub open spec fn first_index(s: Seq<char>, c: char) -> int
    decreases s.len(),
{
    if s.len() == 0 {
        0
    } else if s[0] == c {
        0
    } else {
        1 + first_index(s.drop_first(), c)
    }
}

/// No `c` stands before place `n`, and `n` is the end or holds `c`: then `n`
/// is the place of the first `c`.
pub proof fn lemma_first_index(s: Seq<char>, c: char, n: int)
    requires
        0 <= n <= s.len(),
        forall|j: int| 0 <= j < n ==> #[trigger] s[j] != c,
        n == s.len() || s[n] == c,
    ensures
        first_index(s, c) == n,
    decreases n,
{
    if n > 0 {
        let t = s.drop_first();
        assert forall|j: int| 0 <= j < n - 1 implies #[trigger] t[j] != c by {
            assert(t[j] == s[j + 1]);
        }
        lemma_first_index(t, c, n - 1);
        assert(first_index(s, c) == 1 + first_index(t, c));
    } else {
        assert(first_index(s, c) == 0);
    }
}

/// The place of the first `c` at or after `from`, or the length of `v`.
pub fn find_char(v: &Vec<char>, from: usize, c: char) -> (n: usize)
    requires
        from <= v.len(),
    ensures
        from <= n <= v.len(),
        n - from == first_index(v@.skip(from as int), c),
{
    let mut n: usize = from;
    while n < v.len() && v[n] != c
        invariant
            from <= n <= v.len(),
            forall|j: int| from <= j < n ==> #[trigger] v@[j] != c,
        decreases v.len() - n,
    {
        n += 1;
    }
    proof {
        let t = v@.skip(from as int);
        assert forall|j: int| 0 <= j < n - from implies #[trigger] t[j] != c by {
            assert(t[j] == v@[from + j]);
        }
        lemma_first_index(t, c, n - from);
    }
    n
}

/// The parts into which the occurrences of `c` cut `s`: one more part than
/// there are occurrences, none of them holding `c`.
pub open spec fn split(s: Seq<char>, c: char) -> Seq<Seq<char>>
    decreases s.len(),
{
    let n = first_index(s, c);
    if 0 <= n < s.len() {
        seq![s.take(n)] + split(s.skip(n + 1), c)
    } else {
        seq![s]
    }
}

/// What each of the rows holds.
pub open spec fn rows(v: Seq<Vec<char>>) -> Seq<Seq<char>> {
    v.map_values(|row: Vec<char>| row@)
}

/// What each of the strings holds.
pub open spec fn texts(v: Seq<String>) -> Seq<Seq<char>> {
    v.map_values(|s: String| s@)
}

/// The parts into which the occurrences of `c` cut `v`.
pub fn split_at_char(v: &Vec<char>, c: char) -> (parts: Vec<Vec<char>>)
    ensures
        rows(parts@) == split(v@, c),
{
    let mut parts: Vec<Vec<char>> = Vec::new();
    let mut from: usize = 0;
    assert(v@.skip(0) == v@);
    assert(rows(parts@) + split(v@, c) == split(v@, c));
    loop
        invariant_except_break
            from <= v.len(),
            rows(parts@) + split(v@.skip(from as int), c) == split(v@, c),
        ensures
            rows(parts@) == split(v@, c),
        decreases v.len() - from,
    {
        let n = find_char(v, from, c);
        let part = slice_of(v, from, n);
        let ghost rest = v@.skip(from as int);
        let ghost before = rows(parts@);
        assert(rest.take(n - from) == v@.subrange(from as int, n as int));
        assert(split(rest, c) == if 0 <= n - from < rest.len() {
            seq![rest.take(n - from)] + split(rest.skip(n - from + 1), c)
        } else {
            seq![rest]
        });
        parts.push(part);
        assert(rows(parts@) == before.push(part@));
        if n == v.len() {
            assert(rest.take(n - from) == rest);
            break ;
        }
        assert(rest.skip(n - from + 1) == v@.skip(n + 1));
        assert(before.push(part@) + split(v@.skip(n + 1), c) == before + (seq![part@] + split(
            v@.skip(n + 1),
            c,
        )));
        from = n + 1;
    }
    parts
}

/// `s` without one carriage return at its end, if it ends with one.
pub open spec fn strip_return(s: Seq<char>) -> Seq<char> {
    if s.len() > 0 && s.last() == '\r' {
        s.drop_last()
    } else {
        s
    }
}

/// The lines of a text. A line ends with a line feed, or with a carriage
/// return and a line feed; neither belongs to the line. The last line need not
/// end with one, and a text that ends with a line feed has no empty last line.
pub open spec fn lines(s: Seq<char>) -> Seq<Seq<char>>
    decreases s.len(),
{
    let n = first_index(s, '\n');
    if s.len() == 0 {
        Seq::empty()
    } else if 0 <= n < s.len() {
        seq![strip_return(s.take(n))] + lines(s.skip(n + 1))
    } else {
        seq![s]
    }
}

/// The lines of a text.
pub fn split_lines(v: &Vec<char>) -> (r: Vec<Vec<char>>)
    ensures
        rows(r@) == lines(v@),
{
    let mut r: Vec<Vec<char>> = Vec::new();
    let mut from: usize = 0;
    assert(v@.skip(0) == v@);
    assert(rows(r@) + lines(v@) == lines(v@));
    while from < v.len()
        invariant
            from <= v.len(),
            rows(r@) + lines(v@.skip(from as int)) == lines(v@),
        decreases v.len() - from,
    {
        let n = find_char(v, from, '\n');
        let ghost rest = v@.skip(from as int);
        let ghost before = rows(r@);
        assert(rest.take(n - from) == v@.subrange(from as int, n as int));
        assert(lines(rest) == if 0 <= n - from < rest.len() {
            seq![strip_return(rest.take(n - from))] + lines(rest.skip(n - from + 1))
        } else {
            seq![rest]
        });
        if n == v.len() {
            let line = slice_of(v, from, n);
            assert(rest.take(n - from) == rest);
            r.push(line);
            assert(rows(r@) == before.push(line@));
            from = n;
            assert(lines(v@.skip(from as int)) == Seq::<Seq<char>>::empty());
            assert(before.push(line@) + Seq::<Seq<char>>::empty() == before + seq![line@]);
        } else {
            let end = if n > from && v[n - 1] == '\r' {
                n - 1
            } else {
                n
            };
            let line = slice_of(v, from, end);
            assert(line@ == strip_return(rest.take(n - from))) by {
                let whole = v@.subrange(from as int, n as int);
                if n > from && v@[n - 1] == '\r' {
                    assert(whole.last() == v@[n - 1]);
                    assert(whole.drop_last() == v@.subrange(from as int, n - 1));
                }
            }
            r.push(line);
            assert(rows(r@) == before.push(line@));
            assert(rest.skip(n - from + 1) == v@.skip(n + 1));
            assert(before.push(line@) + lines(v@.skip(n + 1)) == before + (seq![line@] + lines(
                v@.skip(n + 1),
            )));
            from = n + 1;
        }
    }
    assert(lines(v@.skip(from as int)) == Seq::<Seq<char>>::empty());
    assert(rows(r@) + Seq::<Seq<char>>::empty() == rows(r@));
    r
}

/// Whether `c` is one of the digits `0` to `9`.
pub open spec fn is_digit(c: char) -> bool {
    '0' <= c <= '9'
}

/// The number that a run of digits writes in base ten.
pub open spec fn digits_value(s: Seq<char>) -> nat
    decreases s.len(),
{
    if s.len() == 0 {
        0
    } else {
        digits_value(s.drop_last()) * 10 + (s.last() as u32 - '0' as u32) as nat
    }
}

/// The digits of a number as written: `s` itself, or `s` without a plus sign
/// in front of it.
pub open spec fn unsigned_digits(s: Seq<char>) -> Seq<char> {
    if s.len() > 0 && s[0] == '+' {
        s.drop_first()
    } else {
        s
    }
}

/// The number that `s` writes: an optional plus sign, then at least one
/// digit and nothing else, with a value that a `usize` holds.
pub open spec fn number_value(s: Seq<char>) -> Option<usize> {
    let d = unsigned_digits(s);
    if d.len() > 0 && (forall|j: int| 0 <= j < d.len() ==> is_digit(#[trigger] d[j]))
        && digits_value(d) <= usize::MAX {
        Some(digits_value(d) as usize)
    } else {
        None
    }
}

/// The value of a run of digits is at least the value of each of its prefixes.
pub proof fn lemma_digits_value_grows(s: Seq<char>, n: int)
    requires
        0 <= n <= s.len(),
    ensures
        digits_value(s.take(n)) <= digits_value(s),
    decreases s.len(),
{
    if n < s.len() {
        lemma_digits_value_grows(s.drop_last(), n);
        assert(s.drop_last().take(n) == s.take(n));
        assert(digits_value(s) == digits_value(s.drop_last()) * 10 + (s.last() as u32 - '0' as u32) as nat);
    } else {
        assert(s.take(n) == s);
    }
}

/// Reads a number written in base ten.
pub fn parse_number(v: &Vec<char>) -> (r: Option<usize>)
    ensures
        r == number_value(v@),
{
    let start: usize = if v.len() > 0 && v[0] == '+' {
        1
    } else {
        0
    };
    let ghost d = unsigned_digits(v@);
    assert(d == v@.skip(start as int));
    if start == v.len() {
        return None;
    }
    let mut value: usize = 0;
    let mut i: usize = start;
    while i < v.len()
        invariant
            start <= i <= v.len(),
            d == v@.skip(start as int),
            d == unsigned_digits(v@),
            forall|j: int| 0 <= j < i - start ==> is_digit(#[trigger] d[j]),
            value == digits_value(d.take(i - start)),
        decreases v.len() - i,
    {
        let c = v[i];
        assert(d[i - start] == c);
        if !('0' <= c && c <= '9') {
            assert(!is_digit(d[i - start]));
            return None;
        }
        let digit: usize = (c as u32 - '0' as u32) as usize;
        let ghost next = d.take(i - start + 1);
        assert(next.drop_last() == d.take(i - start));
        assert(next.last() == c);
        assert(digits_value(next) == digits_value(next.drop_last()) * 10 + (next.last() as u32
            - '0' as u32) as nat);
        if value > (usize::MAX - digit) / 10 {
            proof {
                lemma_digits_value_grows(d, i - start + 1);
                assert(value * 10 + digit > usize::MAX);
                assert(digits_value(next) > usize::MAX);
            }
            return None;
        }
        value = value * 10 + digit;
        i += 1;
    }
    assert(d.take(i - start) == d);
    Some(value)
}

/// The digits that write `n` in base ten, without leading zeros; `0` is
/// written with one digit.
pub open spec fn decimal(n: nat) -> Seq<char>
    decreases n,
{
    if n < 10 {
        seq![(('0' as u32) + n as u32) as char]
    } else {
        decimal(n / 10).push((('0' as u32) + (n % 10) as u32) as char)
    }
}

/// The digit that writes a number below ten.
fn digit_char(d: usize) -> (c: char)
    requires
        d < 10,
    ensures
        c == (('0' as u32) + d as u32) as char,
{
    if d == 0 {
        '0'
    } else if d == 1 {
        '1'
    } else if d == 2 {
        '2'
    } else if d == 3 {
        '3'
    } else if d == 4 {
        '4'
    } else if d == 5 {
        '5'
    } else if d == 6 {
        '6'
    } else if d == 7 {
        '7'
    } else if d == 8 {
        '8'
    } else {
        '9'
    }
}

/// Writes `n` in base ten.
pub fn decimal_of(n: usize) -> (r: Vec<char>)
    ensures
        r@ == decimal(n as nat),
    decreases n,
{
    if n < 10 {
        let mut r: Vec<char> = Vec::new();
        r.push(digit_char(n));
        assert(r@ == seq![(('0' as u32) + n as u32) as char]);
        assert(decimal(n as nat) == seq![(('0' as u32) + n as u32) as char]);
        r
    } else {
        let mut r = decimal_of(n / 10);
        r.push(digit_char(n % 10));
        assert(decimal(n as nat) == decimal(n as nat / 10).push((('0' as u32) + (n as nat % 10) as u32) as char));
        r
    }
}

} // verus!
