use vstd::prelude::*;
use vstd::string::*;

verus! {

/// The characters of each string of a list.
pub open spec fn texts(v: Seq<String>) -> Seq<Seq<char>> {
    Seq::new(v.len(), |i: int| v[i]@)
}

/// The index of the first `c` in `s`, or the length of `s` where there is
/// none.
pub open spec fn index_of_char(s: Seq<char>, c: char) -> int
    decreases s.len(),
{
    if s.len() == 0 {
        0
    } else if s[0] == c {
        0
    } else {
        1 + index_of_char(s.drop_first(), c)
    }
}

/// Whether `c` occurs in `s`.
pub open spec fn has_char(s: Seq<char>, c: char) -> bool {
    index_of_char(s, c) < s.len()
}

/// The part of `s` before the first `c`: all of `s` where there is none.
pub open spec fn before_char(s: Seq<char>, c: char) -> Seq<char> {
    s.take(index_of_char(s, c))
}

/// The part of `s` after the first `c`: empty where there is none.
pub open spec fn after_char(s: Seq<char>, c: char) -> Seq<char> {
    if has_char(s, c) {
        s.skip(index_of_char(s, c) + 1)
    } else {
        Seq::empty()
    }
}

/// Whether `a` stands at index `j` of `s` and `b` directly after it.
pub open spec fn pair_at(s: Seq<char>, j: int, a: char, b: char) -> bool {
    0 <= j && j + 1 < s.len() && s[j] == a && s[j + 1] == b
}

/// The index of the first place in `s` where `a` stands directly before `b`,
/// or the length of `s` where there is none.
pub open spec fn index_of_pair(s: Seq<char>, a: char, b: char) -> int
    decreases s.len(),
{
    if s.len() < 2 {
        s.len() as int
    } else if s[0] == a && s[1] == b {
        0
    } else {
        1 + index_of_pair(s.drop_first(), a, b)
    }
}

/// The pieces of `s` between the occurrences of `sep`: one more than there
/// are separators, empty pieces included.
pub open spec fn split_spec(s: Seq<char>, sep: char) -> Seq<Seq<char>>
    decreases s.len(),
{
    let i = index_of_char(s, sep);
    if 0 <= i < s.len() {
        seq![s.take(i)] + split_spec(s.skip(i + 1), sep)
    } else {
        seq![s]
    }
}

/// `s` without one carriage return at its end.
pub open spec fn strip_cr(s: Seq<char>) -> Seq<char> {
    if s.len() > 0 && s.last() == '\r' {
        s.drop_last()
    } else {
        s
    }
}

/// The lines of `s`. A line ends at a line feed, or at the end of the text
/// if characters are left there; the line feed is no part of the line, nor
/// is a carriage return that stands directly before it.
pub open spec fn lines_spec(s: Seq<char>) -> Seq<Seq<char>>
    decreases s.len(),
{
    if s.len() == 0 {
        Seq::empty()
    } else {
        let i = index_of_char(s, '\n');
        if 0 <= i < s.len() {
            seq![strip_cr(s.take(i))] + lines_spec(s.skip(i + 1))
        } else {
            seq![s]
        }
    }
}

/// Whether `c` is white space: one of the code points with the Unicode
/// property `White_Space`.
pub open spec fn is_space(c: char) -> bool {
    let n = c as u32;
    ||| 0x09 <= n <= 0x0d
    ||| n == 0x20
    ||| n == 0x85
    ||| n == 0xa0
    ||| n == 0x1680
    ||| 0x2000 <= n <= 0x200a
    ||| n == 0x2028
    ||| n == 0x2029
    ||| n == 0x202f
    ||| n == 0x205f
    ||| n == 0x3000
}

/// The number of white-space characters at the start of `s`.
pub open spec fn leading_spaces(s: Seq<char>) -> int
    decreases s.len(),
{
    if s.len() > 0 && is_space(s[0]) {
        1 + leading_spaces(s.drop_first())
    } else {
        0
    }
}

/// The number of white-space characters at the end of `s`.
pub open spec fn trailing_spaces(s: Seq<char>) -> int
    decreases s.len(),
{
    if s.len() > 0 && is_space(s.last()) {
        1 + trailing_spaces(s.drop_last())
    } else {
        0
    }
}

/// `s` without the white space at its start.
pub open spec fn trim_start_spec(s: Seq<char>) -> Seq<char> {
    s.skip(leading_spaces(s))
}

/// `s` without the white space at its start and at its end.
pub open spec fn trim_spec(s: Seq<char>) -> Seq<char> {
    let rest = trim_start_spec(s);
    rest.take(rest.len() - trailing_spaces(rest))
}

/// The first `c` of `s` stands at `k` if no `c` stands before `k` and `k` is
/// the end of `s` or holds a `c`.
pub proof fn lemma_index_of_char(s: Seq<char>, c: char, k: int)
    requires
        0 <= k <= s.len(),
        forall|j: int| 0 <= j < k ==> s[j] != c,
        k < s.len() ==> s[k] == c,
    ensures
        index_of_char(s, c) == k,
    decreases k,
{
    if k > 0 {
        let rest = s.drop_first();
        assert forall|j: int| 0 <= j < k - 1 implies rest[j] != c by {
            assert(rest[j] == s[j + 1]);
        }
        lemma_index_of_char(rest, c, k - 1);
    }
}

/// The first pair of `a` and `b` in `s` stands at `k` if none starts before
/// `k` and `k` is the end of `s` or the start of such a pair.
pub proof fn lemma_index_of_pair(s: Seq<char>, a: char, b: char, k: int)
    requires
        0 <= k <= s.len(),
        forall|j: int| 0 <= j < k ==> !pair_at(s, j, a, b),
        k + 1 < s.len() ==> pair_at(s, k, a, b),
        k + 1 >= s.len() ==> k == s.len(),
    ensures
        index_of_pair(s, a, b) == k,
    decreases k,
{
    if s.len() >= 2 && k > 0 {
        let rest = s.drop_first();
        assert(!pair_at(s, 0, a, b));
        assert forall|j: int| 0 <= j < k - 1 implies !pair_at(rest, j, a, b) by {
            assert(!pair_at(s, j + 1, a, b));
            if j + 1 < rest.len() {
                assert(rest[j] == s[j + 1]);
                assert(rest[j + 1] == s[j + 2]);
            }
        }
        if k + 1 < s.len() {
            assert(rest[k - 1] == s[k]);
            assert(rest[k] == s[k + 1]);
        }
        lemma_index_of_pair(rest, a, b, k - 1);
    }
}

/// The white space at the start of `s` ends at `k` if every character before
/// `k` is white space and `k` is the end of `s` or holds another character.
pub proof fn lemma_leading_spaces(s: Seq<char>, k: int)
    requires
        0 <= k <= s.len(),
        forall|j: int| 0 <= j < k ==> is_space(s[j]),
        k < s.len() ==> !is_space(s[k]),
    ensures
        leading_spaces(s) == k,
    decreases k,
{
    if k > 0 {
        let rest = s.drop_first();
        assert forall|j: int| 0 <= j < k - 1 implies is_space(rest[j]) by {
            assert(rest[j] == s[j + 1]);
        }
        lemma_leading_spaces(rest, k - 1);
    }
}

/// The white space at the end of `s` is `k` characters long if the last `k`
/// characters are white space and the one before them, if any, is not.
pub proof fn lemma_trailing_spaces(s: Seq<char>, k: int)
    requires
        0 <= k <= s.len(),
        forall|j: int| s.len() - k <= j < s.len() ==> is_space(s[j]),
        k < s.len() ==> !is_space(s[s.len() - k - 1]),
    ensures
        trailing_spaces(s) == k,
    decreases k,
{
    if k > 0 {
        lemma_trailing_spaces(s.drop_last(), k - 1);
    }
}

/// The character of a decimal digit.
pub open spec fn digit(d: nat) -> char {
    if d == 0 {
        '0'
    } else if d == 1 {
        '1'
    } else if d == 2 {
        '2'
    } else if d == 3 {
        '3'
    } else if d == 4 {
        '4'
    } else if d == 5 {
        '5'
    } else if d == 6 {
        '6'
    } else if d == 7 {
        '7'
    } else if d == 8 {
        '8'
    } else {
        '9'
    }
}

/// A number in decimal digits, without leading zeros.
pub open spec fn decimal(n: nat) -> Seq<char>
    decreases n,
{
    if n < 10 {
        seq![digit(n)]
    } else {
        decimal(n / 10).push(digit(n % 10))
    }
}

/// A number with sign in decimal digits: a negative one with `-` before it.
pub open spec fn signed_decimal(i: int) -> Seq<char> {
    if i < 0 {
        seq!['-'] + decimal((-i) as nat)
    } else {
        decimal(i as nat)
    }
}

/// The text of one decimal digit.
fn digit_str(d: u8) -> (s: &'static str)
    requires
        d < 10,
    ensures
        s@ == seq![digit(d as nat)],
{
    proof {
        reveal_strlit("0");
        reveal_strlit("1");
        reveal_strlit("2");
        reveal_strlit("3");
        reveal_strlit("4");
        reveal_strlit("5");
        reveal_strlit("6");
        reveal_strlit("7");
        reveal_strlit("8");
        reveal_strlit("9");
    }
    let s = match d {
        0 => "0",
        1 => "1",
        2 => "2",
        3 => "3",
        4 => "4",
        5 => "5",
        6 => "6",
        7 => "7",
        8 => "8",
        _ => "9",
    };
    assert(s@ =~= seq![digit(d as nat)]);
    s
}

/// The number in decimal digits.
pub fn u64_to_string(n: u64) -> (s: String)
    ensures
        s@ == decimal(n as nat),
    decreases n,
{
    if n < 10 {
        digit_str(n as u8).to_owned()
    } else {
        let mut s = u64_to_string(n / 10);
        s.append(digit_str((n % 10) as u8));
        assert(s@ =~= decimal(n as nat));
        s
    }
}

/// The number with sign in decimal digits.
pub fn i64_to_string(i: i64) -> (s: String)
    ensures
        s@ == signed_decimal(i as int),
{
    if i >= 0 {
        u64_to_string(i as u64)
    } else {
        let magnitude: u64 = (-(i + 1)) as u64 + 1;
        let mut s = "-".to_owned();
        s.append(u64_to_string(magnitude).as_str());
        proof {
            reveal_strlit("-");
            assert(s@ =~= signed_decimal(i as int));
        }
        s
    }
}

/// The characters of `s`, in order.
pub fn chars_of(s: &str) -> (out: Vec<char>)
    ensures
        out@ == s@,
{
    let mut out: Vec<char> = Vec::new();
    for c in it: s.chars()
        invariant
            out@ == it.seq().take(it.index() as int),
            it.seq() == s@,
    {
        out.push(c);
    }
    out
}

/// Whether `c` is white space.
pub fn is_whitespace(c: char) -> (space: bool)
    ensures
        space == is_space(c),
{
    let n: u32 = c as u32;
    (0x09 <= n && n <= 0x0d) || n == 0x20 || n == 0x85 || n == 0xa0 || n == 0x1680 || (0x2000 <= n
        && n <= 0x200a) || n == 0x2028 || n == 0x2029 || n == 0x202f || n == 0x205f || n == 0x3000
}

/// The index of the first `c` at or after `from`, or the length of `chars`
/// where there is none.
pub fn find_char(chars: &Vec<char>, from: usize, c: char) -> (at: usize)
    requires
        from <= chars@.len(),
    ensures
        from <= at <= chars@.len(),
        at == from + index_of_char(chars@.skip(from as int), c),
{
    let mut i: usize = from;
    while i < chars.len() && chars[i] != c
        invariant
            from <= i <= chars@.len(),
            forall|j: int| from <= j < i ==> chars@[j] != c,
        decreases chars@.len() - i,
    {
        i += 1;
    }
    proof {
        lemma_index_of_char(chars@.skip(from as int), c, i - from);
    }
    i
}

/// The index of the first place where `a` stands directly before `b`, or
/// the length of `chars` where there is none.
pub fn find_pair(chars: &Vec<char>, a: char, b: char) -> (at: usize)
    ensures
        at <= chars@.len(),
        at == index_of_pair(chars@, a, b),
{
    let n = chars.len();
    let mut i: usize = 0;
    while i < n && i + 1 < n && !(chars[i] == a && chars[i + 1] == b)
        invariant
            n == chars@.len(),
            i <= n,
            forall|j: int| 0 <= j < i ==> !pair_at(chars@, j, a, b),
        decreases n - i,
    {
        i += 1;
    }
    let at = if i < n && i + 1 < n {
        i
    } else {
        n
    };
    proof {
        lemma_index_of_pair(chars@, a, b, at as int);
    }
    at
}

/// The pieces of `text` between the occurrences of `sep`.
pub fn split(text: &str, sep: char) -> (parts: Vec<String>)
    ensures
        texts(parts@) == split_spec(text@, sep),
{
    let chars = chars_of(text);
    let n = chars.len();
    let mut parts: Vec<String> = Vec::new();
    let mut start: usize = 0;
    proof {
        assert(text@.skip(0) =~= text@);
        assert(texts(parts@) + split_spec(text@, sep) =~= split_spec(text@, sep));
    }
    loop
        invariant_except_break
            start <= n,
            split_spec(text@, sep) == texts(parts@) + split_spec(text@.skip(start as int), sep),
        invariant
            chars@ == text@,
            n == chars@.len(),
        ensures
            texts(parts@) == split_spec(text@, sep),
        decreases n - start,
    {
        let at = find_char(&chars, start, sep);
        let piece = text.substring_char(start, at).to_owned();
        let ghost rest = text@.skip(start as int);
        let ghost before = parts@;
        proof {
            assert(rest.take(at - start) =~= text@.subrange(start as int, at as int));
        }
        parts.push(piece);
        proof {
            assert(texts(parts@) =~= texts(before) + seq![piece@]);
        }
        if at >= n {
            proof {
                assert(rest.take(at - start) =~= rest);
                assert(split_spec(rest, sep) == seq![rest]);
            }
            break ;
        }
        proof {
            assert(rest.skip(at - start + 1) =~= text@.skip(at as int + 1));
            assert(texts(before) + (seq![piece@] + split_spec(text@.skip(at as int + 1), sep)) =~= (
            texts(before) + seq![piece@]) + split_spec(text@.skip(at as int + 1), sep));
        }
        start = at + 1;
    }
    parts
}

/// The lines of `text`.
pub fn lines_of(text: &str) -> (lines: Vec<String>)
    ensures
        texts(lines@) == lines_spec(text@),
{
    let chars = chars_of(text);
    let n = chars.len();
    let mut lines: Vec<String> = Vec::new();
    let mut start: usize = 0;
    proof {
        assert(text@.skip(0) =~= text@);
        assert(texts(lines@) + lines_spec(text@) =~= lines_spec(text@));
    }
    while start < n
        invariant
            chars@ == text@,
            n == chars@.len(),
            start <= n,
            lines_spec(text@) == texts(lines@) + lines_spec(text@.skip(start as int)),
        decreases n - start,
    {
        let at = find_char(&chars, start, '\n');
        let ghost rest = text@.skip(start as int);
        let ghost before = lines@;
        proof {
            assert(rest.take(at - start) =~= text@.subrange(start as int, at as int));
        }
        if at >= n {
            let piece = text.substring_char(start, n).to_owned();
            lines.push(piece);
            proof {
                assert(rest.take(at - start) =~= rest);
                assert(texts(lines@) =~= texts(before) + seq![piece@]);
                assert(text@.skip(n as int) =~= Seq::<char>::empty());
                assert(texts(lines@) + lines_spec(text@.skip(n as int)) =~= texts(lines@));
            }
            start = n;
        } else {
            let end = if at > start && chars[at - 1] == '\r' {
                at - 1
            } else {
                at
            };
            let piece = text.substring_char(start, end).to_owned();
            lines.push(piece);
            proof {
                assert(strip_cr(rest.take(at - start)) =~= text@.subrange(start as int, end as int));
                assert(texts(lines@) =~= texts(before) + seq![piece@]);
                assert(rest.skip(at - start + 1) =~= text@.skip(at as int + 1));
                assert(texts(before) + (seq![piece@] + lines_spec(text@.skip(at as int + 1))) =~= (
                texts(before) + seq![piece@]) + lines_spec(text@.skip(at as int + 1)));
            }
            start = at + 1;
        }
    }
    proof {
        assert(text@.skip(n as int) =~= Seq::<char>::empty());
        assert(texts(lines@) + lines_spec(text@.skip(n as int)) =~= texts(lines@));
    }
    lines
}

/// `text` without the white space at its start and at its end.
pub fn trim(text: &str) -> (out: &str)
    ensures
        out@ == trim_spec(text@),
{
    let chars = chars_of(text);
    let n = chars.len();
    let mut start: usize = 0;
    while start < n && is_whitespace(chars[start])
        invariant
            chars@ == text@,
            n == chars@.len(),
            start <= n,
            forall|j: int| 0 <= j < start ==> is_space(chars@[j]),
        decreases n - start,
    {
        start += 1;
    }
    let mut end: usize = n;
    while end > start && is_whitespace(chars[end - 1])
        invariant
            chars@ == text@,
            n == chars@.len(),
            start <= end <= n,
            forall|j: int| end <= j < n ==> is_space(chars@[j]),
        decreases end,
    {
        end -= 1;
    }
    proof {
        lemma_leading_spaces(text@, start as int);
        let rest = text@.skip(start as int);
        assert forall|j: int| rest.len() - (n - end) <= j < rest.len() implies is_space(rest[j]) by {
            assert(rest[j] == text@[j + start]);
        }
        if n - end < rest.len() {
            assert(rest[rest.len() - (n - end) - 1] == text@[end - 1]);
        }
        lemma_trailing_spaces(rest, n - end);
        assert(rest.take(rest.len() - (n - end)) =~= text@.subrange(start as int, end as int));
    }
    text.substring_char(start, end)
}

} // verus!
