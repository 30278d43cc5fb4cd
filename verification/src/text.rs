use vstd::prelude::*;

verus! {

/// `String::push` appends one character to the end of the string.
pub assume_specification[ String::push ](s: &mut String, c: char)
    ensures
        final(s)@ == old(s)@.push(c),
;

/// Returns the characters of `s` as a vector.
pub fn chars_of(s: &str) -> (v: Vec<char>)
    ensures
        v@ == s@,
{
    let mut v: Vec<char> = Vec::new();
    for c in it: s.chars()
        invariant
            v@ == it.seq().take(it.index@),
    {
        v.push(c);
    }
    v
}

/// Returns the characters `chars[from..to]` as a string.
pub(crate) fn string_of(chars: &Vec<char>, from: usize, to: usize) -> (s: String)
    requires
        from <= to <= chars@.len(),
    ensures
        s@ == chars@.subrange(from as int, to as int),
{
    let mut s = String::new();
    let mut i: usize = from;
    while i < to
        invariant
            from <= i <= to <= chars@.len(),
            s@ == chars@.subrange(from as int, i as int),
        decreases to - i,
    {
        s.push(chars[i]);
        i += 1;
        assert(s@ =~= chars@.subrange(from as int, i as int));
    }
    s
}

/// Appends the characters of `tail` to `out`.
pub fn push_chars(out: &mut Vec<char>, tail: &Vec<char>)
    ensures
        final(out)@ == old(out)@ + tail@,
{
    let mut i: usize = 0;
    while i < tail.len()
        invariant
            i <= tail@.len(),
            out@ == old(out)@ + tail@.take(i as int),
        decreases tail@.len() - i,
    {
        out.push(tail[i]);
        i += 1;
        assert(out@ =~= old(out)@ + tail@.take(i as int));
    }
    assert(tail@.take(tail@.len() as int) =~= tail@);
}

/// Appends the characters of the string `tail` to `out`.
pub fn push_str(out: &mut Vec<char>, tail: &str)
    ensures
        final(out)@ == old(out)@ + tail@,
{
    let chars = chars_of(tail);
    push_chars(out, &chars);
}

/// The characters that separate the words of a line: those with the Unicode
/// property `White_Space`.
pub open spec fn is_space(c: char) -> bool {
    let n = c as u32;
    ||| 0x09 <= n <= 0x0D
    ||| n == 0x20
    ||| n == 0x85
    ||| n == 0xA0
    ||| n == 0x1680
    ||| 0x2000 <= n <= 0x200A
    ||| n == 0x2028
    ||| n == 0x2029
    ||| n == 0x202F
    ||| n == 0x205F
    ||| n == 0x3000
}

/// Tells whether `c` separates words.
pub fn is_space_char(c: char) -> (b: bool)
    ensures
        b == is_space(c),
{
    let n: u32 = c as u32;
    (0x09 <= n && n <= 0x0D) || n == 0x20 || n == 0x85 || n == 0xA0 || n == 0x1680 || (0x2000 <= n
        && n <= 0x200A) || n == 0x2028 || n == 0x2029 || n == 0x202F || n == 0x205F || n == 0x3000
}

/// The number of separator characters at the start of `s`.
pub open spec fn space_len(s: Seq<char>) -> nat
    decreases s.len(),
{
    if s.len() > 0 && is_space(s[0]) {
        1 + space_len(s.skip(1))
    } else {
        0
    }
}

/// The number of characters at the start of `s` up to the first separator.
pub open spec fn word_len(s: Seq<char>) -> nat
    decreases s.len(),
{
    if s.len() > 0 && !is_space(s[0]) {
        1 + word_len(s.skip(1))
    } else {
        0
    }
}

/// The leading separators of `s` are separators, and what follows them is none.
pub proof fn lemma_space_len_bound(s: Seq<char>)
    ensures
        space_len(s) <= s.len(),
        forall|i: int| 0 <= i < space_len(s) ==> is_space(#[trigger] s[i]),
        space_len(s) < s.len() ==> !is_space(s[space_len(s) as int]),
    decreases s.len(),
{
    if s.len() > 0 && is_space(s[0]) {
        lemma_space_len_bound(s.skip(1));
        assert forall|i: int| 0 <= i < space_len(s) implies is_space(#[trigger] s[i]) by {
            if i > 0 {
                assert(s[i] == s.skip(1)[i - 1]);
            }
        }
    }
}

/// The leading word of `s` holds no separator, and what follows it is one.
pub proof fn lemma_word_len_bound(s: Seq<char>)
    ensures
        word_len(s) <= s.len(),
        forall|i: int| 0 <= i < word_len(s) ==> !is_space(#[trigger] s[i]),
        word_len(s) < s.len() ==> is_space(s[word_len(s) as int]),
    decreases s.len(),
{
    if s.len() > 0 && !is_space(s[0]) {
        lemma_word_len_bound(s.skip(1));
        assert forall|i: int| 0 <= i < word_len(s) implies !is_space(#[trigger] s[i]) by {
            if i > 0 {
                assert(s[i] == s.skip(1)[i - 1]);
            }
        }
    }
}

/// Returns the position of the first character at or after `from` that is no
/// separator, or the length of `chars` if there is none.
pub(crate) fn skip_spaces(chars: &Vec<char>, from: usize) -> (to: usize)
    requires
        from <= chars@.len(),
    ensures
        to == from + space_len(chars@.skip(from as int)),
        from <= to <= chars@.len(),
{
    let mut i: usize = from;
    while i < chars.len() && is_space_char(chars[i])
        invariant
            from <= i <= chars@.len(),
            i - from + space_len(chars@.skip(i as int)) == space_len(chars@.skip(from as int)),
        decreases chars@.len() - i,
    {
        assert(chars@.skip(i as int).skip(1) =~= chars@.skip(i + 1));
        i += 1;
    }
    i
}

/// Returns the position of the first separator at or after `from`, or the
/// length of `chars` if there is none.
pub(crate) fn skip_word(chars: &Vec<char>, from: usize) -> (to: usize)
    requires
        from <= chars@.len(),
    ensures
        to == from + word_len(chars@.skip(from as int)),
        from <= to <= chars@.len(),
{
    let mut i: usize = from;
    while i < chars.len() && !is_space_char(chars[i])
        invariant
            from <= i <= chars@.len(),
            i - from + word_len(chars@.skip(i as int)) == word_len(chars@.skip(from as int)),
        decreases chars@.len() - i,
    {
        assert(chars@.skip(i as int).skip(1) =~= chars@.skip(i + 1));
        i += 1;
    }
    i
}


/// The position of the first line feed in `s`, or the length of `s` if it
/// holds none.
pub open spec fn line_end(s: Seq<char>) -> nat
    decreases s.len(),
{
    if s.len() > 0 && s[0] != '\n' {
        1 + line_end(s.skip(1))
    } else {
        0
    }
}

/// `line` without the carriage return at its end, if it has one.
pub open spec fn without_cr(line: Seq<char>) -> Seq<char> {
    if line.len() > 0 && line.last() == '\r' {
        line.drop_last()
    } else {
        line
    }
}

/// The lines of a text. Lines end at a line feed, or at a carriage return
/// directly followed by a line feed; the ending is not part of the line. The
/// last line needs no ending, and a text that ends with a line ending has no
/// empty line after it.
pub open spec fn lines_of(s: Seq<char>) -> Seq<Seq<char>>
    decreases s.len(),
{
    if s.len() == 0 {
        Seq::empty()
    } else {
        let k = line_end(s) as int;
        if k >= s.len() {
            seq![s]
        } else {
            seq![without_cr(s.take(k))] + lines_of(s.skip(k + 1))
        }
    }
}

/// The first line of `s` holds no line feed, and what follows it is one.
pub proof fn lemma_line_end_bound(s: Seq<char>)
    ensures
        line_end(s) <= s.len(),
        forall|i: int| 0 <= i < line_end(s) ==> #[trigger] s[i] != '\n',
        line_end(s) < s.len() ==> s[line_end(s) as int] == '\n',
    decreases s.len(),
{
    if s.len() > 0 && s[0] != '\n' {
        lemma_line_end_bound(s.skip(1));
        assert forall|i: int| 0 <= i < line_end(s) implies #[trigger] s[i] != '\n' by {
            if i > 0 {
                assert(s[i] == s.skip(1)[i - 1]);
            }
        }
    }
}

/// Returns the position of the first line feed at or after `from`, or the
/// length of `chars` if there is none.
pub(crate) fn find_line_end(chars: &Vec<char>, from: usize) -> (to: usize)
    requires
        from <= chars@.len(),
    ensures
        to == from + line_end(chars@.skip(from as int)),
        from <= to <= chars@.len(),
{
    let mut i: usize = from;
    while i < chars.len() && chars[i] != '\n'
        invariant
            from <= i <= chars@.len(),
            i - from + line_end(chars@.skip(i as int)) == line_end(chars@.skip(from as int)),
        decreases chars@.len() - i,
    {
        assert(chars@.skip(i as int).skip(1) =~= chars@.skip(i + 1));
        i += 1;
    }
    i
}

/// The views of a vector of strings.
pub open spec fn strings_view(v: Seq<String>) -> Seq<Seq<char>> {
    v.map_values(|s: String| s@)
}

/// Splits a text into its lines.
pub fn split_lines(text: &str) -> (lines: Vec<String>)
    ensures
        strings_view(lines@) == lines_of(text@),
{
    let chars = chars_of(text);
    let mut lines: Vec<String> = Vec::new();
    let mut start: usize = 0;
    assert(chars@.skip(0) =~= chars@);
    while start < chars.len()
        invariant
            start <= chars@.len(),
            strings_view(lines@) + lines_of(chars@.skip(start as int)) == lines_of(chars@),
        decreases chars@.len() - start,
    {
        let ghost rest = chars@.skip(start as int);
        let end = find_line_end(&chars, start);
        let ghost before = strings_view(lines@);
        if end >= chars.len() {
            let line = string_of(&chars, start, end);
            assert(line@ =~= rest);
            lines.push(line);
            assert(strings_view(lines@) =~= before + seq![rest]);
            start = end;
            assert(chars@.skip(start as int).len() == 0);
            assert(before + seq![rest] + lines_of(chars@.skip(start as int)) =~= before
                + lines_of(rest));
        } else {
            let stop = if end > start && chars[end - 1] == '\r' {
                end - 1
            } else {
                end
            };
            let line = string_of(&chars, start, stop);
            assert(rest.take(end - start) =~= chars@.subrange(start as int, end as int));
            assert(line@ =~= without_cr(rest.take(end - start)));
            lines.push(line);
            assert(strings_view(lines@) =~= before + seq![line@]);
            start = end + 1;
            assert(chars@.skip(start as int) =~= rest.skip(line_end(rest) as int + 1));
            assert(before + seq![line@] + lines_of(chars@.skip(start as int)) =~= before
                + lines_of(rest));
        }
    }
    assert(chars@.skip(start as int).len() == 0);
    assert(strings_view(lines@) + Seq::<Seq<char>>::empty() =~= strings_view(lines@));
    lines
}

/// The lines joined by single line feeds, with none before the first line and
/// none after the last.
pub open spec fn join_lines(lines: Seq<Seq<char>>) -> Seq<char>
    decreases lines.len(),
{
    if lines.len() == 0 {
        Seq::empty()
    } else if lines.len() == 1 {
        lines[0]
    } else {
        join_lines(lines.drop_last()) + seq!['\n'] + lines.last()
    }
}

/// Returns the given lines joined by single line feeds.
pub fn join_strings(lines: &Vec<String>) -> (out: Vec<char>)
    ensures
        out@ == join_lines(strings_view(lines@)),
{
    let mut out: Vec<char> = Vec::new();
    let mut i: usize = 0;
    while i < lines.len()
        invariant
            i <= lines@.len(),
            out@ == join_lines(strings_view(lines@).take(i as int)),
        decreases lines@.len() - i,
    {
        let ghost prefix = strings_view(lines@).take(i as int);
        let ghost next = strings_view(lines@).take(i + 1);
        assert(next.drop_last() =~= prefix);
        assert(next.last() == lines@[i as int]@);
        if i > 0 {
            out.push('\n');
        }
        push_str(&mut out, lines[i].as_str());
        assert(out@ =~= join_lines(next)) by {
            if i == 0 {
                assert(join_lines(prefix) =~= Seq::<char>::empty());
            }
        }
        i += 1;
    }
    assert(strings_view(lines@).take(lines@.len() as int) =~= strings_view(lines@));
    out
}

/// Returns the characters of `chars` as a string.
pub fn string_from_chars(chars: &Vec<char>) -> (s: String)
    ensures
        s@ == chars@,
{
    let s = string_of(chars, 0, chars.len());
    assert(chars@.subrange(0, chars@.len() as int) =~= chars@);
    s
}


/// Tells whether `c` is one of the digits `0` to `9`.
pub open spec fn is_digit(c: char) -> bool {
    '0' <= c <= '9'
}

/// The value of the digit `c`.
pub open spec fn digit_value(c: char) -> nat
    recommends
        is_digit(c),
{
    (c as u32 - '0' as u32) as nat
}

/// Tells whether `s` consists of digits only.
pub open spec fn all_digits(s: Seq<char>) -> bool {
    forall|i: int| 0 <= i < s.len() ==> is_digit(#[trigger] s[i])
}

/// The number that the digits of `s` denote in base ten.
pub open spec fn decimal_value(s: Seq<char>) -> nat
    decreases s.len(),
{
    if s.len() == 0 {
        0
    } else {
        10 * decimal_value(s.drop_last()) + digit_value(s.last())
    }
}

/// The number that `s` denotes: `s` must be one or more digits whose value
/// fits into a `usize`. Leading zeros are accepted; a sign is not.
pub open spec fn parse_number(s: Seq<char>) -> Option<usize> {
    if s.len() > 0 && all_digits(s) && decimal_value(s) <= usize::MAX {
        Some(decimal_value(s) as usize)
    } else {
        None
    }
}

/// The first digits of a number denote no more than the number.
pub proof fn lemma_decimal_value_monotonic(s: Seq<char>, k: int)
    requires
        0 <= k <= s.len(),
    ensures
        decimal_value(s.take(k)) <= decimal_value(s),
    decreases s.len() - k,
{
    if k < s.len() {
        lemma_decimal_value_monotonic(s, k + 1);
        assert(s.take(k + 1).drop_last() =~= s.take(k));
    } else {
        assert(s.take(k) =~= s);
    }
}

/// Reads the number that `chars[from..to]` denotes.
pub(crate) fn read_number(chars: &Vec<char>, from: usize, to: usize) -> (n: Option<usize>)
    requires
        from <= to <= chars@.len(),
    ensures
        n == parse_number(chars@.subrange(from as int, to as int)),
{
    let ghost s = chars@.subrange(from as int, to as int);
    if from == to {
        return None;
    }
    let mut value: usize = 0;
    let mut i: usize = from;
    while i < to
        invariant
            from <= i <= to <= chars@.len(),
            s == chars@.subrange(from as int, to as int),
            all_digits(s.take(i - from)),
            value == decimal_value(s.take(i - from)),
        decreases to - i,
    {
        let c = chars[i];
        let ghost next = s.take(i + 1 - from);
        assert(next.drop_last() =~= s.take(i - from));
        assert(next.last() == c);
        if !('0' <= c && c <= '9') {
            assert(!is_digit(s[i - from]));
            return None;
        }
        let d: usize = (c as u32 - '0' as u32) as usize;
        proof {
            lemma_decimal_value_monotonic(s, i + 1 - from);
        }
        if value > (usize::MAX - d) / 10 {
            // The digits read so far already exceed what a usize holds.
            assert(decimal_value(next) > usize::MAX);
            return None;
        }
        value = value * 10 + d;
        i += 1;
        assert(all_digits(next)) by {
            assert forall|j: int| 0 <= j < next.len() implies is_digit(#[trigger] next[j]) by {
                if j < next.len() - 1 {
                    assert(next[j] == s.take(i - 1 - from)[j]);
                }
            }
        }
    }
    assert(s.take(to - from) =~= s);
    Some(value)
}

/// The digits of `n` in base ten, without leading zeros; `0` is the one digit `0`.
pub open spec fn decimal(n: nat) -> Seq<char>
    decreases n,
{
    if n < 10 {
        seq![digit_char(n)]
    } else {
        decimal(n / 10) + seq![digit_char(n % 10)]
    }
}

/// The digit that stands for `d`.
pub open spec fn digit_char(d: nat) -> char
    recommends
        d < 10,
{
    if d == 0 {
        '0'
    } else if d == 1 {
        '1'
    } else if d == 2 {
        '2'
    } else if d == 3 {
        '3'
    } else if d == 4 {
        '4'
    } else if d == 5 {
        '5'
    } else if d == 6 {
        '6'
    } else if d == 7 {
        '7'
    } else if d == 8 {
        '8'
    } else {
        '9'
    }
}

/// Returns the digit that stands for `d`.
fn digit_of(d: usize) -> (c: char)
    requires
        d < 10,
    ensures
        c == digit_char(d as nat),
{
    if d == 0 {
        '0'
    } else if d == 1 {
        '1'
    } else if d == 2 {
        '2'
    } else if d == 3 {
        '3'
    } else if d == 4 {
        '4'
    } else if d == 5 {
        '5'
    } else if d == 6 {
        '6'
    } else if d == 7 {
        '7'
    } else if d == 8 {
        '8'
    } else {
        '9'
    }
}

/// Appends the decimal digits of `n` to `out`.
pub fn push_number(out: &mut Vec<char>, n: usize)
    ensures
        final(out)@ == old(out)@ + decimal(n as nat),
    decreases n,
{
    if n < 10 {
        out.push(digit_of(n));
        assert(out@ =~= old(out)@ + decimal(n as nat));
    } else {
        push_number(out, n / 10);
        out.push(digit_of(n % 10));
        assert(out@ =~= old(out)@ + decimal(n as nat));
    }
}

/// The digits of a number denote that number.
pub proof fn lemma_decimal_parses(n: nat)
    ensures
        decimal(n).len() > 0,
        all_digits(decimal(n)),
        decimal_value(decimal(n)) == n,
    decreases n,
{
    if n < 10 {
        assert(decimal(n).drop_last() =~= Seq::<char>::empty());
        assert(decimal_value(decimal(n).drop_last()) == 0);
    } else {
        lemma_decimal_parses(n / 10);
        assert(decimal(n).drop_last() =~= decimal(n / 10));
        assert(decimal(n).last() == digit_char(n % 10));
    }
}


/// Tells whether `chars[from..to]` holds exactly the characters of `s`.
pub(crate) fn range_equals(chars: &Vec<char>, from: usize, to: usize, s: &str) -> (r: bool)
    requires
        from <= to <= chars@.len(),
    ensures
        r == (chars@.subrange(from as int, to as int) == s@),
{
    let other = chars_of(s);
    if other.len() != to - from {
        return false;
    }
    let mut i: usize = 0;
    while i < other.len()
        invariant
            i <= other@.len(),
            other@ == s@,
            other@.len() == to - from,
            from <= to <= chars@.len(),
            forall|k: int| 0 <= k < i ==> chars@[from + k] == other@[k],
        decreases other@.len() - i,
    {
        if chars[from + i] != other[i] {
            assert(chars@.subrange(from as int, to as int)[i as int] == chars@[from + i]);
            return false;
        }
        i += 1;
    }
    assert(chars@.subrange(from as int, to as int) =~= other@);
    true
}

/// Tells whether `chars` holds exactly the characters of `s`.
pub fn chars_equal(chars: &Vec<char>, s: &str) -> (r: bool)
    ensures
        r == (chars@ == s@),
{
    assert(chars@.subrange(0, chars@.len() as int) =~= chars@);
    range_equals(chars, 0, chars.len(), s)
}

/// Tells whether `chars` starts with the characters of `prefix`.
pub fn has_prefix(chars: &Vec<char>, prefix: &str) -> (r: bool)
    ensures
        r == prefix@.is_prefix_of(chars@),
{
    let n = prefix.unicode_len();
    if n > chars.len() {
        false
    } else {
        range_equals(chars, 0, n, prefix)
    }
}

/// Tells whether `chars` ends with the characters of `suffix`.
pub fn has_suffix(chars: &Vec<char>, suffix: &str) -> (r: bool)
    ensures
        r == suffix@.is_suffix_of(chars@),
{
    let n = suffix.unicode_len();
    if n > chars.len() {
        false
    } else {
        range_equals(chars, chars.len() - n, chars.len(), suffix)
    }
}

/// The position of the first `c` in `s`, or the length of `s` if it holds none.
pub open spec fn first_index(s: Seq<char>, c: char) -> nat
    decreases s.len(),
{
    if s.len() > 0 && s[0] != c {
        1 + first_index(s.skip(1), c)
    } else {
        0
    }
}

/// Returns the position of the first `c` in `chars[from..to]`, or `to` if
/// there is none.
pub(crate) fn find_char(chars: &Vec<char>, from: usize, to: usize, c: char) -> (at: usize)
    requires
        from <= to <= chars@.len(),
    ensures
        at == from + first_index(chars@.subrange(from as int, to as int), c),
        from <= at <= to,
{
    let ghost s = chars@.subrange(from as int, to as int);
    let mut i: usize = from;
    assert(s.skip(0) =~= s);
    while i < to && chars[i] != c
        invariant
            from <= i <= to <= chars@.len(),
            s == chars@.subrange(from as int, to as int),
            i - from + first_index(s.skip(i - from), c) == first_index(s, c),
        decreases to - i,
    {
        assert(s.skip(i - from).skip(1) =~= s.skip(i + 1 - from));
        i += 1;
    }
    i
}


/// The first `n` characters of `s` are its leading word if none of them is a
/// separator and the word ends there.
pub proof fn lemma_word_len_is(s: Seq<char>, n: int)
    requires
        0 <= n <= s.len(),
        forall|i: int| 0 <= i < n ==> !is_space(#[trigger] s[i]),
        n < s.len() ==> is_space(s[n]),
    ensures
        word_len(s) == n,
    decreases n,
{
    if n > 0 {
        assert forall|i: int| 0 <= i < n - 1 implies !is_space(#[trigger] s.skip(1)[i]) by {
            assert(s.skip(1)[i] == s[i + 1]);
        }
        lemma_word_len_is(s.skip(1), n - 1);
    }
}

/// The first `n` characters of `s` are its leading separators if all of them
/// are separators and the next character is none.
pub proof fn lemma_space_len_is(s: Seq<char>, n: int)
    requires
        0 <= n <= s.len(),
        forall|i: int| 0 <= i < n ==> is_space(#[trigger] s[i]),
        n < s.len() ==> !is_space(s[n]),
    ensures
        space_len(s) == n,
    decreases n,
{
    if n > 0 {
        assert forall|i: int| 0 <= i < n - 1 implies is_space(#[trigger] s.skip(1)[i]) by {
            assert(s.skip(1)[i] == s[i + 1]);
        }
        lemma_space_len_is(s.skip(1), n - 1);
    }
}

/// The first `c` in `s` is at `n` if there is none before and one there, or
/// if there is none at all and `n` is the length of `s`.
pub proof fn lemma_first_index_is(s: Seq<char>, c: char, n: int)
    requires
        0 <= n <= s.len(),
        forall|i: int| 0 <= i < n ==> #[trigger] s[i] != c,
        n < s.len() ==> s[n] == c,
    ensures
        first_index(s, c) == n,
    decreases n,
{
    if n > 0 {
        assert forall|i: int| 0 <= i < n - 1 implies #[trigger] s.skip(1)[i] != c by {
            assert(s.skip(1)[i] == s[i + 1]);
        }
        lemma_first_index_is(s.skip(1), c, n - 1);
    }
}

/// The first line of `s` ends at `n` if there is no line feed before and one
/// there, or if there is none at all and `n` is the length of `s`.
pub proof fn lemma_line_end_is(s: Seq<char>, n: int)
    requires
        0 <= n <= s.len(),
        forall|i: int| 0 <= i < n ==> #[trigger] s[i] != '\n',
        n < s.len() ==> s[n] == '\n',
    ensures
        line_end(s) == n,
    decreases n,
{
    if n > 0 {
        assert forall|i: int| 0 <= i < n - 1 implies #[trigger] s.skip(1)[i] != '\n' by {
            assert(s.skip(1)[i] == s[i + 1]);
        }
        lemma_line_end_is(s.skip(1), n - 1);
    }
}

/// Tells whether `line` is a line: it holds no line feed. If `strict`, it
/// holds no carriage return either.
#[verifier::opaque]
pub open spec fn is_line(line: Seq<char>, strict: bool) -> bool {
    forall|i: int|
        0 <= i < line.len() ==> #[trigger] line[i] != '\n' && (strict ==> line[i] != '\r')
}

/// Tells whether the last character of a line is a carriage return.
pub open spec fn ends_with_carriage_return(line: Seq<char>) -> bool {
    line.len() > 0 && line.last() == '\r'
}

/// Tells whether the lines can be joined to a text and split again: none of
/// them holds a line feed, none but the last ends with a carriage return, and
/// the last is not empty.
#[verifier::opaque]
pub open spec fn can_be_joined(lines: Seq<Seq<char>>) -> bool {
    &&& lines.len() > 0
    &&& forall|i: int| 0 <= i < lines.len() ==> is_line(#[trigger] lines[i], false)
    &&& forall|i: int|
        0 <= i < lines.len() - 1 ==> !ends_with_carriage_return(#[trigger] lines[i])
    &&& lines.last().len() > 0
}

/// The text of a line followed by more lines starts with the line and a line
/// feed.
pub proof fn lemma_join_lines_front(first: Seq<char>, rest: Seq<Seq<char>>)
    requires
        rest.len() > 0,
    ensures
        join_lines(seq![first] + rest) == first + seq!['\n'] + join_lines(rest),
    decreases rest.len(),
{
    let all = seq![first] + rest;
    assert(all.drop_last() =~= seq![first] + rest.drop_last());
    assert(all.last() == rest.last());
    if rest.len() == 1 {
        assert(all.drop_last() =~= seq![first]);
        assert(join_lines(all.drop_last()) == first);
        assert(join_lines(rest) == rest[0]);
    } else {
        lemma_join_lines_front(first, rest.drop_last());
        assert(join_lines(all) =~= first + seq!['\n'] + join_lines(rest));
    }
}

/// Splitting a text into lines undoes joining lines into a text. A line feed
/// at the end of the text changes nothing, unless the last line ends with a
/// carriage return.
pub proof fn lemma_lines_of_join(lines: Seq<Seq<char>>)
    requires
        can_be_joined(lines),
    ensures
        lines_of(join_lines(lines)) == lines,
        !ends_with_carriage_return(lines.last()) ==> lines_of(join_lines(lines) + seq!['\n'])
            == lines,
    decreases lines.len(),
{
    reveal(can_be_joined);
    reveal(is_line);
    let first = lines[0];
    assert(is_line(first, false));
    if lines.len() == 1 {
        assert(join_lines(lines) == first);
        lemma_line_end_is(first, first.len() as int);
        assert(lines_of(first) =~= lines);
        if !ends_with_carriage_return(first) {
            let ended = first + seq!['\n'];
            lemma_line_end_is(ended, first.len() as int);
            assert(ended.take(first.len() as int) =~= first);
            assert(ended.skip(first.len() as int + 1) =~= Seq::<char>::empty());
            assert(without_cr(first) == first);
            assert(lines_of(ended.skip(first.len() as int + 1)) =~= Seq::<Seq<char>>::empty());
            assert(lines_of(ended) == seq![without_cr(ended.take(first.len() as int))] + lines_of(
                ended.skip(first.len() as int + 1),
            ));
            assert(lines_of(ended) =~= lines);
        }
    } else {
        let rest = lines.skip(1);
        assert(lines =~= seq![first] + rest);
        assert(rest.last() == lines.last());
        assert(!ends_with_carriage_return(lines[0]));
        assert(can_be_joined(rest)) by {
            assert forall|i: int| 0 <= i < rest.len() implies is_line(#[trigger] rest[i], false) by {
                assert(rest[i] == lines[i + 1]);
            }
            assert forall|i: int| 0 <= i < rest.len() - 1 implies !ends_with_carriage_return(
                #[trigger] rest[i],
            ) by {
                assert(rest[i] == lines[i + 1]);
            }
        }
        lemma_lines_of_join(rest);
        lemma_join_lines_front(first, rest);
        let text = join_lines(lines);
        assert(text == first + seq!['\n'] + join_lines(rest));
        lemma_line_end_is(text, first.len() as int);
        assert(text.take(first.len() as int) =~= first);
        assert(text.skip(first.len() as int + 1) =~= join_lines(rest));
        assert(lines_of(text) =~= lines);
        if !ends_with_carriage_return(lines.last()) {
            let ended = text + seq!['\n'];
            lemma_line_end_is(ended, first.len() as int);
            assert(ended.take(first.len() as int) =~= first);
            assert(ended.skip(first.len() as int + 1) =~= join_lines(rest) + seq!['\n']);
            assert(lines_of(ended) =~= lines);
        }
    }
}

} // verus!
