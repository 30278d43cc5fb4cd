use crate::diffs::{
    file_diff_lines, file_diff_of, file_diffs_of, file_header_of, file_header_text, file_metainfo,
    groups, hunk_body, hunk_line_texts, hunk_lines_of, hunk_of, hunks_lines, hunks_of,
    line_type_of, location_line_of, location_line_text, location_of, location_text,
    source_header_of, target_header_of, version_diff_lines, version_diff_of, word_end, word_start,
    FileDiffView, FileHeaderView, HunkLineView, HunkLocation, HunkView,
};
use crate::error::ErrorView;
use crate::text::{
    all_digits, can_be_joined, decimal, decimal_value, ends_with_carriage_return, is_digit,
    is_line, is_space, join_lines,
    lemma_decimal_parses, lemma_first_index_is, lemma_lines_of_join, lemma_space_len_is,
    lemma_word_len_is, lines_of,
};
use vstd::prelude::*;

verus! {

/// Tells whether none of the lines starts with the marker.
#[verifier::opaque]
pub open spec fn none_starts(lines: Seq<Seq<char>>, marker: Seq<char>) -> bool {
    forall|i: int| 0 <= i < lines.len() ==> !marker.is_prefix_of(#[trigger] lines[i])
}

/// Tells whether each of the lines is a line and is not empty. If `strict`,
/// none of them holds a carriage return.
#[verifier::opaque]
pub open spec fn all_lines(lines: Seq<Seq<char>>, strict: bool) -> bool {
    forall|i: int|
        0 <= i < lines.len() ==> is_line(#[trigger] lines[i], strict) && lines[i].len() > 0
}

/// If none of the lines of two sequences starts with the marker, none of
/// the lines of both does.
proof fn lemma_none_starts_concat(a: Seq<Seq<char>>, b: Seq<Seq<char>>, marker: Seq<char>)
    requires
        none_starts(a, marker),
        none_starts(b, marker),
    ensures
        none_starts(a + b, marker),
{
    reveal(none_starts);
    assert forall|i: int| 0 <= i < (a + b).len() implies !marker.is_prefix_of(
        #[trigger] (a + b)[i],
    ) by {
        if i < a.len() {
            assert((a + b)[i] == a[i]);
        } else {
            assert((a + b)[i] == b[i - a.len()]);
        }
    }
}

/// If the lines of two sequences are lines, the lines of both are.
proof fn lemma_all_lines_concat(a: Seq<Seq<char>>, b: Seq<Seq<char>>, strict: bool)
    requires
        all_lines(a, strict),
        all_lines(b, strict),
    ensures
        all_lines(a + b, strict),
{
    reveal(all_lines);
    assert forall|i: int| 0 <= i < (a + b).len() implies is_line(#[trigger] (a + b)[i], strict) && (a
        + b)[i].len() > 0 by {
        if i < a.len() {
            assert((a + b)[i] == a[i]);
        } else {
            assert((a + b)[i] == b[i - a.len()]);
        }
    }
}

/// A line that starts with the marker, followed by lines that do not, adds
/// one group to the groups of the lines before it.
pub proof fn lemma_groups_append(
    before: Seq<Seq<char>>,
    first: Seq<char>,
    tail: Seq<Seq<char>>,
    marker: Seq<char>,
)
    requires
        marker.is_prefix_of(first),
        none_starts(tail, marker),
    ensures
        groups(before + (seq![first] + tail), marker) == groups(before, marker).push(
            seq![first] + tail,
        ),
    decreases tail.len(),
{
    let group = seq![first] + tail;
    let all = before + group;
    if tail.len() == 0 {
        assert(group =~= seq![first]);
        assert(all.drop_last() =~= before);
        assert(all.last() == first);
    } else {
        let shorter = tail.drop_last();
        assert(none_starts(shorter, marker)) by {
            reveal(none_starts);
            assert forall|i: int| 0 <= i < shorter.len() implies !marker.is_prefix_of(
                #[trigger] shorter[i],
            ) by {
                assert(shorter[i] == tail[i]);
            }
        }
        lemma_groups_append(before, first, shorter, marker);
        assert(all.drop_last() =~= before + (seq![first] + shorter));
        assert(all.last() == tail.last());
        assert(!marker.is_prefix_of(tail.last())) by {
            reveal(none_starts);
            assert(tail.last() == tail[tail.len() - 1]);
        }
        let done = groups(all.drop_last(), marker);
        assert(done.last() == seq![first] + shorter);
        assert((seq![first] + shorter).push(tail.last()) =~= group);
        assert(groups(all, marker) == done.update(done.len() - 1, done.last().push(all.last())));
        assert(groups(all, marker) =~= groups(before, marker).push(group));
    }
}

/// The text of a number holds digits only, and neither a comma nor a separator.
pub proof fn lemma_decimal_chars(n: nat)
    ensures
        decimal(n).len() > 0,
        forall|i: int|
            0 <= i < decimal(n).len() ==> is_digit(#[trigger] decimal(n)[i]) && !is_space(
                decimal(n)[i],
            ) && decimal(n)[i] != ',' && decimal(n)[i] != '\n' && decimal(n)[i] != '\r',
{
    lemma_decimal_parses(n);
    assert forall|i: int| 0 <= i < decimal(n).len() implies is_digit(#[trigger] decimal(n)[i])
        && !is_space(decimal(n)[i]) && decimal(n)[i] != ',' && decimal(n)[i] != '\n' && decimal(
        n,
    )[i] != '\r' by {
        let c = decimal(n)[i];
        assert(is_digit(c));
    }
}

/// The text of a hunk location, read after a sign, is that location. The
/// text is not empty and holds no separator.
#[verifier::rlimit(40)]
pub proof fn lemma_location_round_trip(sign: char, start: usize, length: usize)
    requires
        sign == '-' || sign == '+',
    ensures
        location_of(seq![sign] + location_text(start, length)) == Some((start, length)),
        location_text(start, length).len() > 0,
        forall|i: int|
            0 <= i < location_text(start, length).len() ==> !is_space(
                #[trigger] location_text(start, length)[i],
            ) && location_text(start, length)[i] != '\n' && location_text(start, length)[i]
                != '\r',
{
    let text = location_text(start, length);
    let token = seq![sign] + text;
    let body = token.skip(1);
    assert(body =~= text);
    if start == 1 && length == 1 {
        lemma_first_index_is(body, ',', 1);
        assert(body.drop_last() =~= Seq::<char>::empty());
        assert(decimal_value(body.drop_last()) == 0);
        assert(decimal_value(body) == 1);
        assert(all_digits(body));
    } else {
        let a = decimal(start as nat);
        let b = decimal(length as nat);
        lemma_decimal_parses(start as nat);
        lemma_decimal_parses(length as nat);
        lemma_decimal_chars(start as nat);
        lemma_decimal_chars(length as nat);
        assert forall|i: int| 0 <= i < a.len() implies #[trigger] body[i] != ',' by {
            assert(body[i] == a[i]);
        }
        lemma_first_index_is(body, ',', a.len() as int);
        assert(body.take(a.len() as int) =~= a);
        assert(body.skip(a.len() as int + 1) =~= b);
        assert forall|i: int| 0 <= i < text.len() implies !is_space(#[trigger] text[i]) && text[i]
            != '\n' && text[i] != '\r' by {
            if i < a.len() {
                assert(text[i] == a[i]);
            } else if i > a.len() {
                assert(text[i] == b[i - a.len() - 1]);
            }
        }
    }
}

/// The line that is made of the given words, separated by single spaces.
pub open spec fn four_words(first: Seq<char>, second: Seq<char>, third: Seq<char>, fourth: Seq<char>)
    -> Seq<char> {
    first + seq![' '] + second + seq![' '] + third + seq![' '] + fourth
}

/// Tells whether `word` is a word: it is not empty and holds no separator.
pub open spec fn is_word(word: Seq<char>) -> bool {
    &&& word.len() > 0
    &&& forall|i: int| 0 <= i < word.len() ==> !is_space(#[trigger] word[i])
}

/// A word that stands at `start` in a line, with a space or the end of the
/// line after it, starts and ends where it stands.
proof fn lemma_word_at(line: Seq<char>, from: int, start: int, word: Seq<char>)
    requires
        is_word(word),
        0 <= from <= start,
        start + word.len() <= line.len(),
        forall|i: int| from <= i < start ==> is_space(#[trigger] line[i]),
        line.subrange(start, start + word.len()) == word,
        start + word.len() < line.len() ==> is_space(line[start + word.len()]),
    ensures
        word_start(line, from) == start,
        word_end(line, start) == start + word.len(),
{
    assert(!is_space(line[start])) by {
        assert(line.subrange(start, start + word.len())[0] == word[0]);
    }
    assert forall|i: int| 0 <= i < start - from implies is_space(#[trigger] line.skip(from)[i]) by {
        assert(line.skip(from)[i] == line[from + i]);
    }
    lemma_space_len_is(line.skip(from), start - from);
    assert forall|i: int| 0 <= i < word.len() implies !is_space(#[trigger] line.skip(start)[i]) by {
        assert(line.subrange(start, start + word.len())[i] == word[i]);
    }
    lemma_word_len_is(line.skip(start), word.len() as int);
}

/// Where the four words of a line of four words start and end.
proof fn lemma_four_words(
    first: Seq<char>,
    second: Seq<char>,
    third: Seq<char>,
    fourth: Seq<char>,
)
    requires
        is_word(first),
        is_word(second),
        is_word(third),
        is_word(fourth),
    ensures
        ({
            let line = four_words(first, second, third, fourth);
            let a = first.len() as int;
            let b = a + 1 + second.len();
            let c = b + 1 + third.len();
            let d = c + 1 + fourth.len();
            &&& line.len() == d
            &&& word_start(line, 0) == 0
            &&& word_end(line, 0) == a
            &&& word_start(line, a) == a + 1
            &&& word_end(line, a + 1) == b
            &&& word_start(line, b) == b + 1
            &&& word_end(line, b + 1) == c
            &&& word_start(line, c) == c + 1
            &&& word_end(line, c + 1) == d
            &&& line.subrange(a + 1, b) == second
            &&& line.subrange(b + 1, c) == third
            &&& line[a + 1] == second[0]
            &&& line[b + 1] == third[0]
        }),
{
    let line = four_words(first, second, third, fourth);
    let a = first.len() as int;
    let b = a + 1 + second.len();
    let c = b + 1 + third.len();
    let d = c + 1 + fourth.len();
    assert(line.subrange(0, a) =~= first);
    assert(line.subrange(a + 1, b) =~= second);
    assert(line.subrange(b + 1, c) =~= third);
    assert(line.subrange(c + 1, d) =~= fourth);
    assert(line[a] == ' ' && line[b] == ' ' && line[c] == ' ');
    lemma_word_at(line, 0, 0, first);
    lemma_word_at(line, a, a + 1, second);
    lemma_word_at(line, b, b + 1, third);
    lemma_word_at(line, c, c + 1, fourth);
}

/// The header line of a hunk is a line of four words.
#[verifier::rlimit(40)]
proof fn lemma_location_line_words(source: HunkLocation, target: HunkLocation)
    ensures
        location_line_text(source, target) == four_words(
            seq!['@', '@'],
            seq!['-'] + location_text(source.hunk_start, source.hunk_length),
            seq!['+'] + location_text(target.hunk_start, target.hunk_length),
            seq!['@', '@'],
        ),
{
    reveal_strlit("@@ -");
    reveal_strlit(" +");
    reveal_strlit(" @@");
    let s = location_text(source.hunk_start, source.hunk_length);
    let t = location_text(target.hunk_start, target.hunk_length);
    assert("@@ -"@ =~= seq!['@', '@', ' ', '-']);
    assert(" +"@ =~= seq![' ', '+']);
    assert(" @@"@ =~= seq![' ', '@', '@']);
    assert(seq!['@', '@', ' ', '-'] + s + seq![' ', '+'] + t + seq![' ', '@', '@'] =~= four_words(
        seq!['@', '@'],
        seq!['-'] + s,
        seq!['+'] + t,
        seq!['@', '@'],
    ));
}

/// The two location words of the header line of a hunk are words, and they
/// are read as the two locations.
proof fn lemma_location_words(sign: char, start: usize, length: usize)
    requires
        sign == '-' || sign == '+',
    ensures
        is_word(seq![sign] + location_text(start, length)),
        location_of(seq![sign] + location_text(start, length)) == Some((start, length)),
        (seq![sign] + location_text(start, length))[0] == sign,
{
    let text = location_text(start, length);
    let word = seq![sign] + text;
    lemma_location_round_trip(sign, start, length);
    assert forall|i: int| 0 <= i < word.len() implies !is_space(#[trigger] word[i]) by {
        if i > 0 {
            assert(word[i] == text[i - 1]);
        }
    }
}

/// A line of four words of which the first and the last are `@@`, the
/// second is a location with the sign `-`, and the third is a location with
/// the sign `+`, is read as the two locations.
#[verifier::rlimit(40)]
proof fn lemma_location_line_of_words(
    second: Seq<char>,
    third: Seq<char>,
    source: (usize, usize),
    target: (usize, usize),
)
    requires
        is_word(second),
        is_word(third),
        second[0] == '-',
        third[0] == '+',
        location_of(second) == Some(source),
        location_of(third) == Some(target),
    ensures
        location_line_of(four_words(seq!['@', '@'], second, third, seq!['@', '@'])) == Some(
            (source, target),
        ),
{
    let first = seq!['@', '@'];
    let line = four_words(first, second, third, first);
    assert(is_word(first));
    lemma_four_words(first, second, third, first);
    assert("@@ "@.is_prefix_of(line)) by {
        reveal_strlit("@@ ");
        assert("@@ "@ =~= line.subrange(0, 3));
    }
    assert(" @@"@.is_suffix_of(line)) by {
        reveal_strlit(" @@");
        assert(" @@"@ =~= line.subrange(line.len() - 3, line.len() as int));
    }
    reveal(location_line_of);
}

/// The header line of a hunk, read back, gives the two locations of the hunk.
pub proof fn lemma_location_line_round_trip(source: HunkLocation, target: HunkLocation)
    ensures
        location_line_of(location_line_text(source, target)) == Some(
            ((source.hunk_start, source.hunk_length), (target.hunk_start, target.hunk_length)),
        ),
{
    lemma_location_words('-', source.hunk_start, source.hunk_length);
    lemma_location_words('+', target.hunk_start, target.hunk_length);
    lemma_location_line_words(source, target);
    lemma_location_line_of_words(
        seq!['-'] + location_text(source.hunk_start, source.hunk_length),
        seq!['+'] + location_text(target.hunk_start, target.hunk_length),
        (source.hunk_start, source.hunk_length),
        (target.hunk_start, target.hunk_length),
    );
}

/// The header line of a hunk is a line without a carriage return. It starts
/// with `@@ `, and not with `diff `.
#[verifier::rlimit(40)]
pub proof fn lemma_location_line(source: HunkLocation, target: HunkLocation, strict: bool)
    ensures
        is_line(location_line_text(source, target), strict),
        location_line_text(source, target).len() > 0,
        "@@ "@.is_prefix_of(location_line_text(source, target)),
        !"diff "@.is_prefix_of(location_line_text(source, target)),
{
    let s = location_text(source.hunk_start, source.hunk_length);
    let t = location_text(target.hunk_start, target.hunk_length);
    lemma_location_round_trip('-', source.hunk_start, source.hunk_length);
    lemma_location_round_trip('+', target.hunk_start, target.hunk_length);
    lemma_location_line_words(source, target);
    let line = location_line_text(source, target);
    let a: int = 4 + s.len() as int;
    let b: int = a + 2 + t.len();
    assert(line.len() == b + 3);
    assert forall|i: int| 0 <= i < line.len() implies #[trigger] line[i] != '\n' && line[i]
        != '\r' by {
        if 4 <= i < a {
            assert(line[i] == s[i - 4]);
        } else if a + 2 <= i < b {
            assert(line[i] == t[i - a - 2]);
        }
    }
    assert(is_line(line, strict)) by {
        reveal(is_line);
    }
    assert("@@ "@.is_prefix_of(line)) by {
        reveal_strlit("@@ ");
        assert("@@ "@ =~= line.subrange(0, 3));
    }
    assert(!"diff "@.is_prefix_of(line)) by {
        reveal_strlit("diff ");
        if "diff "@.is_prefix_of(line) {
            assert(line.subrange(0, 5)[0] == 'd');
        }
    }
}

/// Tells whether a file header can be written to a line and read back: its
/// path is one word, and its timestamp starts with a word and is a line. If
/// `strict`, the timestamp holds no carriage return.
#[verifier::opaque]
pub open spec fn is_printable_header(header: FileHeaderView, strict: bool) -> bool {
    &&& header.path.len() > 0
    &&& forall|i: int| 0 <= i < header.path.len() ==> !is_space(#[trigger] header.path[i])
    &&& header.timestamp.len() > 0
    &&& !is_space(header.timestamp[0])
    &&& is_line(header.timestamp, strict)
}

/// The line of a file header, read back, gives the header. The line is a
/// line and starts with the marker. If `strict`, it holds no carriage
/// return.
pub proof fn lemma_file_header_round_trip(
    marker: Seq<char>,
    complaint: Seq<char>,
    header: FileHeaderView,
    strict: bool,
)
    requires
        marker == "--- "@ || marker == "+++ "@,
        is_printable_header(header, strict),
    ensures
        file_header_of(file_header_text(marker, header), marker, complaint) == Ok::<
            FileHeaderView,
            ErrorView,
        >(header),
        is_line(file_header_text(marker, header), strict),
        file_header_text(marker, header).len() > 0,
        !"diff "@.is_prefix_of(file_header_text(marker, header)),
        !"@@ "@.is_prefix_of(file_header_text(marker, header)),
{
    reveal(is_printable_header);
    reveal(is_line);
    reveal_strlit("--- ");
    reveal_strlit("+++ ");
    let line = file_header_text(marker, header);
    let p = header.path;
    let t = header.timestamp;
    let a: int = 4 + p.len() as int;
    assert(line.len() == a + 1 + t.len());
    assert(!is_space(line[0]) && !is_space(line[1]) && !is_space(line[2]) && line[3] == ' ');
    assert forall|i: int| 0 <= i < p.len() implies #[trigger] line[4 + i] == p[i] by {}
    assert(line[a] == '\t');
    assert forall|i: int| 0 <= i < t.len() implies #[trigger] line[a + 1 + i] == t[i] by {}
    lemma_space_len_is(line.skip(0), 0);
    lemma_word_len_is(line.skip(0), 3);
    assert(word_end(line, word_start(line, 0)) == 3);
    assert(line.skip(3)[1] == p[0]);
    lemma_space_len_is(line.skip(3), 1);
    assert(word_start(line, 3) == 4);
    assert forall|i: int| 0 <= i < p.len() implies !is_space(#[trigger] line.skip(4)[i]) by {
        assert(line.skip(4)[i] == p[i]);
    }
    lemma_word_len_is(line.skip(4), p.len() as int);
    assert(word_end(line, 4) == a);
    assert(line.skip(a)[1] == t[0]);
    lemma_space_len_is(line.skip(a), 1);
    assert(word_start(line, a) == a + 1);
    assert(line.subrange(4, a) =~= p);
    assert(line.skip(a + 1) =~= t);
    assert(marker =~= line.subrange(0, 4));
    assert(file_metainfo(line) == Some(header)) by {
        reveal(file_metainfo);
    }
    assert forall|i: int| 0 <= i < line.len() implies #[trigger] line[i] != '\n' && (strict
        ==> line[i] != '\r') by {
        if 4 <= i < a {
            assert(line[i] == p[i - 4]);
        } else if a + 1 <= i {
            assert(line[i] == t[i - a - 1]);
        }
    }
    assert(!"diff "@.is_prefix_of(line)) by {
        reveal_strlit("diff ");
        if "diff "@.is_prefix_of(line) {
            assert(line.subrange(0, 5)[0] == 'd');
        }
    }
    assert(!"@@ "@.is_prefix_of(line)) by {
        reveal_strlit("@@ ");
        if "@@ "@.is_prefix_of(line) {
            assert(line.subrange(0, 3)[0] == '@');
        }
    }
}


/// Tells whether a hunk can be written to lines and read back: its lines are
/// numbered as the reader numbers them, and their texts are lines. If
/// `strict`, they hold no carriage return.
#[verifier::opaque]
pub open spec fn is_printable_hunk(hunk: HunkView, strict: bool) -> bool {
    &&& hunk_body(
        hunk_line_texts(hunk.lines),
        hunk.source_location.hunk_start,
        hunk.target_location.hunk_start,
    ) == Ok::<Seq<HunkLineView>, ErrorView>(hunk.lines)
    &&& forall|i: int| 0 <= i < hunk.lines.len() ==> is_line((#[trigger] hunk.lines[i]).line, strict)
}

/// Tells whether a file diff can be written to lines and read back: its
/// command is a line that starts with `diff `, its headers and its hunks can
/// be written and read back, and it has a hunk. If `strict`, none of its
/// lines holds a carriage return.
#[verifier::opaque]
pub open spec fn is_printable_file_diff(diff: FileDiffView, strict: bool) -> bool {
    &&& "diff "@.is_prefix_of(diff.diff_command)
    &&& is_line(diff.diff_command, strict)
    &&& is_printable_header(diff.source_file_header, strict)
    &&& is_printable_header(diff.target_file_header, strict)
    &&& diff.hunks.len() > 0
    &&& forall|i: int| 0 <= i < diff.hunks.len() ==> is_printable_hunk(#[trigger] diff.hunks[i], strict)
}

/// Tells whether a version diff can be written to lines and read back: it
/// has a file diff, and each of its file diffs can be written and read back.
/// If `strict`, none of its lines holds a carriage return.
pub open spec fn is_printable(diffs: Seq<FileDiffView>, strict: bool) -> bool {
    &&& diffs.len() > 0
    &&& forall|i: int| 0 <= i < diffs.len() ==> is_printable_file_diff(#[trigger] diffs[i], strict)
}

/// A line that has a type is not empty and starts neither a hunk nor a file
/// diff.
proof fn lemma_typed_line(line: Seq<char>)
    requires
        line_type_of(line) is Some,
    ensures
        line.len() > 0,
        !"@@ "@.is_prefix_of(line),
        !"diff "@.is_prefix_of(line),
{
    reveal_strlit("\\ No newline at end of file");
    reveal_strlit("@@ ");
    reveal_strlit("diff ");
    assert(line.len() > 0);
    assert(line[0] == '\\' || line[0] == '+' || line[0] == '-' || line[0] == ' ');
    if "@@ "@.is_prefix_of(line) {
        assert(line.subrange(0, 3)[0] == '@');
    }
    if "diff "@.is_prefix_of(line) {
        assert(line.subrange(0, 5)[0] == 'd');
    }
}

/// The lines of a hunk that can be written and read back are lines, and none
/// of them starts a hunk or a file diff.
proof fn lemma_hunk_body_lines(hunk: HunkView, strict: bool)
    requires
        is_printable_hunk(hunk, strict),
    ensures
        all_lines(hunk_line_texts(hunk.lines), strict),
        none_starts(hunk_line_texts(hunk.lines), "@@ "@),
        none_starts(hunk_line_texts(hunk.lines), "diff "@),
{
    reveal(is_printable_hunk);
    let body = hunk_line_texts(hunk.lines);
    crate::diffs::lemma_line_locations(
        body,
        hunk.source_location.hunk_start,
        hunk.target_location.hunk_start,
    );
    reveal(all_lines);
    reveal(none_starts);
    assert forall|i: int| 0 <= i < body.len() implies is_line(#[trigger] body[i], strict)
        && body[i].len() > 0 && !"@@ "@.is_prefix_of(body[i]) && !"diff "@.is_prefix_of(
        body[i],
    ) by {
        assert(body[i] == hunk.lines[i].line);
        lemma_typed_line(body[i]);
    }
}

/// A hunk is read from lines that hold its parts.
proof fn lemma_hunk_of_parts(lines: Seq<Seq<char>>, hunk: HunkView)
    requires
        lines.len() > 0,
        location_line_of(lines[0]) == Some(
            (
                (hunk.source_location.hunk_start, hunk.source_location.hunk_length),
                (hunk.target_location.hunk_start, hunk.target_location.hunk_length),
            ),
        ),
        hunk_body(
            lines.skip(1),
            hunk.source_location.hunk_start,
            hunk.target_location.hunk_start,
        ) == Ok::<Seq<HunkLineView>, ErrorView>(hunk.lines),
    ensures
        hunk_of(lines) == Ok::<HunkView, ErrorView>(hunk),
{
}

/// A hunk that can be written and read back is read back from its lines.
pub proof fn lemma_hunk_round_trip(hunk: HunkView, strict: bool)
    requires
        is_printable_hunk(hunk, strict),
    ensures
        hunk_of(hunk_lines_of(hunk)) == Ok::<HunkView, ErrorView>(hunk),
{
    let lines = hunk_lines_of(hunk);
    let first = location_line_text(hunk.source_location, hunk.target_location);
    let body = hunk_line_texts(hunk.lines);
    assert(location_line_of(first) == Some(
        (
            (hunk.source_location.hunk_start, hunk.source_location.hunk_length),
            (hunk.target_location.hunk_start, hunk.target_location.hunk_length),
        ),
    )) by {
        lemma_location_line_round_trip(hunk.source_location, hunk.target_location);
    }
    assert(hunk_body(body, hunk.source_location.hunk_start, hunk.target_location.hunk_start)
        == Ok::<Seq<HunkLineView>, ErrorView>(hunk.lines)) by {
        reveal(is_printable_hunk);
    }
    assert(lines.skip(1) =~= body);
    assert(lines[0] == first);
    lemma_hunk_of_parts(lines, hunk);
}

/// The views of the given hunks as lines.
pub open spec fn hunk_groups(hunks: Seq<HunkView>) -> Seq<Seq<Seq<char>>> {
    hunks.map_values(|h: HunkView| hunk_lines_of(h))
}

/// Tells whether each of the given hunks can be written and read back.
#[verifier::opaque]
pub open spec fn are_printable_hunks(hunks: Seq<HunkView>, strict: bool) -> bool {
    forall|i: int| 0 <= i < hunks.len() ==> is_printable_hunk(#[trigger] hunks[i], strict)
}

/// A shorter sequence of hunks that can be written and read back can be
/// written and read back, and so can its last hunk.
proof fn lemma_printable_hunks_split(hunks: Seq<HunkView>, strict: bool)
    requires
        are_printable_hunks(hunks, strict),
        hunks.len() > 0,
    ensures
        are_printable_hunks(hunks.drop_last(), strict),
        is_printable_hunk(hunks.last(), strict),
{
    reveal(are_printable_hunks);
    let before = hunks.drop_last();
    assert forall|i: int| 0 <= i < before.len() implies is_printable_hunk(#[trigger] before[i], strict) by {
        assert(before[i] == hunks[i]);
    }
    assert(is_printable_hunk(hunks[hunks.len() - 1], strict));
}

/// The lines of a hunk that can be written and read back: a first line that
/// starts a hunk, and lines that start none. All of them are lines, and none
/// starts a file diff.
proof fn lemma_hunk_lines(hunk: HunkView, strict: bool)
    requires
        is_printable_hunk(hunk, strict),
    ensures
        "@@ "@.is_prefix_of(location_line_text(hunk.source_location, hunk.target_location)),
        none_starts(hunk_line_texts(hunk.lines), "@@ "@),
        all_lines(hunk_lines_of(hunk), strict),
        none_starts(hunk_lines_of(hunk), "diff "@),
{
    let first = location_line_text(hunk.source_location, hunk.target_location);
    let tail = hunk_line_texts(hunk.lines);
    lemma_hunk_body_lines(hunk, strict);
    assert(all_lines(seq![first], strict) && none_starts(seq![first], "diff "@) && "@@ "@.is_prefix_of(
        first,
    )) by {
        lemma_location_line(hunk.source_location, hunk.target_location, strict);
        reveal(all_lines);
        reveal(none_starts);
    }
    lemma_all_lines_concat(seq![first], tail, strict);
    lemma_none_starts_concat(seq![first], tail, "diff "@);
}

/// The lines of hunks as groups, one hunk after the other.
proof fn lemma_hunk_groups_push(hunks: Seq<HunkView>)
    requires
        hunks.len() > 0,
    ensures
        hunk_groups(hunks) == hunk_groups(hunks.drop_last()).push(hunk_lines_of(hunks.last())),
        hunk_groups(hunks).drop_last() == hunk_groups(hunks.drop_last()),
        hunk_groups(hunks).last() == hunk_lines_of(hunks.last()),
{
    assert(hunk_groups(hunks) =~= hunk_groups(hunks.drop_last()).push(
        hunk_lines_of(hunks.last()),
    ));
    assert(hunk_groups(hunks).drop_last() =~= hunk_groups(hunks.drop_last()));
}

/// The lines of hunks that can be written and read back fall into the
/// groups of lines of the hunks.
proof fn lemma_hunks_grouped(hunks: Seq<HunkView>, strict: bool)
    requires
        are_printable_hunks(hunks, strict),
    ensures
        groups(hunks_lines(hunks), "@@ "@) == hunk_groups(hunks),
        hunks_lines(hunks).len() >= hunks.len(),
    decreases hunks.len(),
{
    if hunks.len() == 0 {
        assert(hunk_groups(hunks) =~= Seq::<Seq<Seq<char>>>::empty());
    } else {
        let before = hunks.drop_last();
        let last = hunks.last();
        lemma_printable_hunks_split(hunks, strict);
        lemma_hunks_grouped(before, strict);
        lemma_hunk_lines(last, strict);
        lemma_hunk_groups_push(hunks);
        lemma_groups_append(
            hunks_lines(before),
            location_line_text(last.source_location, last.target_location),
            hunk_line_texts(last.lines),
            "@@ "@,
        );
    }
}

/// The groups of lines of hunks that can be written and read back are read
/// back as the hunks.
proof fn lemma_hunk_groups_read(hunks: Seq<HunkView>, strict: bool)
    requires
        are_printable_hunks(hunks, strict),
    ensures
        hunks_of(hunk_groups(hunks)) == Ok::<Seq<HunkView>, ErrorView>(hunks),
    decreases hunks.len(),
{
    if hunks.len() == 0 {
        assert(hunk_groups(hunks) =~= Seq::<Seq<Seq<char>>>::empty());
        assert(hunks =~= Seq::<HunkView>::empty());
    } else {
        let before = hunks.drop_last();
        let last = hunks.last();
        lemma_printable_hunks_split(hunks, strict);
        lemma_hunk_groups_read(before, strict);
        lemma_hunk_round_trip(last, strict);
        lemma_hunk_groups_push(hunks);
        assert(before.push(last) =~= hunks);
    }
}

/// Hunks that can be written and read back are read back from their lines.
pub proof fn lemma_hunks_round_trip(hunks: Seq<HunkView>, strict: bool)
    requires
        are_printable_hunks(hunks, strict),
    ensures
        groups(hunks_lines(hunks), "@@ "@) == hunk_groups(hunks),
        hunks_of(hunk_groups(hunks)) == Ok::<Seq<HunkView>, ErrorView>(hunks),
        hunks_lines(hunks).len() >= hunks.len(),
{
    lemma_hunks_grouped(hunks, strict);
    lemma_hunk_groups_read(hunks, strict);
}

/// The lines of hunks that can be written and read back are lines, and none
/// of them starts a file diff.
proof fn lemma_hunks_lines(hunks: Seq<HunkView>, strict: bool)
    requires
        are_printable_hunks(hunks, strict),
    ensures
        all_lines(hunks_lines(hunks), strict),
        none_starts(hunks_lines(hunks), "diff "@),
    decreases hunks.len(),
{
    if hunks.len() == 0 {
        reveal(all_lines);
        reveal(none_starts);
    } else {
        lemma_printable_hunks_split(hunks, strict);
        lemma_hunks_lines(hunks.drop_last(), strict);
        lemma_hunk_lines(hunks.last(), strict);
        lemma_all_lines_concat(hunks_lines(hunks.drop_last()), hunk_lines_of(hunks.last()), strict);
        lemma_none_starts_concat(
            hunks_lines(hunks.drop_last()),
            hunk_lines_of(hunks.last()),
            "diff "@,
        );
    }
}

/// The parts of a file diff that can be written and read back.
proof fn lemma_printable_parts(diff: FileDiffView, strict: bool)
    requires
        is_printable_file_diff(diff, strict),
    ensures
        "diff "@.is_prefix_of(diff.diff_command),
        is_line(diff.diff_command, strict),
        diff.diff_command.len() > 0,
        is_printable_header(diff.source_file_header, strict),
        is_printable_header(diff.target_file_header, strict),
        diff.hunks.len() > 0,
        are_printable_hunks(diff.hunks, strict),
{
    reveal(is_printable_file_diff);
    reveal(are_printable_hunks);
    reveal_strlit("diff ");
}

/// A file diff is read from lines that hold its parts.
proof fn lemma_file_diff_of_parts(lines: Seq<Seq<char>>, diff: FileDiffView)
    requires
        lines.len() > 3,
        lines[0] == diff.diff_command,
        "diff "@.is_prefix_of(lines[0]),
        source_header_of(lines[1]) == Ok::<FileHeaderView, ErrorView>(diff.source_file_header),
        target_header_of(lines[2]) == Ok::<FileHeaderView, ErrorView>(diff.target_file_header),
        hunks_of(groups(lines.skip(3), "@@ "@)) == Ok::<Seq<HunkView>, ErrorView>(diff.hunks),
    ensures
        file_diff_of(lines) == Ok::<FileDiffView, ErrorView>(diff),
{
}

/// The lines of a file diff, one by one.
proof fn lemma_file_diff_lines_shape(diff: FileDiffView)
    ensures
        file_diff_lines(diff).len() == 3 + hunks_lines(diff.hunks).len(),
        file_diff_lines(diff)[0] == diff.diff_command,
        file_diff_lines(diff)[1] == file_header_text("--- "@, diff.source_file_header),
        file_diff_lines(diff)[2] == file_header_text("+++ "@, diff.target_file_header),
        file_diff_lines(diff).skip(3) == hunks_lines(diff.hunks),
        file_diff_lines(diff).skip(1) == seq![
            file_header_text("--- "@, diff.source_file_header),
            file_header_text("+++ "@, diff.target_file_header),
        ] + hunks_lines(diff.hunks),
        file_diff_lines(diff) == seq![diff.diff_command] + file_diff_lines(diff).skip(1),
{
    let lines = file_diff_lines(diff);
    let tail = hunks_lines(diff.hunks);
    assert(lines.skip(3) =~= tail);
    assert(lines.skip(1) =~= seq![
        file_header_text("--- "@, diff.source_file_header),
        file_header_text("+++ "@, diff.target_file_header),
    ] + tail);
    assert(lines =~= seq![diff.diff_command] + lines.skip(1));
}

/// The header lines of a file diff that can be written and read back are
/// read back.
proof fn lemma_header_lines_read(diff: FileDiffView, strict: bool)
    requires
        is_printable_file_diff(diff, strict),
    ensures
        source_header_of(file_header_text("--- "@, diff.source_file_header)) == Ok::<
            FileHeaderView,
            ErrorView,
        >(diff.source_file_header),
        target_header_of(file_header_text("+++ "@, diff.target_file_header)) == Ok::<
            FileHeaderView,
            ErrorView,
        >(diff.target_file_header),
{
    lemma_printable_parts(diff, strict);
    lemma_file_header_round_trip(
        "--- "@,
        "invalid format: line does not start with '--- '"@,
        diff.source_file_header,
        strict,
    );
    lemma_file_header_round_trip(
        "+++ "@,
        "invalid format: line does not start with '+++ '"@,
        diff.target_file_header,
        strict,
    );
}

/// The line of a file header that can be written and read back is a line,
/// and it starts no file diff.
proof fn lemma_header_line(marker: Seq<char>, header: FileHeaderView, strict: bool)
    requires
        marker == "--- "@ || marker == "+++ "@,
        is_printable_header(header, strict),
    ensures
        all_lines(seq![file_header_text(marker, header)], strict),
        none_starts(seq![file_header_text(marker, header)], "diff "@),
{
    lemma_file_header_round_trip(marker, Seq::empty(), header, strict);
    reveal(all_lines);
    reveal(none_starts);
}

/// The header lines of a file diff that can be written and read back are
/// lines, and they start no file diff.
proof fn lemma_header_lines(diff: FileDiffView, strict: bool)
    requires
        is_printable_file_diff(diff, strict),
    ensures
        all_lines(
            seq![
                file_header_text("--- "@, diff.source_file_header),
                file_header_text("+++ "@, diff.target_file_header),
            ],
            strict,
        ),
        none_starts(
            seq![
                file_header_text("--- "@, diff.source_file_header),
                file_header_text("+++ "@, diff.target_file_header),
            ],
            "diff "@,
        ),
        all_lines(seq![diff.diff_command], strict),
{
    let source = file_header_text("--- "@, diff.source_file_header);
    let target = file_header_text("+++ "@, diff.target_file_header);
    lemma_printable_parts(diff, strict);
    lemma_header_line("--- "@, diff.source_file_header, strict);
    lemma_header_line("+++ "@, diff.target_file_header, strict);
    lemma_all_lines_concat(seq![source], seq![target], strict);
    lemma_none_starts_concat(seq![source], seq![target], "diff "@);
    assert(seq![source] + seq![target] =~= seq![source, target]);
    assert(all_lines(seq![diff.diff_command], strict)) by {
        reveal(all_lines);
    }
}

/// A file diff that can be written and read back is read back from its
/// lines.
pub proof fn lemma_file_diff_round_trip(diff: FileDiffView, strict: bool)
    requires
        is_printable_file_diff(diff, strict),
    ensures
        file_diff_of(file_diff_lines(diff)) == Ok::<FileDiffView, ErrorView>(diff),
{
    lemma_printable_parts(diff, strict);
    lemma_header_lines_read(diff, strict);
    lemma_hunks_round_trip(diff.hunks, strict);
    lemma_file_diff_lines_shape(diff);
    lemma_file_diff_of_parts(file_diff_lines(diff), diff);
}

/// The lines of a file diff that can be written and read back: the first of
/// them starts a file diff, and the others do not. All of them are lines.
proof fn lemma_file_diff_lines(diff: FileDiffView, strict: bool)
    requires
        is_printable_file_diff(diff, strict),
    ensures
        file_diff_lines(diff) == seq![diff.diff_command] + file_diff_lines(diff).skip(1),
        "diff "@.is_prefix_of(diff.diff_command),
        none_starts(file_diff_lines(diff).skip(1), "diff "@),
        all_lines(file_diff_lines(diff), strict),
{
    let heads = seq![
        file_header_text("--- "@, diff.source_file_header),
        file_header_text("+++ "@, diff.target_file_header),
    ];
    let tail = hunks_lines(diff.hunks);
    lemma_printable_parts(diff, strict);
    lemma_header_lines(diff, strict);
    lemma_hunks_lines(diff.hunks, strict);
    lemma_file_diff_lines_shape(diff);
    lemma_none_starts_concat(heads, tail, "diff "@);
    lemma_all_lines_concat(heads, tail, strict);
    lemma_all_lines_concat(seq![diff.diff_command], heads + tail, strict);
}

/// The views of the given file diffs as lines.
pub open spec fn file_diff_groups(diffs: Seq<FileDiffView>) -> Seq<Seq<Seq<char>>> {
    diffs.map_values(|d: FileDiffView| file_diff_lines(d))
}

/// Tells whether each of the given file diffs can be written and read back.
#[verifier::opaque]
pub open spec fn are_printable_file_diffs(diffs: Seq<FileDiffView>, strict: bool) -> bool {
    forall|i: int| 0 <= i < diffs.len() ==> is_printable_file_diff(#[trigger] diffs[i], strict)
}

/// A shorter sequence of file diffs that can be written and read back can be
/// written and read back, and so can its last file diff.
proof fn lemma_printable_file_diffs_split(diffs: Seq<FileDiffView>, strict: bool)
    requires
        are_printable_file_diffs(diffs, strict),
        diffs.len() > 0,
    ensures
        are_printable_file_diffs(diffs.drop_last(), strict),
        is_printable_file_diff(diffs.last(), strict),
{
    reveal(are_printable_file_diffs);
    let before = diffs.drop_last();
    assert forall|i: int| 0 <= i < before.len() implies is_printable_file_diff(
        #[trigger] before[i],
        strict,
    ) by {
        assert(before[i] == diffs[i]);
    }
    assert(is_printable_file_diff(diffs[diffs.len() - 1], strict));
}

/// The lines of file diffs as groups, one file diff after the other.
proof fn lemma_file_diff_groups_push(diffs: Seq<FileDiffView>)
    requires
        diffs.len() > 0,
    ensures
        file_diff_groups(diffs) == file_diff_groups(diffs.drop_last()).push(
            file_diff_lines(diffs.last()),
        ),
        file_diff_groups(diffs).drop_last() == file_diff_groups(diffs.drop_last()),
        file_diff_groups(diffs).last() == file_diff_lines(diffs.last()),
{
    assert(file_diff_groups(diffs) =~= file_diff_groups(diffs.drop_last()).push(
        file_diff_lines(diffs.last()),
    ));
    assert(file_diff_groups(diffs).drop_last() =~= file_diff_groups(diffs.drop_last()));
}

/// The lines of file diffs that can be written and read back fall into the
/// groups of lines of the file diffs.
proof fn lemma_file_diffs_grouped(diffs: Seq<FileDiffView>, strict: bool)
    requires
        are_printable_file_diffs(diffs, strict),
    ensures
        groups(version_diff_lines(diffs), "diff "@) == file_diff_groups(diffs),
        version_diff_lines(diffs).len() >= diffs.len(),
    decreases diffs.len(),
{
    if diffs.len() == 0 {
        assert(file_diff_groups(diffs) =~= Seq::<Seq<Seq<char>>>::empty());
    } else {
        let before = diffs.drop_last();
        let last = diffs.last();
        lemma_printable_file_diffs_split(diffs, strict);
        lemma_file_diffs_grouped(before, strict);
        lemma_file_diff_lines(last, strict);
        lemma_file_diff_groups_push(diffs);
        lemma_groups_append(
            version_diff_lines(before),
            last.diff_command,
            file_diff_lines(last).skip(1),
            "diff "@,
        );
    }
}

/// The groups of lines of file diffs that can be written and read back are
/// read back as the file diffs.
proof fn lemma_file_diff_groups_read(diffs: Seq<FileDiffView>, strict: bool)
    requires
        are_printable_file_diffs(diffs, strict),
    ensures
        file_diffs_of(file_diff_groups(diffs)) == Ok::<Seq<FileDiffView>, ErrorView>(diffs),
    decreases diffs.len(),
{
    if diffs.len() == 0 {
        assert(file_diff_groups(diffs) =~= Seq::<Seq<Seq<char>>>::empty());
        assert(diffs =~= Seq::<FileDiffView>::empty());
    } else {
        let before = diffs.drop_last();
        let last = diffs.last();
        lemma_printable_file_diffs_split(diffs, strict);
        lemma_file_diff_groups_read(before, strict);
        lemma_file_diff_round_trip(last, strict);
        lemma_file_diff_groups_push(diffs);
        assert(before.push(last) =~= diffs);
    }
}

/// File diffs that can be written and read back are read back from their
/// lines.
pub proof fn lemma_file_diffs_round_trip(diffs: Seq<FileDiffView>, strict: bool)
    requires
        are_printable_file_diffs(diffs, strict),
    ensures
        groups(version_diff_lines(diffs), "diff "@) == file_diff_groups(diffs),
        file_diffs_of(file_diff_groups(diffs)) == Ok::<Seq<FileDiffView>, ErrorView>(diffs),
        version_diff_lines(diffs).len() >= diffs.len(),
{
    lemma_file_diffs_grouped(diffs, strict);
    lemma_file_diff_groups_read(diffs, strict);
}

/// The lines of file diffs that can be written and read back are lines.
proof fn lemma_version_diff_lines(diffs: Seq<FileDiffView>, strict: bool)
    requires
        are_printable_file_diffs(diffs, strict),
    ensures
        all_lines(version_diff_lines(diffs), strict),
    decreases diffs.len(),
{
    if diffs.len() == 0 {
        reveal(all_lines);
    } else {
        lemma_printable_file_diffs_split(diffs, strict);
        lemma_version_diff_lines(diffs.drop_last(), strict);
        lemma_file_diff_lines(diffs.last(), strict);
        lemma_all_lines_concat(
            version_diff_lines(diffs.drop_last()),
            file_diff_lines(diffs.last()),
            strict,
        );
    }
}

/// The text of a version diff: the lines of its file diffs, joined by line
/// feeds.
pub open spec fn version_diff_text(diffs: Seq<FileDiffView>) -> Seq<char> {
    join_lines(version_diff_lines(diffs))
}

/// Tells whether none of the lines but the last ends with a carriage return.
#[verifier::opaque]
pub open spec fn inner_lines_end_plainly(lines: Seq<Seq<char>>) -> bool {
    forall|i: int| 0 <= i < lines.len() - 1 ==> !ends_with_carriage_return(#[trigger] lines[i])
}

/// Tells whether a version diff can be written to a text and read back: it
/// can be written to lines and read back, and none of its lines but the last
/// ends with a carriage return.
pub open spec fn is_writable(diffs: Seq<FileDiffView>) -> bool {
    is_printable(diffs, false) && inner_lines_end_plainly(version_diff_lines(diffs))
}

/// Reading undoes writing. A version diff that can be written and read back
/// is read back from its text. It is also read back from its text with a
/// line feed at the end, unless its last line ends with a carriage return.
pub proof fn lemma_read_undoes_write(diffs: Seq<FileDiffView>)
    requires
        is_writable(diffs),
    ensures
        version_diff_of(version_diff_text(diffs)) == Ok::<Seq<FileDiffView>, ErrorView>(diffs),
        !ends_with_carriage_return(version_diff_lines(diffs).last()) ==> version_diff_of(
            version_diff_text(diffs) + seq!['\n'],
        ) == Ok::<Seq<FileDiffView>, ErrorView>(diffs),
{
    assert(are_printable_file_diffs(diffs, false)) by {
        reveal(are_printable_file_diffs);
    }
    lemma_file_diffs_round_trip(diffs, false);
    lemma_version_diff_lines(diffs, false);
    let lines = version_diff_lines(diffs);
    assert(can_be_joined(lines)) by {
        reveal(all_lines);
        reveal(can_be_joined);
        reveal(inner_lines_end_plainly);
        assert(lines.last() == lines[lines.len() - 1]);
    }
    lemma_lines_of_join(lines);
}

/// The round trip. Let a text be the text of a version diff that can be
/// written and read back, or that text with a line feed at its end, where
/// the last line of the version diff does not end with a carriage return.
/// Then the text can be read, and what is read is written as the text, up to
/// the line feed at its end.
pub proof fn lemma_round_trip(text: Seq<char>, diffs: Seq<FileDiffView>)
    requires
        is_writable(diffs),
        text == version_diff_text(diffs) || (text == version_diff_text(diffs) + seq!['\n']
            && !ends_with_carriage_return(version_diff_lines(diffs).last())),
    ensures
        version_diff_of(text) is Ok,
        version_diff_text(version_diff_of(text)->Ok_0) == text || version_diff_text(
            version_diff_of(text)->Ok_0,
        ) + seq!['\n'] == text,
{
    lemma_read_undoes_write(diffs);
}

/// Tells whether a text holds no carriage return.
#[verifier::opaque]
pub open spec fn has_no_carriage_return(text: Seq<char>) -> bool {
    forall|i: int| 0 <= i < text.len() ==> #[trigger] text[i] != '\r'
}

/// Tells whether each of the lines is a line. If `strict`, none of them
/// holds a carriage return.
#[verifier::opaque]
pub open spec fn are_lines(lines: Seq<Seq<char>>, strict: bool) -> bool {
    forall|i: int| 0 <= i < lines.len() ==> is_line(#[trigger] lines[i], strict)
}

/// Tells whether each line of each of the groups is a line. If `strict`,
/// none of them holds a carriage return.
#[verifier::opaque]
pub open spec fn are_groups_of_lines(groups: Seq<Seq<Seq<char>>>, strict: bool) -> bool {
    forall|i: int| 0 <= i < groups.len() ==> are_lines(#[trigger] groups[i], strict)
}

/// A part of a line is a line.
proof fn lemma_line_part(line: Seq<char>, from: int, to: int, strict: bool)
    requires
        is_line(line, strict),
        0 <= from <= to <= line.len(),
    ensures
        is_line(line.subrange(from, to), strict),
{
    reveal(is_line);
    assert forall|i: int| 0 <= i < to - from implies #[trigger] line.subrange(from, to)[i] != '\n'
        && (strict ==> line.subrange(from, to)[i] != '\r') by {
        assert(line.subrange(from, to)[i] == line[from + i]);
    }
}

/// Each of a sequence of lines is a line.
proof fn lemma_line_of_lines(lines: Seq<Seq<char>>, i: int, strict: bool)
    requires
        are_lines(lines, strict),
        0 <= i < lines.len(),
    ensures
        is_line(lines[i], strict),
{
    reveal(are_lines);
}

/// A line after lines makes lines.
proof fn lemma_lines_push(lines: Seq<Seq<char>>, line: Seq<char>, strict: bool)
    requires
        are_lines(lines, strict),
        is_line(line, strict),
    ensures
        are_lines(lines.push(line), strict),
        are_lines(seq![line], strict),
{
    reveal(are_lines);
    assert forall|i: int| 0 <= i < lines.push(line).len() implies is_line(
        #[trigger] lines.push(line)[i],
        strict,
    ) by {
        if i < lines.len() {
            assert(lines.push(line)[i] == lines[i]);
        }
    }
}

/// A part of a sequence of lines is a sequence of lines.
proof fn lemma_lines_part(lines: Seq<Seq<char>>, from: int, to: int, strict: bool)
    requires
        are_lines(lines, strict),
        0 <= from <= to <= lines.len(),
    ensures
        are_lines(lines.subrange(from, to), strict),
{
    reveal(are_lines);
    assert forall|i: int| 0 <= i < to - from implies is_line(
        #[trigger] lines.subrange(from, to)[i],
        strict,
    ) by {
        assert(lines.subrange(from, to)[i] == lines[from + i]);
    }
}

/// The lines of a text are lines. If the text holds no carriage return, none
/// of them does.
pub proof fn lemma_lines_of_text(text: Seq<char>, strict: bool)
    requires
        strict ==> has_no_carriage_return(text),
    ensures
        are_lines(lines_of(text), strict),
    decreases text.len(),
{
    if text.len() == 0 {
        reveal(are_lines);
    } else {
        let k = crate::text::line_end(text) as int;
        crate::text::lemma_line_end_bound(text);
        let first = text.take(if k >= text.len() {
            text.len() as int
        } else {
            k
        });
        assert(is_line(first, strict)) by {
            reveal(is_line);
            reveal(has_no_carriage_return);
        }
        if k >= text.len() {
            assert(first =~= text);
            let empty = Seq::<Seq<char>>::empty();
            assert(are_lines(empty, strict)) by {
                reveal(are_lines);
            }
            lemma_lines_push(empty, text, strict);
            assert(empty.push(text) =~= seq![text]);
        } else {
            let rest = text.skip(k + 1);
            assert(strict ==> has_no_carriage_return(rest)) by {
                reveal(has_no_carriage_return);
                if strict {
                    assert forall|i: int| 0 <= i < rest.len() implies #[trigger] rest[i]
                        != '\r' by {
                        assert(rest[i] == text[k + 1 + i]);
                    }
                }
            }
            lemma_lines_of_text(rest, strict);
            let head = crate::text::without_cr(first);
            assert(is_line(head, strict)) by {
                if head != first {
                    assert(head =~= first.subrange(0, first.len() - 1));
                    lemma_line_part(first, 0, first.len() - 1, strict);
                }
            }
            let tail = lines_of(rest);
            assert(are_lines(seq![head] + tail, strict)) by {
                reveal(are_lines);
                assert forall|i: int| 0 <= i < (seq![head] + tail).len() implies is_line(
                    #[trigger] (seq![head] + tail)[i],
                    strict,
                ) by {
                    if i > 0 {
                        assert((seq![head] + tail)[i] == tail[i - 1]);
                    }
                }
            }
        }
    }
}

/// The groups of lines are groups of lines.
pub proof fn lemma_groups_of_lines(lines: Seq<Seq<char>>, marker: Seq<char>, strict: bool)
    requires
        are_lines(lines, strict),
    ensures
        are_groups_of_lines(groups(lines, marker), strict),
    decreases lines.len(),
{
    if lines.len() == 0 {
        reveal(are_groups_of_lines);
    } else {
        let before = groups(lines.drop_last(), marker);
        lemma_lines_part(lines, 0, lines.len() - 1, strict);
        assert(lines.drop_last() =~= lines.subrange(0, lines.len() - 1));
        lemma_groups_of_lines(lines.drop_last(), marker, strict);
        lemma_line_of_lines(lines, lines.len() - 1, strict);
        let result = groups(lines, marker);
        if before.len() == 0 || marker.is_prefix_of(lines.last()) {
            let empty = Seq::<Seq<char>>::empty();
            assert(are_lines(empty, strict)) by {
                reveal(are_lines);
            }
            lemma_lines_push(empty, lines.last(), strict);
            assert(empty.push(lines.last()) =~= seq![lines.last()]);
            assert(are_groups_of_lines(result, strict)) by {
                reveal(are_groups_of_lines);
                assert forall|i: int| 0 <= i < result.len() implies are_lines(
                    #[trigger] result[i],
                    strict,
                ) by {
                    if i < before.len() {
                        assert(result[i] == before[i]);
                    }
                }
            }
        } else {
            assert(are_lines(before.last(), strict)) by {
                reveal(are_groups_of_lines);
                assert(before.last() == before[before.len() - 1]);
            }
            lemma_lines_push(before.last(), lines.last(), strict);
            assert(are_groups_of_lines(result, strict)) by {
                reveal(are_groups_of_lines);
                assert forall|i: int| 0 <= i < result.len() implies are_lines(
                    #[trigger] result[i],
                    strict,
                ) by {
                    if i < before.len() - 1 {
                        assert(result[i] == before[i]);
                    }
                }
            }
        }
    }
}

/// A header that is read from a line can be written and read back.
pub proof fn lemma_header_printable(
    line: Seq<char>,
    marker: Seq<char>,
    complaint: Seq<char>,
    header: FileHeaderView,
    strict: bool,
)
    requires
        file_header_of(line, marker, complaint) == Ok::<FileHeaderView, ErrorView>(header),
        is_line(line, strict),
    ensures
        is_printable_header(header, strict),
{
    let marker_start = word_start(line, 0);
    crate::text::lemma_space_len_bound(line.skip(0));
    let marker_end = word_end(line, marker_start);
    crate::text::lemma_word_len_bound(line.skip(marker_start));
    let path_start = word_start(line, marker_end);
    crate::text::lemma_space_len_bound(line.skip(marker_end));
    let path_end = word_end(line, path_start);
    crate::text::lemma_word_len_bound(line.skip(path_start));
    let time_start = word_start(line, path_end);
    crate::text::lemma_space_len_bound(line.skip(path_end));
    reveal(file_metainfo);
    assert(file_metainfo(line) == Some(header));
    assert(time_start < line.len());
    assert(header.path == line.subrange(path_start, path_end));
    assert(header.timestamp == line.skip(time_start));
    assert(!is_space(line.skip(path_end)[time_start - path_end]));
    assert(header.timestamp[0] == line.skip(path_end)[time_start - path_end]);
    assert(path_start < path_end) by {
        if path_start == path_end {
            assert(line.skip(path_end)[0] == line.skip(path_start)[0]);
        }
    }
    assert forall|i: int| 0 <= i < header.path.len() implies !is_space(
        #[trigger] header.path[i],
    ) by {
        assert(header.path[i] == line.skip(path_start)[i]);
    }
    assert(line.skip(time_start) =~= line.subrange(time_start, line.len() as int));
    lemma_line_part(line, time_start, line.len() as int, strict);
    reveal(is_printable_header);
}

/// The texts of the lines of a hunk that was read are the lines it was read
/// from.
proof fn lemma_hunk_body_texts(lines: Seq<Seq<char>>, source_start: usize, target_start: usize)
    requires
        hunk_body(lines, source_start, target_start) is Ok,
    ensures
        hunk_line_texts(hunk_body(lines, source_start, target_start)->Ok_0) == lines,
{
    crate::diffs::lemma_line_locations(lines, source_start, target_start);
    let body = hunk_body(lines, source_start, target_start)->Ok_0;
    assert forall|k: int| 0 <= k < lines.len() implies #[trigger] hunk_line_texts(body)[k]
        == lines[k] by {
        assert(line_type_of(lines[k]) is Some);
        assert(body[k].line == lines[k]);
    }
    assert(hunk_line_texts(body) =~= lines);
}

/// A hunk that is read from lines can be written and read back.
pub proof fn lemma_hunk_printable(lines: Seq<Seq<char>>, hunk: HunkView, strict: bool)
    requires
        hunk_of(lines) == Ok::<HunkView, ErrorView>(hunk),
        are_lines(lines, strict),
    ensures
        is_printable_hunk(hunk, strict),
{
    let body_lines = lines.skip(1);
    assert(lines.len() > 0) by {
        if lines.len() == 0 {
            reveal_strlit("@@ ");
            reveal(location_line_of);
            assert(location_line_of(Seq::<char>::empty()) is None);
        }
    }
    let source_start = hunk.source_location.hunk_start;
    let target_start = hunk.target_location.hunk_start;
    assert(hunk_body(body_lines, source_start, target_start) == Ok::<
        Seq<HunkLineView>,
        ErrorView,
    >(hunk.lines));
    lemma_hunk_body_texts(body_lines, source_start, target_start);
    crate::diffs::lemma_line_locations(body_lines, source_start, target_start);
    assert forall|i: int| 0 <= i < hunk.lines.len() implies is_line(
        (#[trigger] hunk.lines[i]).line,
        strict,
    ) by {
        assert(hunk_line_texts(hunk.lines)[i] == hunk.lines[i].line);
        assert(body_lines[i] == lines[i + 1]);
        lemma_line_of_lines(lines, i + 1, strict);
    }
    reveal(is_printable_hunk);
}

/// Hunks that are read from groups of lines can be written and read
/// back, and there is one for each group.
pub proof fn lemma_hunks_printable(groups: Seq<Seq<Seq<char>>>, hunks: Seq<HunkView>, strict: bool)
    requires
        hunks_of(groups) == Ok::<Seq<HunkView>, ErrorView>(hunks),
        are_groups_of_lines(groups, strict),
    ensures
        are_printable_hunks(hunks, strict),
        hunks.len() == groups.len(),
    decreases groups.len(),
{
    if groups.len() == 0 {
        reveal(are_printable_hunks);
    } else {
        let before = hunks_of(groups.drop_last())->Ok_0;
        let last = hunk_of(groups.last())->Ok_0;
        assert(hunks == before.push(last));
        assert(are_groups_of_lines(groups.drop_last(), strict) && are_lines(groups.last(), strict)) by {
            reveal(are_groups_of_lines);
            assert forall|i: int| 0 <= i < groups.drop_last().len() implies are_lines(
                #[trigger] groups.drop_last()[i],
                strict,
            ) by {
                assert(groups.drop_last()[i] == groups[i]);
            }
            assert(groups.last() == groups[groups.len() - 1]);
        }
        lemma_hunks_printable(groups.drop_last(), before, strict);
        lemma_hunk_printable(groups.last(), last, strict);
        assert(are_printable_hunks(hunks, strict)) by {
            reveal(are_printable_hunks);
            assert forall|i: int| 0 <= i < hunks.len() implies is_printable_hunk(
                #[trigger] hunks[i],
                strict,
            ) by {
                if i < before.len() {
                    assert(hunks[i] == before[i]);
                }
            }
        }
    }
}

/// A file diff that is read from lines can be written and read back.
pub proof fn lemma_file_diff_printable(lines: Seq<Seq<char>>, diff: FileDiffView, strict: bool)
    requires
        file_diff_of(lines) == Ok::<FileDiffView, ErrorView>(diff),
        are_lines(lines, strict),
    ensures
        is_printable_file_diff(diff, strict),
{
    assert(lines.len() > 3);
    let hunk_groups = groups(lines.skip(3), "@@ "@);
    assert(is_line(diff.diff_command, strict)) by {
        lemma_line_of_lines(lines, 0, strict);
    }
    assert(is_printable_header(diff.source_file_header, strict)) by {
        lemma_line_of_lines(lines, 1, strict);
        lemma_header_printable(
            lines[1],
            "--- "@,
            "invalid format: line does not start with '--- '"@,
            diff.source_file_header,
            strict,
        );
    }
    assert(is_printable_header(diff.target_file_header, strict)) by {
        lemma_line_of_lines(lines, 2, strict);
        lemma_header_printable(
            lines[2],
            "+++ "@,
            "invalid format: line does not start with '+++ '"@,
            diff.target_file_header,
            strict,
        );
    }
    assert(are_printable_hunks(diff.hunks, strict) && diff.hunks.len() > 0) by {
        lemma_lines_part(lines, 3, lines.len() as int, strict);
        assert(lines.skip(3) =~= lines.subrange(3, lines.len() as int));
        lemma_groups_of_lines(lines.skip(3), "@@ "@, strict);
        lemma_hunks_printable(hunk_groups, diff.hunks, strict);
        assert(groups(lines.skip(3), "@@ "@).len() > 0);
    }
    assert(forall|i: int|
        0 <= i < diff.hunks.len() ==> is_printable_hunk(#[trigger] diff.hunks[i], strict)) by {
        reveal(are_printable_hunks);
    }
    reveal(is_printable_file_diff);
}

/// File diffs that are read from groups of lines can be written and
/// read back.
pub proof fn lemma_file_diffs_printable(groups: Seq<Seq<Seq<char>>>, diffs: Seq<FileDiffView>, strict: bool)
    requires
        file_diffs_of(groups) == Ok::<Seq<FileDiffView>, ErrorView>(diffs),
        are_groups_of_lines(groups, strict),
    ensures
        are_printable_file_diffs(diffs, strict),
    decreases groups.len(),
{
    if groups.len() == 0 {
        reveal(are_printable_file_diffs);
    } else {
        let before = file_diffs_of(groups.drop_last())->Ok_0;
        let last = file_diff_of(groups.last())->Ok_0;
        assert(diffs == before.push(last));
        assert(are_groups_of_lines(groups.drop_last(), strict) && are_lines(groups.last(), strict)) by {
            reveal(are_groups_of_lines);
            assert forall|i: int| 0 <= i < groups.drop_last().len() implies are_lines(
                #[trigger] groups.drop_last()[i],
                strict,
            ) by {
                assert(groups.drop_last()[i] == groups[i]);
            }
            assert(groups.last() == groups[groups.len() - 1]);
        }
        lemma_file_diffs_printable(groups.drop_last(), before, strict);
        lemma_file_diff_printable(groups.last(), last, strict);
        assert(are_printable_file_diffs(diffs, strict)) by {
            reveal(are_printable_file_diffs);
            assert forall|i: int| 0 <= i < diffs.len() implies is_printable_file_diff(
                #[trigger] diffs[i],
                strict,
            ) by {
                if i < before.len() {
                    assert(diffs[i] == before[i]);
                }
            }
        }
    }
}

/// What is read from a text can be written to lines and read back. If the
/// text holds no carriage return, none of the lines does.
pub proof fn lemma_read_is_printable(text: Seq<char>, strict: bool)
    requires
        version_diff_of(text) is Ok,
        strict ==> has_no_carriage_return(text),
    ensures
        is_printable(version_diff_of(text)->Ok_0, strict),
{
    let diffs = version_diff_of(text)->Ok_0;
    let blocks = groups(lines_of(text), "diff "@);
    lemma_lines_of_text(text, strict);
    lemma_groups_of_lines(lines_of(text), "diff "@, strict);
    lemma_file_diffs_printable(blocks, diffs, strict);
    reveal(are_printable_file_diffs);
}

/// Lines without a carriage return do not end with one.
proof fn lemma_strict_lines_end_plainly(lines: Seq<Seq<char>>)
    requires
        all_lines(lines, true),
    ensures
        inner_lines_end_plainly(lines),
        lines.len() > 0 ==> !ends_with_carriage_return(lines.last()),
{
    reveal(all_lines);
    reveal(is_line);
    reveal(inner_lines_end_plainly);
    assert forall|i: int| 0 <= i < lines.len() implies !ends_with_carriage_return(
        #[trigger] lines[i],
    ) by {
        if lines[i].len() > 0 {
            assert(lines[i].last() == lines[i][lines[i].len() - 1]);
        }
    }
    if lines.len() > 0 {
        assert(lines.last() == lines[lines.len() - 1]);
    }
}

/// Reading, writing, and reading again. If a text without carriage returns
/// can be read, then what is read from it is written as a text that is read
/// as the same, with or without a line feed at its end.
pub proof fn lemma_read_write_read(text: Seq<char>)
    requires
        version_diff_of(text) is Ok,
        has_no_carriage_return(text),
    ensures
        is_writable(version_diff_of(text)->Ok_0),
        version_diff_of(version_diff_text(version_diff_of(text)->Ok_0)) == version_diff_of(text),
        version_diff_of(version_diff_text(version_diff_of(text)->Ok_0) + seq!['\n'])
            == version_diff_of(text),
{
    let diffs = version_diff_of(text)->Ok_0;
    lemma_read_is_printable(text, false);
    lemma_read_is_printable(text, true);
    assert(are_printable_file_diffs(diffs, true)) by {
        reveal(are_printable_file_diffs);
    }
    lemma_version_diff_lines(diffs, true);
    lemma_strict_lines_end_plainly(version_diff_lines(diffs));
    lemma_file_diffs_round_trip(diffs, true);
    lemma_read_undoes_write(diffs);
}

} // verus!
