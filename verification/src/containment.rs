//! What a text holds once texts are put together or trimmed.
use crate::text;
use vstd::prelude::*;

verus! {

/// A text holds what was put between two others to make it.
pub proof fn lemma_middle(a: Seq<char>, b: Seq<char>, c: Seq<char>)
    ensures
        text::has_text(a + b + c, b),
{
    assert((a + b + c).subrange(a.len() as int, a.len() as int + b.len()) == b);
    assert(text::occurs_at(a + b + c, b, a.len() as int));
}

/// What a part holds, the whole holds.
pub proof fn lemma_through(s: Seq<char>, part: Seq<char>, p: Seq<char>)
    requires
        text::has_text(s, part),
        text::has_text(part, p),
    ensures
        text::has_text(s, p),
{
    let i = choose|i: int| text::occurs_at(s, part, i);
    let j = choose|j: int| text::occurs_at(part, p, j);
    assert(s.subrange(i + j, i + j + p.len()) == s.subrange(i, i + part.len()).subrange(
        j,
        j + p.len(),
    ));
    assert(text::occurs_at(s, p, i + j));
}

/// What the first of two texts holds, the two together hold.
pub proof fn lemma_in_first(a: Seq<char>, b: Seq<char>, p: Seq<char>)
    requires
        text::has_text(a, p),
    ensures
        text::has_text(a + b, p),
{
    lemma_middle(seq![], a, b);
    assert(Seq::<char>::empty() + a + b == a + b);
    lemma_through(a + b, a, p);
}

/// What the second of two texts holds, the two together hold.
pub proof fn lemma_in_second(a: Seq<char>, b: Seq<char>, p: Seq<char>)
    requires
        text::has_text(b, p),
    ensures
        text::has_text(a + b, p),
{
    lemma_middle(a, b, seq![]);
    assert(a + b + Seq::<char>::empty() == a + b);
    lemma_through(a + b, b, p);
}

/// A text holds itself.
pub proof fn lemma_itself(s: Seq<char>)
    ensures
        text::has_text(s, s),
{
    lemma_middle(seq![], s, seq![]);
    assert(Seq::<char>::empty() + s + Seq::<char>::empty() == s);
}

/// Where the trimmed text stands in the text.
pub proof fn lemma_trimmed_bounds(s: Seq<char>) -> (r: (int, int))
    ensures
        0 <= r.0 <= r.1 <= s.len(),
        text::trimmed(s) == s.subrange(r.0, r.1),
        forall|i: int| 0 <= i < r.0 || r.1 <= i < s.len() ==> text::is_white(#[trigger] s[i]),
        r.0 < r.1 ==> !text::is_white(s[r.0]) && !text::is_white(s[r.1 - 1]),
    decreases s.len(),
{
    if s.len() > 0 && text::is_white(s[0]) {
        let rest = s.skip(1);
        let r = lemma_trimmed_bounds(rest);
        assert(rest.subrange(r.0, r.1) == s.subrange(r.0 + 1, r.1 + 1));
        assert forall|i: int| 0 <= i < r.0 + 1 || r.1 + 1 <= i < s.len() implies text::is_white(
            #[trigger] s[i],
        ) by {
            if i > 0 {
                assert(rest[i - 1] == s[i]);
            }
        }
        if r.0 < r.1 {
            assert(rest[r.0] == s[r.0 + 1]);
            assert(rest[r.1 - 1] == s[r.1]);
        }
        (r.0 + 1, r.1 + 1)
    } else {
        lemma_trimmed_end_bounds(s)
    }
}

proof fn lemma_trimmed_end_bounds(s: Seq<char>) -> (r: (int, int))
    requires
        s.len() > 0 ==> !text::is_white(s[0]),
    ensures
        r.0 == 0,
        0 <= r.1 <= s.len(),
        text::trimmed_end(s) == s.subrange(0, r.1),
        forall|i: int| r.1 <= i < s.len() ==> text::is_white(#[trigger] s[i]),
        r.1 > 0 ==> !text::is_white(s[0]) && !text::is_white(s[r.1 - 1]),
    decreases s.len(),
{
    if s.len() > 0 && text::is_white(s.last()) {
        let rest = s.drop_last();
        let r = lemma_trimmed_end_bounds(rest);
        assert(rest.subrange(0, r.1) == s.subrange(0, r.1));
        assert forall|i: int| r.1 <= i < s.len() implies text::is_white(#[trigger] s[i]) by {
            if i < rest.len() {
                assert(rest[i] == s[i]);
            }
        }
        r
    } else {
        assert(s.subrange(0, s.len() as int) == s);
        (0, s.len() as int)
    }
}

/// A text holds what trimming leaves of it.
pub proof fn lemma_holds_trimmed(s: Seq<char>)
    ensures
        text::has_text(s, text::trimmed(s)),
{
    let r = lemma_trimmed_bounds(s);
    assert(text::occurs_at(s, text::trimmed(s), r.0));
}

/// Trimming a text takes nothing from what it holds of a text that is trimmed already.
pub proof fn lemma_trimming_keeps(s: Seq<char>, p: Seq<char>)
    requires
        text::has_text(s, p),
    ensures
        text::has_text(text::trimmed(s), text::trimmed(p)),
{
    lemma_holds_trimmed(p);
    let q = text::trimmed(p);
    lemma_through(s, p, q);
    let b = lemma_trimmed_bounds(p);
    let r = lemma_trimmed_bounds(s);
    let t = text::trimmed(s);
    if q.len() == 0 {
        assert(t.subrange(0, 0) == q);
        assert(text::occurs_at(t, q, 0));
    } else {
        let i = choose|i: int| text::occurs_at(s, q, i);
        assert(s.subrange(i, i + q.len())[0] == s[i]);
        assert(s.subrange(i, i + q.len())[q.len() - 1] == s[i + q.len() - 1]);
        assert(q[0] == p[b.0]);
        assert(q[q.len() - 1] == p[b.1 - 1]);
        assert(!text::is_white(s[i]));
        assert(!text::is_white(s[i + q.len() - 1]));
        assert(r.0 <= i);
        assert(i + q.len() <= r.1);
        assert(t.subrange(i - r.0, i - r.0 + q.len()) == s.subrange(i, i + q.len()));
        assert(text::occurs_at(t, q, i - r.0));
    }
}

/// A text that neither begins nor ends with white space is trimmed already.
pub proof fn lemma_trimmed_already(s: Seq<char>)
    requires
        s.len() > 0,
        !text::is_white(s[0]),
        !text::is_white(s.last()),
    ensures
        text::trimmed(s) == s,
{
}

/// Trimming twice does what trimming once does.
pub proof fn lemma_trimmed_twice(s: Seq<char>)
    ensures
        text::trimmed(text::trimmed(s)) == text::trimmed(s),
{
    let r = lemma_trimmed_bounds(s);
    let t = text::trimmed(s);
    if t.len() > 0 {
        assert(t[0] == s[r.0]);
        assert(t[t.len() - 1] == s[r.1 - 1]);
        lemma_trimmed_already(t);
    }
}

/// Parts that are joined stand in the whole.
pub proof fn lemma_joined_holds(parts: Seq<Seq<char>>, sep: Seq<char>, i: int)
    requires
        0 <= i < parts.len(),
    ensures
        text::has_text(text::joined(parts, sep), parts[i]),
    decreases parts.len(),
{
    if parts.len() == 1 {
        lemma_itself(parts[0]);
    } else {
        let rest = text::joined(parts.skip(1), sep);
        if i == 0 {
            lemma_itself(parts[0]);
            lemma_in_first(parts[0], sep, parts[0]);
            lemma_in_first(parts[0] + sep, rest, parts[0]);
        } else {
            lemma_joined_holds(parts.skip(1), sep, i - 1);
            lemma_in_second(parts[0] + sep, rest, parts[i]);
        }
    }
}

/// A part that is added to others is joined after them.
pub proof fn lemma_joined_push(parts: Seq<Seq<char>>, part: Seq<char>, sep: Seq<char>)
    requires
        parts.len() > 0,
    ensures
        text::joined(parts.push(part), sep) == text::joined(parts, sep) + sep + part,
    decreases parts.len(),
{
    let all = parts.push(part);
    if parts.len() == 1 {
        assert(all.skip(1) =~= seq![part]);
        assert(text::joined(seq![part], sep) == part);
        assert(text::joined(all, sep) =~= text::joined(parts, sep) + sep + part);
    } else {
        lemma_joined_push(parts.skip(1), part, sep);
        assert(all.skip(1) =~= parts.skip(1).push(part));
        assert(text::joined(all, sep) =~= text::joined(parts, sep) + sep + part);
    }
}

/// Parts that are ended stand in the whole.
pub proof fn lemma_each_ended_holds(parts: Seq<Seq<char>>, end: Seq<char>, i: int)
    requires
        0 <= i < parts.len(),
    ensures
        text::has_text(text::each_ended(parts, end), parts[i]),
    decreases parts.len(),
{
    let before = text::each_ended(parts.drop_last(), end);
    if i == parts.len() - 1 {
        lemma_middle(before, parts.last(), end);
    } else {
        lemma_each_ended_holds(parts.drop_last(), end, i);
        lemma_in_first(before, parts.last(), parts[i]);
        lemma_in_first(before + parts.last(), end, parts[i]);
    }
}

/// A line holds no line feed.
pub proof fn lemma_lines_hold_no_feed(s: Seq<char>, i: int, k: int)
    requires
        0 <= i < text::lines_of(s).len(),
        0 <= k < text::lines_of(s)[i].len(),
    ensures
        text::lines_of(s)[i][k] != '\n',
    decreases s.len(),
{
    text::lemma_upto_bounds(s, '\n');
    let u = text::upto(s, '\n');
    if u >= s.len() {
    } else if i == 0 {
        let line = text::without_cr(s.take(u));
        assert(text::lines_of(s)[0] == line);
        assert(line[k] == s[k]);
    } else {
        assert(text::lines_of(s)[i] == text::lines_of(s.skip(u + 1))[i - 1]);
        lemma_lines_hold_no_feed(s.skip(u + 1), i - 1, k);
    }
}

/// A line without the white space at its ends; nothing for a blank line.
pub open spec fn written(line: Seq<char>) -> Seq<Seq<char>> {
    if text::blank(line) {
        seq![]
    } else {
        seq![text::trimmed(line)]
    }
}

/// The lines that are not blank, without the white space at their ends.
pub open spec fn written_lines(lines: Seq<Seq<char>>) -> Seq<Seq<char>>
    decreases lines.len(),
{
    if lines.len() == 0 {
        seq![]
    } else {
        written_lines(lines.drop_last()) + written(lines.last())
    }
}

proof fn lemma_written_first(line: Seq<char>, rest: Seq<Seq<char>>)
    ensures
        written_lines(seq![line] + rest) == written(line) + written_lines(rest),
    decreases rest.len(),
{
    let all = seq![line] + rest;
    if rest.len() == 0 {
        assert(written_lines(all.drop_last()) =~= Seq::<Seq<char>>::empty());
        assert(all.last() == line);
        assert(written_lines(all) =~= written(line) + written_lines(rest));
    } else {
        lemma_written_first(line, rest.drop_last());
        assert(all.drop_last() =~= seq![line] + rest.drop_last());
        assert(all.last() == rest.last());
        assert(written_lines(all) =~= written(line) + written_lines(rest));
    }
}

/// White space at the start of a line is not written.
proof fn lemma_written_without_first(s: Seq<char>)
    requires
        s.len() > 0,
        text::is_white(s[0]),
    ensures
        written(s) == written(s.skip(1)),
{
    let rest = s.skip(1);
    assert(text::blank(s) <==> text::blank(rest)) by {
        assert forall|i: int| 0 <= i < rest.len() implies rest[i] == #[trigger] s[i + 1] by {}
        if text::blank(rest) {
            assert forall|i: int| 0 <= i < s.len() implies text::is_white(#[trigger] s[i]) by {
                if i > 0 {
                    assert(rest[i - 1] == s[i]);
                }
            }
        }
    }
}

/// White space at the end of a line is not written.
proof fn lemma_written_without_last(s: Seq<char>)
    requires
        s.len() > 0,
        text::is_white(s.last()),
    ensures
        written(s) == written(s.drop_last()),
    decreases s.len(),
{
    let rest = s.drop_last();
    if text::is_white(s[0]) {
        lemma_written_without_first(s);
        if s.len() > 1 {
            lemma_written_without_first(rest);
            lemma_written_without_last(s.skip(1));
            assert(s.skip(1).drop_last() =~= rest.skip(1));
        } else {
            assert(text::blank(s));
            assert(text::blank(rest));
        }
    } else {
        assert(rest[0] == s[0]);
    }
}

proof fn lemma_written_without_cr(s: Seq<char>)
    ensures
        written(text::without_cr(s)) == written(s),
{
    if s.len() > 0 && s.last() == '\r' {
        lemma_written_without_last(s);
    }
}

proof fn lemma_lines_without_first(s: Seq<char>)
    requires
        s.len() > 0,
        text::is_white(s[0]),
    ensures
        written_lines(text::lines_of(s)) == written_lines(text::lines_of(s.skip(1))),
{
    let rest = s.skip(1);
    let u = text::upto(s, '\n');
    text::lemma_upto_bounds(s, '\n');
    if u < s.len() {
        let line = s.take(u);
        lemma_written_first(text::without_cr(line), text::lines_of(s.skip(u + 1)));
        lemma_written_without_cr(line);
        if u == 0 {
            assert(text::blank(line));
            assert(s.skip(u + 1) =~= rest);
            assert(written_lines(text::lines_of(s)) =~= written_lines(text::lines_of(rest)));
        } else {
            assert(text::upto(rest, '\n') == u - 1);
            assert(rest.take(u - 1) =~= line.skip(1));
            assert(rest.skip(u) =~= s.skip(u + 1));
            lemma_written_first(
                text::without_cr(rest.take(u - 1)),
                text::lines_of(rest.skip(u)),
            );
            lemma_written_without_cr(rest.take(u - 1));
            lemma_written_without_first(line);
        }
    } else {
        let none = Seq::<Seq<char>>::empty();
        lemma_written_first(s, none);
        assert(seq![s] + none =~= seq![s]);
        lemma_written_without_first(s);
        if rest.len() == 0 {
            assert(text::blank(rest));
            assert(written_lines(text::lines_of(s)) =~= none);
        } else {
            assert(text::upto(rest, '\n') == u - 1);
            lemma_written_first(rest, none);
            assert(seq![rest] + none =~= seq![rest]);
        }
    }
}

proof fn lemma_lines_without_last(s: Seq<char>)
    requires
        s.len() > 0,
        text::is_white(s.last()),
    ensures
        written_lines(text::lines_of(s)) == written_lines(text::lines_of(s.drop_last())),
    decreases s.len(),
{
    let rest = s.drop_last();
    let none = Seq::<Seq<char>>::empty();
    let u = text::upto(s, '\n');
    text::lemma_upto_bounds(s, '\n');
    if u < s.len() - 1 {
        text::lemma_upto_at(rest, '\n', u);
        assert(rest.take(u) =~= s.take(u));
        assert(rest.skip(u + 1) =~= s.skip(u + 1).drop_last());
        lemma_lines_without_last(s.skip(u + 1));
        lemma_written_first(text::without_cr(s.take(u)), text::lines_of(s.skip(u + 1)));
        lemma_written_first(text::without_cr(s.take(u)), text::lines_of(rest.skip(u + 1)));
    } else {
        if u < s.len() {
            assert(s.take(u) =~= rest);
            assert(text::lines_of(s.skip(u + 1)) =~= none);
            lemma_written_first(text::without_cr(rest), none);
            lemma_written_without_cr(rest);
            assert(written_lines(text::lines_of(s)) =~= written(rest));
        } else {
            lemma_written_first(s, none);
            assert(seq![s] + none =~= seq![s]);
            lemma_written_without_last(s);
            assert(written_lines(text::lines_of(s)) =~= written(rest));
        }
        if rest.len() == 0 {
            assert(text::blank(rest));
        } else {
            text::lemma_upto_at(rest, '\n', rest.len() as int);
            lemma_written_first(rest, none);
            assert(seq![rest] + none =~= seq![rest]);
            assert(written_lines(text::lines_of(rest)) =~= written(rest));
        }
    }
}

/// Trimming a text takes from its lines only blank ones, and white space at their ends.
pub proof fn lemma_trimming_keeps_lines(s: Seq<char>)
    ensures
        written_lines(text::lines_of(text::trimmed(s))) == written_lines(text::lines_of(s)),
    decreases s.len(),
{
    if s.len() > 0 && text::is_white(s[0]) {
        lemma_lines_without_first(s);
        lemma_trimming_keeps_lines(s.skip(1));
    } else if s.len() > 0 && text::is_white(s.last()) {
        let rest = s.drop_last();
        lemma_lines_without_last(s);
        assert(rest[0] == s[0]);
        lemma_trimming_keeps_lines(rest);
    }
}

/// A line that is put after complete lines is the last line of the whole.
proof fn lemma_line_added(s: Seq<char>, line: Seq<char>)
    requires
        s.len() > 0 ==> s.last() == '\n',
        forall|k: int| 0 <= k < line.len() ==> line[k] != '\n',
    ensures
        text::lines_of(s + line + "\n"@) == text::lines_of(s).push(text::without_cr(line)),
    decreases s.len(),
{
    reveal_strlit("\n");
    let whole = s + line + "\n"@;
    let u = text::upto(s, '\n');
    text::lemma_upto_bounds(s, '\n');
    if s.len() == 0 {
        let n = line.len() as int;
        assert forall|k: int| 0 <= k < n implies whole[k] != '\n' by {
            assert(whole[k] == line[k]);
        }
        assert(whole[n] == '\n');
        text::lemma_upto_at(whole, '\n', n);
        assert(whole.take(n) =~= line);
        assert(text::lines_of(whole.skip(n + 1)) =~= Seq::<Seq<char>>::empty());
        assert(text::lines_of(whole) =~= text::lines_of(s).push(text::without_cr(line)));
    } else {
        assert(u < s.len()) by {
            if u >= s.len() {
                assert(s[s.len() - 1] == '\n');
            }
        }
        assert forall|k: int| 0 <= k < u implies whole[k] != '\n' by {
            assert(whole[k] == s[k]);
        }
        assert(whole[u] == s[u]);
        text::lemma_upto_at(whole, '\n', u);
        let rest = s.skip(u + 1);
        assert(whole.take(u) =~= s.take(u));
        assert(whole.skip(u + 1) =~= rest + line + "\n"@);
        if rest.len() > 0 {
            assert(rest.last() == s.last());
        }
        lemma_line_added(rest, line);
        assert(text::lines_of(whole) =~= text::lines_of(s).push(text::without_cr(line)));
    }
}

/// Lines that are put one after the other are the lines of the whole, but for white space at
/// their ends.
pub proof fn lemma_each_ended_lines(lines: Seq<Seq<char>>)
    requires
        forall|i: int, k: int|
            0 <= i < lines.len() && 0 <= k < lines[i].len() ==> #[trigger] lines[i][k] != '\n',
    ensures
        written_lines(text::lines_of(text::each_ended(lines, "\n"@))) == written_lines(lines),
        lines.len() > 0 ==> text::each_ended(lines, "\n"@).len() > 0 && text::each_ended(
            lines,
            "\n"@,
        ).last() == '\n',
    decreases lines.len(),
{
    reveal_strlit("\n");
    if lines.len() > 0 {
        let before = lines.drop_last();
        let line = lines.last();
        let s = text::each_ended(before, "\n"@);
        assert forall|i: int, k: int|
            0 <= i < before.len() && 0 <= k < before[i].len() implies #[trigger] before[i][k]
            != '\n' by {
            assert(lines[i][k] != '\n');
        }
        assert forall|k: int| 0 <= k < line.len() implies line[k] != '\n' by {
            assert(lines[lines.len() - 1][k] != '\n');
        }
        lemma_each_ended_lines(before);
        lemma_line_added(s, line);
        lemma_written_without_cr(line);
        let all = text::lines_of(s).push(text::without_cr(line));
        assert(all.drop_last() =~= text::lines_of(s));
    }
}

/// A line that is not blank is written.
pub proof fn lemma_is_written(lines: Seq<Seq<char>>, i: int)
    requires
        0 <= i < lines.len(),
        !text::blank(lines[i]),
    ensures
        written_lines(lines).contains(text::trimmed(lines[i])),
    decreases lines.len(),
{
    let before = written_lines(lines.drop_last());
    let all = before + written(lines.last());
    if i == lines.len() - 1 {
        assert(all[before.len() as int] == text::trimmed(lines[i]));
    } else {
        lemma_is_written(lines.drop_last(), i);
        let j = choose|j: int| 0 <= j < before.len() && before[j] == text::trimmed(lines[i]);
        assert(all[j] == before[j]);
    }
}

/// What is written of lines that are not blank is each of them trimmed.
pub proof fn lemma_written_all(lines: Seq<Seq<char>>)
    requires
        forall|i: int| 0 <= i < lines.len() ==> !text::blank(#[trigger] lines[i]),
    ensures
        written_lines(lines) == lines.map_values(|line: Seq<char>| text::trimmed(line)),
    decreases lines.len(),
{
    let f = |line: Seq<char>| text::trimmed(line);
    if lines.len() > 0 {
        let before = lines.drop_last();
        assert forall|i: int| 0 <= i < before.len() implies !text::blank(#[trigger] before[i]) by {
            assert(!text::blank(lines[i]));
        }
        lemma_written_all(before);
        assert(!text::blank(lines[lines.len() - 1]));
        assert(written_lines(lines) =~= lines.map_values(f));
    } else {
        assert(written_lines(lines) =~= lines.map_values(f));
    }
}

/// A word stands at the start of a line just where it does once the line is trimmed.
pub proof fn lemma_word_first(line: Seq<char>, word: Seq<char>)
    requires
        word.len() > 0,
        !text::is_white(word.last()),
    ensures
        word.is_prefix_of(text::trimmed_start(line)) <==> word.is_prefix_of(text::trimmed(line)),
    decreases line.len(),
{
    if line.len() > 0 && text::is_white(line[0]) {
        lemma_word_first(line.skip(1), word);
    } else {
        let n = word.len() as int;
        let r = lemma_trimmed_end_bounds(line);
        let t = text::trimmed(line);
        if word.is_prefix_of(line) {
            assert(line.subrange(0, n)[n - 1] == word[n - 1]);
            assert(line[n - 1] == word.last());
            assert(n <= r.1);
            assert(t.subrange(0, n) =~= line.subrange(0, n));
        }
        if word.is_prefix_of(t) {
            assert(t.subrange(0, n) =~= line.subrange(0, n));
        }
    }
}

} // verus!
