//! What gas and resource figures are compressed to, and that none is lost.
use crate::containment;
use crate::number;
use crate::snforge_cmd::gas;
use crate::snforge_cmd::run_laws;
use crate::text;
use crate::text_laws;
use vstd::prelude::*;

verus! {

/// A figure of a test, under its name.
pub open spec fn figure(name: Seq<char>, n: nat) -> Seq<char> {
    name + "~"@ + number::decimal(n)
}

proof fn lemma_decimal_end(n: nat)
    ensures
        ({
            let d = number::decimal(n);
            &&& d.len() > 0
            &&& number::is_digit(d.last())
            &&& number::is_digit(d[0])
            &&& forall|i: int| 0 <= i < d.len() ==> number::is_digit(#[trigger] d[i])
            &&& d.len() == 1 && d[0] == '0' <==> n == 0
        }),
{
    number::lemma_decimal_digits(n);
    let d = number::decimal(n);
    assert(number::is_digit(d[0]));
    assert(number::is_digit(d[d.len() - 1]));
    if n >= 10 {
        assert(number::decimal(n / 10).len() > 0) by {
            number::lemma_decimal_digits(n / 10);
        }
    }
}

/// A figure is neither blank at its ends nor taken for zero unless it is zero.
proof fn lemma_figure(name: Seq<char>, n: nat)
    requires
        name.len() > 0,
        !text::is_white(name[0]),
    ensures
        ({
            let f = figure(name, n);
            &&& f.len() > name.len() + 1
            &&& text::trimmed(f) == f
            &&& name.is_prefix_of(f)
            &&& f.skip(name.len() as int) == "~"@ + number::decimal(n)
            &&& "~0"@.is_suffix_of(f) <==> n == 0
        }),
{
    reveal_strlit("~");
    reveal_strlit("~0");
    let f = figure(name, n);
    let d = number::decimal(n);
    lemma_decimal_end(n);
    assert(f[0] == name[0]);
    assert(f.last() == d.last());
    containment::lemma_trimmed_already(f);
    assert(f.subrange(0, name.len() as int) =~= name);
    assert(f.skip(name.len() as int) =~= "~"@ + d);
    if n == 0 {
        assert(f.subrange(f.len() - 2, f.len() as int) =~= "~0"@);
    } else if "~0"@.is_suffix_of(f) {
        let end = f.subrange(f.len() - 2, f.len() as int);
        assert(end == "~0"@);
        assert(end[0] == '~' && end[1] == '0');
        assert(f[f.len() - 2] == '~');
        assert(f[f.len() - 1] == '0');
        if d.len() > 1 {
            assert(f[f.len() - 2] == d[d.len() - 2]);
            assert(number::is_digit(d[d.len() - 2]));
        }
    }
}

/// A figure of zero is left out, and any other is kept, digit for digit, with its name
/// abbreviated.
pub proof fn law_figures_compressed(piece: Seq<char>, n: nat)
    ensures
        text::trimmed(piece) == figure("l2_gas: "@, n) ==> gas::gas_field(piece) == (if n == 0 {
            None::<Seq<char>>
        } else {
            Some(figure("l2:"@, n))
        }),
        text::trimmed(piece) == figure("l1_gas: "@, n) ==> gas::gas_field(piece) == (if n == 0 {
            None::<Seq<char>>
        } else {
            Some(figure("l1:"@, n))
        }),
        text::trimmed(piece) == figure("l1_data_gas: "@, n) ==> gas::gas_field(piece) == (if n
            == 0 {
            None::<Seq<char>>
        } else {
            Some(figure("l1d:"@, n))
        }),
{
    reveal_strlit("l2_gas: ");
    reveal_strlit("l1_gas: ");
    reveal_strlit("l1_data_gas: ");
    reveal_strlit("l2:");
    reveal_strlit("l1:");
    reveal_strlit("l1d:");
    lemma_figure("l2_gas: "@, n);
    lemma_figure("l1_gas: "@, n);
    lemma_figure("l1_data_gas: "@, n);
    let f = text::trimmed(piece);
    if "l1_data_gas: "@.is_prefix_of(f) {
        run_laws::lemma_prefix("l1_data_gas: "@, f, 1);
        run_laws::lemma_prefix("l1_data_gas: "@, f, 3);
    }
    if "l1_gas: "@.is_prefix_of(f) {
        run_laws::lemma_prefix("l1_gas: "@, f, 1);
        run_laws::lemma_prefix("l1_gas: "@, f, 3);
    }
    if "l2_gas: "@.is_prefix_of(f) {
        run_laws::lemma_prefix("l2_gas: "@, f, 1);
    }
    if f == figure("l2_gas: "@, n) {
        assert("l2:"@ + f.skip(8) =~= figure("l2:"@, n));
    }
    if f == figure("l1_gas: "@, n) {
        assert("l1:"@ + f.skip(8) =~= figure("l1:"@, n));
    }
    if f == figure("l1_data_gas: "@, n) {
        assert("l1d:"@ + f.skip(13) =~= figure("l1d:"@, n));
    }
}

/// A figure, or nothing where it is zero.
pub open spec fn unless_zero(name: Seq<char>, n: nat) -> Seq<Seq<char>> {
    if n == 0 {
        seq![]
    } else {
        seq![figure(name, n)]
    }
}

proof fn lemma_last_position_at(s: Seq<char>, c: char, k: int)
    requires
        0 <= k < s.len(),
        s[k] == c,
        forall|i: int| k < i < s.len() ==> s[i] != c,
    ensures
        text::last_position(s, c) == Some(k),
    decreases s.len(),
{
    if s.last() != c {
        let rest = s.drop_last();
        assert forall|i: int| k < i < rest.len() implies rest[i] != c by {
            assert(rest[i] == s[i]);
        }
        lemma_last_position_at(rest, c, k);
    } else {
        assert(k == s.len() - 1);
    }
}

/// Whether a figure holds the given character is a matter of its name, where that is no digit and
/// no tilde.
proof fn lemma_figure_without(name: Seq<char>, n: nat, c: char)
    requires
        forall|i: int| 0 <= i < name.len() ==> name[i] != c,
        !number::is_digit(c),
        c != '~',
    ensures
        forall|i: int| 0 <= i < figure(name, n).len() ==> #[trigger] figure(name, n)[i] != c,
{
    reveal_strlit("~");
    let f = figure(name, n);
    let d = number::decimal(n);
    lemma_decimal_end(n);
    assert forall|i: int| 0 <= i < f.len() implies #[trigger] f[i] != c by {
        if i < name.len() {
            assert(f[i] == name[i]);
        } else if i > name.len() {
            assert(f[i] == d[i - name.len() - 1]);
            assert(number::is_digit(d[i - name.len() - 1]));
        }
    }
}

/// A line that tells that a test passed.
pub open spec fn pass_line(name: Seq<char>, l1: nat, l1_data: nat, l2: nat) -> Seq<char> {
    name + " ("@ + figure("l1_gas: "@, l1) + ", "@ + figure("l1_data_gas: "@, l1_data) + ", "@
        + figure("l2_gas: "@, l2) + ")"@
}

/// A line that tells that a test passed keeps the test's name and each figure that is not zero,
/// digit for digit; where all are zero it is the name alone.
pub proof fn law_pass_line_compressed(name: Seq<char>, l1: nat, l1_data: nat, l2: nat)
    requires
        name.len() > 0,
        !text::is_white(name[0]),
        !text::is_white(name.last()),
    ensures
        ({
            let kept = unless_zero("l1:"@, l1) + unless_zero("l1d:"@, l1_data) + unless_zero(
                "l2:"@,
                l2,
            );
            gas::pass_gas(pass_line(name, l1, l1_data, l2)) == Some(
                if kept.len() == 0 {
                    name
                } else {
                    name + " ("@ + text::joined(kept, " "@) + ")"@
                },
            )
        }),
{
    reveal_strlit(" (");
    reveal_strlit(", ");
    reveal_strlit(")");
    reveal_strlit("l2_gas: ");
    reveal_strlit("l2_gas:");
    reveal_strlit("l1_gas: ");
    reveal_strlit("l1_data_gas: ");
    let line = pass_line(name, l1, l1_data, l2);
    let a = figure("l1_gas: "@, l1);
    let b = figure("l1_data_gas: "@, l1_data);
    let c = figure("l2_gas: "@, l2);
    let inner = a + ", "@ + b + ", "@ + c;
    lemma_figure("l1_gas: "@, l1);
    lemma_figure("l1_data_gas: "@, l1_data);
    lemma_figure("l2_gas: "@, l2);
    lemma_figure_without("l1_gas: "@, l1, ',');
    lemma_figure_without("l1_data_gas: "@, l1_data, ',');
    lemma_figure_without("l2_gas: "@, l2, ',');
    lemma_figure_without("l1_gas: "@, l1, '(');
    lemma_figure_without("l1_data_gas: "@, l1_data, '(');
    lemma_figure_without("l2_gas: "@, l2, '(');
    let start = name.len() as int + 1;
    let end = line.len() as int - 1;
    assert(line =~= name + " ("@ + inner + ")"@);
    assert(line[start] == '(');
    assert(line[end] == ')');
    assert forall|i: int| start < i < line.len() implies line[i] != '(' by {
        if i < end {
            assert(line[i] == inner[i - start - 1]);
            lemma_inner_without(a, b, c, '(', i - start - 1);
        }
    }
    lemma_last_position_at(line, '(', start);
    lemma_last_position_at(line, ')', end);
    assert(line.subrange(start + 1, end) =~= inner);
    assert(line.take(start) =~= name.push(' '));
    lemma_trimmed_push(name);
    assert(text::has_text(line, "l2_gas:"@)) by {
        let at = end - c.len();
        assert(line.subrange(at, at + 7) =~= c.subrange(0, 7));
        assert(c.subrange(0, 7) =~= "l2_gas: "@.subrange(0, 7));
        assert("l2_gas: "@.subrange(0, 7) =~= "l2_gas:"@);
        assert(text::occurs_at(line, "l2_gas:"@, at));
    }
    let second = seq![' '] + b;
    let third = seq![' '] + c;
    text_laws::law_split(a, second.push(',') + third, ',');
    text_laws::law_split(second, third, ',');
    text_laws::law_split(third, seq![], ',');
    assert(inner =~= a.push(',') + (second.push(',') + third));
    let pieces = text::split_at_each(inner, ',');
    assert(pieces =~= seq![a, second, third]);
    lemma_trimmed_space(b);
    lemma_trimmed_space(c);
    law_figures_compressed(a, l1);
    law_figures_compressed(second, l1_data);
    law_figures_compressed(third, l2);
    lemma_three_fields(a, second, third, l1, l1_data, l2);
}

proof fn lemma_inner_without(a: Seq<char>, b: Seq<char>, c: Seq<char>, x: char, i: int)
    requires
        forall|i: int| 0 <= i < a.len() ==> #[trigger] a[i] != x,
        forall|i: int| 0 <= i < b.len() ==> #[trigger] b[i] != x,
        forall|i: int| 0 <= i < c.len() ==> #[trigger] c[i] != x,
        x != ',',
        x != ' ',
        0 <= i < (a + ", "@ + b + ", "@ + c).len(),
    ensures
        (a + ", "@ + b + ", "@ + c)[i] != x,
{
    reveal_strlit(", ");
}

proof fn lemma_trimmed_space(s: Seq<char>)
    requires
        s.len() > 0,
        text::trimmed(s) == s,
    ensures
        text::trimmed(seq![' '] + s) == s,
{
    let t = seq![' '] + s;
    assert(t.skip(1) =~= s);
}

proof fn lemma_trimmed_push(s: Seq<char>)
    requires
        s.len() > 0,
        !text::is_white(s[0]),
        !text::is_white(s.last()),
    ensures
        text::trimmed(s.push(' ')) == s,
{
    let t = s.push(' ');
    assert(t[0] == s[0]);
    assert(t.drop_last() =~= s);
    assert(text::trimmed_end(t) == text::trimmed_end(s));
}

proof fn lemma_three_fields(
    a: Seq<char>,
    b: Seq<char>,
    c: Seq<char>,
    l1: nat,
    l1_data: nat,
    l2: nat,
)
    requires
        gas::gas_field(a) == (if l1 == 0 {
            None::<Seq<char>>
        } else {
            Some(figure("l1:"@, l1))
        }),
        gas::gas_field(b) == (if l1_data == 0 {
            None::<Seq<char>>
        } else {
            Some(figure("l1d:"@, l1_data))
        }),
        gas::gas_field(c) == (if l2 == 0 {
            None::<Seq<char>>
        } else {
            Some(figure("l2:"@, l2))
        }),
    ensures
        seq![a, b, c].filter_map(|piece: Seq<char>| gas::gas_field(piece)) == unless_zero(
            "l1:"@,
            l1,
        ) + unless_zero("l1d:"@, l1_data) + unless_zero("l2:"@, l2),
{
    reveal(Seq::filter_map);
    let f = |piece: Seq<char>| gas::gas_field(piece);
    let none = Seq::<Seq<char>>::empty();
    let one = seq![a];
    let two = seq![a, b];
    let three = seq![a, b, c];
    assert(three.drop_last() =~= two);
    assert(two.drop_last() =~= one);
    assert(one.drop_last() =~= none);
    assert(none.filter_map(f) =~= none);
    assert(one.filter_map(f) =~= unless_zero("l1:"@, l1));
    assert(two.filter_map(f) =~= unless_zero("l1:"@, l1) + unless_zero("l1d:"@, l1_data));
    assert(three.filter_map(f) =~= unless_zero("l1:"@, l1) + unless_zero("l1d:"@, l1_data)
        + unless_zero("l2:"@, l2));
}

/// A line without L1 or L2 figures is not kept.
pub proof fn law_basic_pass_line_dropped(line: Seq<char>)
    requires
        !text::has_text(line, "l1_gas:"@),
        !text::has_text(line, "l2_gas:"@),
    ensures
        gas::pass_gas(line) is None,
{
}

/// A figure is left out just where it is blank or ends with `~0`. One of another name is kept as it
/// is.
pub proof fn law_figure_left_out(piece: Seq<char>)
    ensures
        gas::gas_field(piece) is None <==> text::trimmed(piece).len() == 0 || "~0"@.is_suffix_of(
            text::trimmed(piece),
        ),
        ({
            let f = text::trimmed(piece);
            &&& f.len() > 0
            &&& !"~0"@.is_suffix_of(f)
            &&& !"l1_gas: "@.is_prefix_of(f)
            &&& !"l1_data_gas: "@.is_prefix_of(f)
            &&& !"l2_gas: "@.is_prefix_of(f)
        }) ==> gas::gas_field(piece) == Some(text::trimmed(piece)),
{
}

proof fn lemma_split_add(a: Seq<char>, b: Seq<char>, c: char)
    ensures
        text::split_at_each(a.push(c) + b, c) == text::split_at_each(a, c) + text::split_at_each(
            b,
            c,
        ),
    decreases a.len(),
{
    let u = text::upto(a, c);
    text::lemma_upto_bounds(a, c);
    if u >= a.len() {
        text_laws::law_split(a, b, c);
    } else {
        let s = a.push(c) + b;
        let rest = a.skip(u + 1);
        assert forall|i: int| 0 <= i < u implies s[i] != c by {
            assert(s[i] == a[i]);
        }
        assert(s[u] == a[u]);
        text::lemma_upto_at(s, c, u);
        assert(s.take(u) =~= a.take(u));
        assert(s.skip(u + 1) =~= rest.push(c) + b);
        lemma_split_add(rest, b, c);
        assert(text::split_at_each(s, c) =~= text::split_at_each(a, c) + text::split_at_each(b, c));
    }
}

proof fn lemma_fields_add(a: Seq<Seq<char>>, b: Seq<Seq<char>>)
    ensures
        (a + b).filter_map(|piece: Seq<char>| gas::gas_field(piece)) == a.filter_map(
            |piece: Seq<char>| gas::gas_field(piece),
        ) + b.filter_map(|piece: Seq<char>| gas::gas_field(piece)),
    decreases b.len(),
{
    reveal(Seq::filter_map);
    let f = |piece: Seq<char>| gas::gas_field(piece);
    if b.len() == 0 {
        assert(a + b =~= a);
        assert(b.filter_map(f) =~= Seq::<Seq<char>>::empty());
        assert(a.filter_map(f) + b.filter_map(f) =~= a.filter_map(f));
    } else {
        lemma_fields_add(a, b.drop_last());
        assert((a + b).drop_last() =~= a + b.drop_last());
        assert((a + b).last() == b.last());
        assert((a + b).filter_map(f) =~= a.filter_map(f) + b.filter_map(f));
    }
}

/// Figures are compressed one by one: those before a comma, then those after it.
pub proof fn law_figures_one_by_one(a: Seq<char>, b: Seq<char>)
    ensures
        gas::gas_fields(a.push(',') + b) == gas::gas_fields(a) + gas::gas_fields(b),
{
    lemma_split_add(a, b, ',');
    lemma_fields_add(text::split_at_each(a, ','), text::split_at_each(b, ','));
}

/// The figures of a line stand between its last parentheses; the name is what stands before them.
pub proof fn law_figures_in_parentheses(name: Seq<char>, figures: Seq<char>, rest: Seq<char>)
    requires
        forall|i: int| 0 <= i < figures.len() ==> #[trigger] figures[i] != '(',
        forall|i: int| 0 <= i < rest.len() ==> #[trigger] rest[i] != '(' && rest[i] != ')',
        text::has_text(figures, "l1_gas:"@) || text::has_text(figures, "l2_gas:"@),
    ensures
        gas::pass_gas(name + "("@ + figures + ")"@ + rest) == (if gas::gas_fields(figures).len()
            == 0 {
            Some(text::trimmed(name))
        } else {
            Some(
                text::trimmed(name) + " ("@ + text::joined(gas::gas_fields(figures), " "@) + ")"@,
            )
        }),
{
    reveal_strlit("(");
    reveal_strlit(")");
    let line = name + "("@ + figures + ")"@ + rest;
    let start = name.len() as int;
    let end = start + 1 + figures.len();
    assert(line[start] == '(');
    assert(line[end] == ')');
    assert forall|i: int| start < i < line.len() implies line[i] != '(' by {
        if i < end {
            assert(line[i] == figures[i - start - 1]);
        } else if i > end {
            assert(line[i] == rest[i - end - 1]);
        }
    }
    assert forall|i: int| end < i < line.len() implies line[i] != ')' by {
        assert(line[i] == rest[i - end - 1]);
    }
    lemma_last_position_at(line, '(', start);
    lemma_last_position_at(line, ')', end);
    assert(line.take(start) =~= name);
    assert(line.subrange(start + 1, end) =~= figures);
    let first = name + "("@;
    if text::has_text(figures, "l1_gas:"@) {
        containment::lemma_in_second(first, figures, "l1_gas:"@);
        containment::lemma_in_first(first + figures, ")"@, "l1_gas:"@);
        containment::lemma_in_first(first + figures + ")"@, rest, "l1_gas:"@);
    } else {
        containment::lemma_in_second(first, figures, "l2_gas:"@);
        containment::lemma_in_first(first + figures, ")"@, "l2_gas:"@);
        containment::lemma_in_first(first + figures + ")"@, rest, "l2_gas:"@);
    }
}

/// A resource and how much of it was used, with a space after the colon.
pub open spec fn loose(pair: (Seq<char>, Seq<char>)) -> Seq<char> {
    pair.0 + ": "@ + pair.1
}

/// A resource and how much of it was used, without the space.
pub open spec fn close(pair: (Seq<char>, Seq<char>)) -> Seq<char> {
    pair.0 + ":"@ + pair.1
}

/// Whether a text is a word: not empty, and without white space, colons, commas and parentheses.
pub open spec fn is_word(s: Seq<char>) -> bool {
    &&& s.len() > 0
    &&& forall|i: int|
        0 <= i < s.len() ==> !text::is_white(#[trigger] s[i]) && s[i] != ':' && s[i] != ','
            && s[i] != '(' && s[i] != ')'
}

/// Whether each resource and each amount is a word.
pub open spec fn are_words(pairs: Seq<(Seq<char>, Seq<char>)>) -> bool {
    forall|i: int| 0 <= i < pairs.len() ==> is_word((#[trigger] pairs[i]).0) && is_word(pairs[i].1)
}

pub proof fn lemma_replaced_first(from: Seq<char>, y: Seq<char>, to: Seq<char>)
    requires
        from.len() > 0,
    ensures
        text::replaced(from + y, from, to) == to + text::replaced(y, from, to),
{
    let s = from + y;
    assert(s.subrange(0, from.len() as int) =~= from);
    assert(s.skip(from.len() as int) =~= y);
}

proof fn lemma_colons(pairs: Seq<(Seq<char>, Seq<char>)>)
    requires
        are_words(pairs),
    ensures
        text::replaced(
            text::joined(pairs.map_values(|p: (Seq<char>, Seq<char>)| loose(p)), ", "@),
            ": "@,
            ":"@,
        ) == text::joined(pairs.map_values(|p: (Seq<char>, Seq<char>)| close(p)), ", "@),
    decreases pairs.len(),
{
    reveal_strlit(": ");
    reveal_strlit(", ");
    reveal_strlit(":");
    let f = |p: (Seq<char>, Seq<char>)| loose(p);
    let g = |p: (Seq<char>, Seq<char>)| close(p);
    let ls = pairs.map_values(f);
    let cs = pairs.map_values(g);
    if pairs.len() == 0 {
        assert(text::joined(ls, ", "@) =~= text::joined(cs, ", "@));
    } else {
        let (k, v) = pairs[0];
        let rest = pairs.skip(1);
        assert(is_word(pairs[0].0) && is_word(pairs[0].1));
        assert forall|i: int| 0 <= i < rest.len() implies is_word((#[trigger] rest[i]).0)
            && is_word(rest[i].1) by {
            assert(rest[i] == pairs[i + 1]);
        }
        lemma_colons(rest);
        assert(ls.skip(1) =~= rest.map_values(f));
        assert(cs.skip(1) =~= rest.map_values(g));
        let more: Seq<char> = if pairs.len() == 1 {
            seq![]
        } else {
            ", "@ + text::joined(rest.map_values(f), ", "@)
        };
        let more_closed: Seq<char> = if pairs.len() == 1 {
            seq![]
        } else {
            ", "@ + text::joined(rest.map_values(g), ", "@)
        };
        let s = text::joined(ls, ", "@);
        assert(s =~= k + (": "@ + (v + more)));
        text_laws::lemma_replaced_over(k, ": "@ + (v + more), ": "@, ":"@);
        lemma_replaced_first(": "@, v + more, ":"@);
        text_laws::lemma_replaced_over(v, more, ": "@, ":"@);
        if pairs.len() > 1 {
            text_laws::lemma_replaced_over(", "@, text::joined(rest.map_values(f), ", "@), ": "@, ":"@);
        }
        assert(text::replaced(more, ": "@, ":"@) =~= more_closed);
        assert(text::joined(cs, ", "@) =~= k + (":"@ + (v + more_closed)));
    }
}

proof fn lemma_commas(pairs: Seq<(Seq<char>, Seq<char>)>)
    requires
        are_words(pairs),
    ensures
        text::replaced(
            text::joined(pairs.map_values(|p: (Seq<char>, Seq<char>)| close(p)), ", "@),
            ", "@,
            ","@,
        ) == text::joined(pairs.map_values(|p: (Seq<char>, Seq<char>)| close(p)), ","@),
    decreases pairs.len(),
{
    reveal_strlit(", ");
    reveal_strlit(":");
    reveal_strlit(",");
    let g = |p: (Seq<char>, Seq<char>)| close(p);
    let cs = pairs.map_values(g);
    if pairs.len() == 0 {
        assert(text::joined(cs, ", "@) =~= text::joined(cs, ","@));
    } else {
        let rest = pairs.skip(1);
        assert(is_word(pairs[0].0) && is_word(pairs[0].1));
        assert forall|i: int| 0 <= i < rest.len() implies is_word((#[trigger] rest[i]).0)
            && is_word(rest[i].1) by {
            assert(rest[i] == pairs[i + 1]);
        }
        lemma_commas(rest);
        assert(cs.skip(1) =~= rest.map_values(g));
        let c = close(pairs[0]);
        assert forall|i: int| 0 <= i < c.len() implies c[i] != ", "@[0] by {
            let k = pairs[0].0;
            let v = pairs[0].1;
            if i < k.len() {
                assert(c[i] == k[i]);
            } else if i > k.len() {
                assert(c[i] == v[i - k.len() - 1]);
            }
        }
        let s = text::joined(cs, ", "@);
        if pairs.len() == 1 {
            text_laws::lemma_replaced_over(c, seq![], ", "@, ","@);
            assert(c + Seq::<char>::empty() =~= c);
            assert(text::replaced(Seq::<char>::empty(), ", "@, ","@) =~= Seq::<char>::empty());
        } else {
            let more = text::joined(rest.map_values(g), ", "@);
            assert(s =~= c + (", "@ + more));
            text_laws::lemma_replaced_over(c, ", "@ + more, ", "@, ","@);
            lemma_replaced_first(", "@, more, ","@);
            assert(text::joined(cs, ","@) =~= c + (","@ + text::joined(rest.map_values(g), ","@)));
        }
    }
}

proof fn lemma_pairs_ends(pairs: Seq<(Seq<char>, Seq<char>)>)
    requires
        are_words(pairs),
        pairs.len() > 0,
    ensures
        ({
            let s = text::joined(pairs.map_values(|p: (Seq<char>, Seq<char>)| loose(p)), ", "@);
            &&& s.len() > 2
            &&& s[0] == pairs[0].0[0]
            &&& s.last() == pairs.last().1.last()
        }),
    decreases pairs.len(),
{
    reveal_strlit(": ");
    reveal_strlit(", ");
    let f = |p: (Seq<char>, Seq<char>)| loose(p);
    let ls = pairs.map_values(f);
    assert(is_word(pairs[0].0) && is_word(pairs[0].1));
    if pairs.len() > 1 {
        let rest = pairs.skip(1);
        assert forall|i: int| 0 <= i < rest.len() implies is_word((#[trigger] rest[i]).0)
            && is_word(rest[i].1) by {
            assert(rest[i] == pairs[i + 1]);
        }
        lemma_pairs_ends(rest);
        assert(ls.skip(1) =~= rest.map_values(f));
        assert(rest.last() == pairs.last());
    }
}

/// The resources that a line names are kept, each with its amount, in order and without the
/// spaces between them, whether or not parentheses stand round them.
pub proof fn law_resources_compressed(
    line: Seq<char>,
    pairs: Seq<(Seq<char>, Seq<char>)>,
    in_parens: bool,
)
    requires
        are_words(pairs),
        pairs.len() > 0,
    ensures
        ({
            let given = text::joined(pairs.map_values(|p: (Seq<char>, Seq<char>)| loose(p)), ", "@);
            let kept = text::joined(pairs.map_values(|p: (Seq<char>, Seq<char>)| close(p)), ","@);
            let value = if in_parens {
                "("@ + given + ")"@
            } else {
                given
            };
            let t = text::trimmed(line);
            &&& t == "syscalls: "@ + value ==> gas::resource_text(line) == Some(
                "  syscalls:"@ + kept,
            )
            &&& t == "builtins: "@ + value ==> gas::resource_text(line) == Some(
                "  builtins:"@ + kept,
            )
            &&& t == "l2_l1_message_sizes: "@ + value ==> gas::resource_text(line) == Some(
                "  l2_msg:"@ + kept,
            )
        }),
{
    reveal_strlit("syscalls: ");
    reveal_strlit("syscalls:");
    reveal_strlit("syscalls");
    reveal_strlit("  syscalls:");
    reveal_strlit("builtins: ");
    reveal_strlit("builtins:");
    reveal_strlit("builtins");
    reveal_strlit("  builtins:");
    reveal_strlit("l2_l1_message_sizes: ");
    reveal_strlit("l2_l1_message_sizes:");
    reveal_strlit("l2_msg");
    reveal_strlit("  l2_msg:");
    reveal_strlit("  ");
    reveal_strlit(":");
    reveal_strlit("(");
    reveal_strlit(")");
    reveal_strlit("()");
    let given = text::joined(pairs.map_values(|p: (Seq<char>, Seq<char>)| loose(p)), ", "@);
    let kept = text::joined(pairs.map_values(|p: (Seq<char>, Seq<char>)| close(p)), ","@);
    let value = if in_parens {
        "("@ + given + ")"@
    } else {
        given
    };
    let t = text::trimmed(line);
    lemma_pairs_ends(pairs);
    assert(is_word(pairs[0].0) && is_word(pairs[0].1));
    assert(is_word(pairs[pairs.len() - 1].1));
    let last = pairs.last().1;
    assert(!text::is_white(last[last.len() - 1]));
    assert(given.last() == last[last.len() - 1]);
    lemma_word_alone(given);
    lemma_colons(pairs);
    lemma_commas(pairs);
    if in_parens {
        assert(value.skip(1).drop_last() =~= given);
        assert(value.skip(1).last() == ')');
        assert(value.skip(1)[0] == given[0]);
        assert(text::without_parens(value) == text::without_parens(value.skip(1)));
        assert(text::without_parens(value.skip(1)) == text::without_parens(given));
        lemma_word_alone(value);
    }
    assert(gas::tight(value) == kept);
    lemma_kept_some(pairs);
    lemma_trimmed_space(value);
    if t == "syscalls: "@ + value {
        assert(t.subrange(0, 9) =~= "syscalls:"@);
        assert(t.skip(9) =~= seq![' '] + value);
        assert("  "@ + "syscalls"@ + ":"@ + kept =~= "  syscalls:"@ + kept);
    }
    if t == "builtins: "@ + value {
        if "syscalls:"@.is_prefix_of(t) {
            run_laws::lemma_prefix("syscalls:"@, t, 0);
        }
        assert(t.subrange(0, 9) =~= "builtins:"@);
        assert(t.skip(9) =~= seq![' '] + value);
        assert("  "@ + "builtins"@ + ":"@ + kept =~= "  builtins:"@ + kept);
    }
    if t == "l2_l1_message_sizes: "@ + value {
        if "syscalls:"@.is_prefix_of(t) {
            run_laws::lemma_prefix("syscalls:"@, t, 0);
        }
        if "builtins:"@.is_prefix_of(t) {
            run_laws::lemma_prefix("builtins:"@, t, 0);
        }
        assert(t.subrange(0, 20) =~= "l2_l1_message_sizes:"@);
        assert(t.skip(20) =~= seq![' '] + value);
        assert("  "@ + "l2_msg"@ + ":"@ + kept =~= "  l2_msg:"@ + kept);
    }
}

/// A text with no white space and no parentheses at its ends is left alone.
proof fn lemma_word_alone(s: Seq<char>)
    requires
        s.len() > 2,
        !text::is_white(s[0]),
        !text::is_white(s.last()),
    ensures
        text::trimmed(s) == s,
        !text::is_paren(s[0]) && !text::is_paren(s.last()) ==> text::without_parens(s) == s,
{
    containment::lemma_trimmed_already(s);
}

proof fn lemma_kept_some(pairs: Seq<(Seq<char>, Seq<char>)>)
    requires
        are_words(pairs),
        pairs.len() > 0,
    ensures
        text::joined(pairs.map_values(|p: (Seq<char>, Seq<char>)| close(p)), ","@).len() > 0,
{
    let cs = pairs.map_values(|p: (Seq<char>, Seq<char>)| close(p));
    assert(is_word(pairs[0].0));
    assert(cs[0] == close(pairs[0]));
}

/// A line that names no resources is not kept.
pub proof fn law_empty_resources_dropped(line: Seq<char>)
    requires
        ({
            let t = text::trimmed(line);
            ||| t == "syscalls:"@
            ||| t == "builtins:"@
            ||| t == "l2_l1_message_sizes:"@
            ||| t == "syscalls: ()"@
            ||| t == "builtins: ()"@
            ||| t == "l2_l1_message_sizes: ()"@
        }),
    ensures
        gas::resource_text(line) is None,
{
    reveal_strlit("syscalls: ()");
    reveal_strlit("syscalls:");
    reveal_strlit("builtins: ()");
    reveal_strlit("builtins:");
    reveal_strlit("l2_l1_message_sizes: ()");
    reveal_strlit("l2_l1_message_sizes:");
    reveal_strlit("()");
    let t = text::trimmed(line);
    containment::lemma_trimmed_already("()"@);
    lemma_trimmed_space("()"@);
    if "syscalls:"@.is_prefix_of(t) {
        run_laws::lemma_prefix("syscalls:"@, t, 0);
    }
    if "builtins:"@.is_prefix_of(t) {
        run_laws::lemma_prefix("builtins:"@, t, 0);
    }
    let n: int = if t[0] == 'l' {
        20
    } else {
        9
    };
    if t.len() > n {
        assert(t.skip(n) =~= seq![' '] + "()"@);
    } else {
        assert(t.skip(n) =~= Seq::<char>::empty());
    }
}

/// A line without both parentheses is not kept, nor is one whose last parentheses are the wrong way
/// round.
pub proof fn law_pass_line_needs_parentheses(line: Seq<char>)
    requires
        ({
            ||| forall|i: int| 0 <= i < line.len() ==> #[trigger] line[i] != '('
            ||| forall|i: int| 0 <= i < line.len() ==> #[trigger] line[i] != ')'
            ||| exists|k: int|
                {
                    &&& 0 <= k < line.len()
                    &&& #[trigger] line[k] == '('
                    &&& forall|i: int| k < i < line.len() ==> #[trigger] line[i] != ')'
                }
        }),
    ensures
        gas::pass_gas(line) is None,
{
    text_laws::law_last_position(line, '(');
    text_laws::law_last_position(line, ')');
    if exists|k: int|
        {
            &&& 0 <= k < line.len()
            &&& #[trigger] line[k] == '('
            &&& forall|i: int| k < i < line.len() ==> #[trigger] line[i] != ')'
        } {
        let k = choose|k: int|
            {
                &&& 0 <= k < line.len()
                &&& #[trigger] line[k] == '('
                &&& forall|i: int| k < i < line.len() ==> #[trigger] line[i] != ')'
            };
        assert(line[k] == '(');
    }
}

/// A line that names none of the resources is not kept.
pub proof fn law_no_resource_no_line(line: Seq<char>)
    requires
        !run_laws::tells_resource(line),
    ensures
        gas::resource_text(line) is None,
{
}

} // verus!
