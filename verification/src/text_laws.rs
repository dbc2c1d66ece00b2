//! What the operations on texts do, each in terms of the texts alone.
use crate::containment;
use crate::number;
use crate::text;
use vstd::prelude::*;

verus! {

/// Trimming takes white space from the ends of a text and nothing else, and leaves none there.
pub proof fn law_trimmed(s: Seq<char>)
    ensures
        exists|a: Seq<char>, b: Seq<char>|
            s == #[trigger] (a + text::trimmed(s) + b) && text::blank(a) && text::blank(b),
        exists|a: Seq<char>| s == #[trigger] (a + text::trimmed_start(s)) && text::blank(a),
        text::trimmed(s).len() > 0 ==> !text::is_white(text::trimmed(s)[0]) && !text::is_white(
            text::trimmed(s).last(),
        ),
        text::trimmed_start(s).len() > 0 ==> !text::is_white(text::trimmed_start(s)[0]),
{
    let r = containment::lemma_trimmed_bounds(s);
    let t = text::trimmed(s);
    let a = s.take(r.0);
    let b = s.skip(r.1);
    assert(s =~= a + t + b);
    assert forall|i: int| 0 <= i < a.len() implies text::is_white(#[trigger] a[i]) by {
        assert(a[i] == s[i]);
    }
    assert forall|i: int| 0 <= i < b.len() implies text::is_white(#[trigger] b[i]) by {
        assert(b[i] == s[i + r.1]);
    }
    assert(text::blank(a) && text::blank(b));
    if t.len() > 0 {
        assert(t[0] == s[r.0]);
        assert(t.last() == s[r.1 - 1]);
    }
    lemma_start(s);
}

proof fn lemma_start(s: Seq<char>)
    ensures
        exists|a: Seq<char>| s == #[trigger] (a + text::trimmed_start(s)) && text::blank(a),
        text::trimmed_start(s).len() > 0 ==> !text::is_white(text::trimmed_start(s)[0]),
    decreases s.len(),
{
    let none = Seq::<char>::empty();
    if s.len() > 0 && text::is_white(s[0]) {
        let rest = s.skip(1);
        lemma_start(rest);
        let b = choose|b: Seq<char>|
            rest == #[trigger] (b + text::trimmed_start(rest)) && text::blank(b);
        let a = seq![s[0]] + b;
        assert forall|i: int| 0 <= i < a.len() implies text::is_white(#[trigger] a[i]) by {
            if i > 0 {
                assert(a[i] == b[i - 1]);
            }
        }
        assert(s =~= seq![s[0]] + rest);
        assert(s =~= a + text::trimmed_start(s));
    } else {
        assert(s =~= none + text::trimmed_start(s));
        assert(text::blank(none));
    }
}

/// Whether `c` is a parenthesis.
pub open spec fn is_paren(c: char) -> bool {
    c == '(' || c == ')'
}

/// Where a text without the parentheses at its ends stands in the text.
proof fn lemma_paren_bounds(s: Seq<char>) -> (r: (int, int))
    ensures
        0 <= r.0 <= r.1 <= s.len(),
        text::without_parens(s) == s.subrange(r.0, r.1),
        forall|k: int| 0 <= k < r.0 || r.1 <= k < s.len() ==> is_paren(#[trigger] s[k]),
        r.0 < r.1 ==> !is_paren(s[r.0]) && !is_paren(s[r.1 - 1]),
    decreases s.len(),
{
    let n = s.len() as int;
    if n > 0 && is_paren(s[0]) {
        let rest = s.skip(1);
        let r = lemma_paren_bounds(rest);
        assert(rest.subrange(r.0, r.1) =~= s.subrange(r.0 + 1, r.1 + 1));
        assert forall|k: int| 0 <= k < r.0 + 1 || r.1 + 1 <= k < n implies is_paren(
            #[trigger] s[k],
        ) by {
            if k > 0 {
                assert(rest[k - 1] == s[k]);
            }
        }
        if r.0 < r.1 {
            assert(rest[r.0] == s[r.0 + 1]);
            assert(rest[r.1 - 1] == s[r.1]);
        }
        (r.0 + 1, r.1 + 1)
    } else if n > 0 && is_paren(s.last()) {
        let rest = s.drop_last();
        let r = lemma_paren_bounds(rest);
        assert(rest.subrange(r.0, r.1) =~= s.subrange(r.0, r.1));
        assert forall|k: int| 0 <= k < r.0 || r.1 <= k < n implies is_paren(#[trigger] s[k]) by {
            if k < n - 1 {
                assert(rest[k] == s[k]);
            }
        }
        if r.0 < r.1 {
            assert(rest[r.0] == s[r.0]);
            assert(rest[r.1 - 1] == s[r.1 - 1]);
        }
        r
    } else {
        assert(s.subrange(0, n) =~= s);
        (0, n)
    }
}

/// Taking parentheses from the ends of a text takes nothing else, and leaves none there.
pub proof fn law_without_parens(s: Seq<char>)
    ensures
        exists|i: int, j: int|
            {
                &&& 0 <= i <= j <= s.len()
                &&& text::without_parens(s) == #[trigger] s.subrange(i, j)
                &&& forall|k: int| 0 <= k < i || j <= k < s.len() ==> is_paren(#[trigger] s[k])
                &&& i < j ==> !is_paren(s[i]) && !is_paren(s[j - 1])
            },
{
    let r = lemma_paren_bounds(s);
    assert(text::without_parens(s) == s.subrange(r.0, r.1));
}

/// A text is read line by line: what stands before a line feed is a line, without one carriage
/// return at its end, and what stands after it is read on.
pub proof fn law_lines(a: Seq<char>, b: Seq<char>)
    requires
        forall|i: int| 0 <= i < a.len() ==> #[trigger] a[i] != '\n',
    ensures
        text::lines_of(a.push('\n') + b) == seq![
            if a.len() > 0 && a.last() == '\r' {
                a.drop_last()
            } else {
                a
            },
        ] + text::lines_of(b),
        text::lines_of(a) == (if a.len() == 0 {
            seq![]
        } else {
            seq![a]
        }),
{
    let s = a.push('\n') + b;
    let n = a.len() as int;
    assert forall|i: int| 0 <= i < n implies s[i] != '\n' by {
        assert(s[i] == a[i]);
    }
    assert(s[n] == '\n');
    text::lemma_upto_at(s, '\n', n);
    assert(s.take(n) =~= a);
    assert(s.skip(n + 1) =~= b);
    text::lemma_upto_at(a, '\n', n);
}

/// A text is split at each occurrence of a character, and nowhere else.
pub proof fn law_split(a: Seq<char>, b: Seq<char>, c: char)
    requires
        forall|i: int| 0 <= i < a.len() ==> #[trigger] a[i] != c,
    ensures
        text::split_at_each(a.push(c) + b, c) == seq![a] + text::split_at_each(b, c),
        text::split_at_each(a, c) == seq![a],
{
    let s = a.push(c) + b;
    let n = a.len() as int;
    assert forall|i: int| 0 <= i < n implies s[i] != c by {
        assert(s[i] == a[i]);
    }
    assert(s[n] == c);
    text::lemma_upto_at(s, c, n);
    assert(s.take(n) =~= a);
    assert(s.skip(n + 1) =~= b);
    text::lemma_upto_at(a, c, n);
}

/// Parts are joined with the separator between neighbours, and ended with the end after each.
pub proof fn law_joined(parts: Seq<Seq<char>>, part: Seq<char>, sep: Seq<char>)
    ensures
        text::joined(seq![], sep) == Seq::<char>::empty(),
        text::joined(seq![part], sep) == part,
        parts.len() > 0 ==> text::joined(parts.push(part), sep) == text::joined(parts, sep) + sep
            + part,
        text::each_ended(seq![], sep) == Seq::<char>::empty(),
        text::each_ended(parts.push(part), sep) == text::each_ended(parts, sep) + part + sep,
{
    if parts.len() > 0 {
        containment::lemma_joined_push(parts, part, sep);
    }
    assert(parts.push(part).drop_last() =~= parts);
}

/// An occurrence is replaced where it stands; a text without its first character before it stays.
pub proof fn law_replaced(x: Seq<char>, y: Seq<char>, from: Seq<char>, to: Seq<char>)
    requires
        from.len() > 0,
        forall|i: int| 0 <= i < x.len() ==> #[trigger] x[i] != from[0],
    ensures
        text::replaced(x + from + y, from, to) == x + to + text::replaced(y, from, to),
        text::replaced(x, from, to) == x,
{
    lemma_replaced_over(x, from + y, from, to);
    assert(x + (from + y) =~= x + from + y);
    let s = from + y;
    assert(s.subrange(0, from.len() as int) =~= from);
    assert(s.skip(from.len() as int) =~= y);
    assert(x + (to + text::replaced(y, from, to)) =~= x + to + text::replaced(y, from, to));
    let none = Seq::<char>::empty();
    lemma_replaced_over(x, none, from, to);
    assert(x + none =~= x);
    assert(text::replaced(none, from, to) =~= none);
}

/// A character that cannot begin an occurrence stays.
pub proof fn law_replaced_step(s: Seq<char>, from: Seq<char>, to: Seq<char>)
    requires
        s.len() > 0,
        from.len() > 0,
        !from.is_prefix_of(s),
    ensures
        text::replaced(s, from, to) == seq![s[0]] + text::replaced(s.skip(1), from, to),
{
}

/// What cannot begin an occurrence stays before it.
pub proof fn lemma_replaced_over(x: Seq<char>, y: Seq<char>, from: Seq<char>, to: Seq<char>)
    requires
        from.len() > 0,
        forall|i: int| 0 <= i < x.len() ==> #[trigger] x[i] != from[0],
    ensures
        text::replaced(x + y, from, to) == x + text::replaced(y, from, to),
    decreases x.len(),
{
    if x.len() == 0 {
        assert(x + y =~= y);
        assert(x + text::replaced(y, from, to) =~= text::replaced(y, from, to));
    } else {
        let s = x + y;
        if from.is_prefix_of(s) {
            assert(from[0] == s.subrange(0, from.len() as int)[0]);
            assert(s[0] == x[0]);
        }
        let rest = x.skip(1);
        assert forall|i: int| 0 <= i < rest.len() implies #[trigger] rest[i] != from[0] by {
            assert(rest[i] == x[i + 1]);
        }
        assert(s.skip(1) =~= rest + y);
        lemma_replaced_over(rest, y, from, to);
        assert(text::replaced(s, from, to) =~= x + text::replaced(y, from, to));
    }
}

/// The last position of a character is where it stands with no other after it.
pub proof fn law_last_position(s: Seq<char>, c: char)
    ensures
        match text::last_position(s, c) {
            None => forall|i: int| 0 <= i < s.len() ==> #[trigger] s[i] != c,
            Some(k) => {
                &&& 0 <= k < s.len()
                &&& s[k] == c
                &&& forall|i: int| k < i < s.len() ==> #[trigger] s[i] != c
            },
        },
    decreases s.len(),
{
    if s.len() > 0 && s.last() != c {
        let rest = s.drop_last();
        law_last_position(rest, c);
        let n = rest.len() as int;
        match text::last_position(rest, c) {
            None => {
                assert forall|i: int| 0 <= i < s.len() implies #[trigger] s[i] != c by {
                    if i < n {
                        assert(rest[i] == s[i]);
                    }
                }
            },
            Some(k) => {
                assert(rest[k] == s[k]);
                assert forall|i: int| k < i < s.len() implies #[trigger] s[i] != c by {
                    if i < n {
                        assert(rest[i] == s[i]);
                    }
                }
            },
        }
    }
}

/// Numbers are written digit by digit, without zeros before them.
pub proof fn law_decimal(n: nat, d: nat)
    requires
        d < 10,
    ensures
        number::decimal(d).len() == 1,
        number::decimal(d)[0] as int == '0' as int + d,
        n > 0 ==> number::decimal(10 * n + d) == number::decimal(n) + number::decimal(d),
{
    if n > 0 {
        assert((10 * n + d) / 10 == n && (10 * n + d) % 10 == d) by (nonlinear_arith)
            requires
                d < 10,
        ;
        assert(number::decimal(10 * n + d) =~= number::decimal(n) + number::decimal(d));
    }
}

/// A number is read with or without a plus sign before it. A text that holds anything but digits
/// is no number.
pub proof fn law_parsed(s: Seq<char>)
    requires
        s.len() == 0 || s[0] != '+',
    ensures
        number::parsed(seq!['+'] + s) == number::parsed(s),
        s.len() == 0 ==> number::parsed(s) is None,
        (exists|i: int| 0 <= i < s.len() && !('0' <= #[trigger] s[i] <= '9')) ==> number::parsed(
            s,
        ) is None,
{
    let t = seq!['+'] + s;
    assert(t.skip(1) =~= s);
    assert(t[0] == '+');
}

} // verus!
