//! Operations on strings, each stated over the characters that the string holds.
use crate::text;
use vstd::prelude::*;
use vstd::string::*;

verus! {

/// Tests a character for the Unicode property `White_Space`.
pub fn is_whitespace(c: char) -> (r: bool)
    ensures
        r == text::is_white(c),
{
    ('\u{9}' <= c && c <= '\u{d}') || c == ' ' || c == '\u{85}' || c == '\u{a0}' || c == '\u{1680}'
        || ('\u{2000}' <= c && c <= '\u{200a}') || c == '\u{2028}' || c == '\u{2029}'
        || c == '\u{202f}' || c == '\u{205f}' || c == '\u{3000}'
}

/// The characters of `s`, in order.
pub fn chars_of(s: &str) -> (r: Vec<char>)
    ensures
        r@ == s@,
{
    let mut r: Vec<char> = Vec::new();
    for c in it: s.chars()
        invariant
            r@ == s@.take(it.index() as int),
            it.seq() == s@,
    {
        r.push(c);
        assert(s@.take(it.index() + 1) == s@.take(it.index() as int).push(c));
    }
    assert(s@.take(s@.len() as int) == s@);
    r
}

/// Whether `s` begins with `p`.
pub fn starts_with(s: &str, p: &str) -> (r: bool)
    ensures
        r == p@.is_prefix_of(s@),
{
    let mut a = s.chars();
    let mut b = p.chars();
    let ghost mut n: int = 0;
    loop
        invariant
            0 <= n <= p@.len(),
            n <= s@.len(),
            vstd::std_specs::iter::IteratorSpec::remaining(&a) == s@.skip(n),
            vstd::std_specs::iter::IteratorSpec::remaining(&b) == p@.skip(n),
            p@.take(n) == s@.take(n),
        decreases p@.len() - n,
    {
        match b.next() {
            None => {
                return true;
            },
            Some(y) => {
                match a.next() {
                    None => {
                        return false;
                    },
                    Some(x) => {
                        if x != y {
                            return false;
                        }
                        proof {
                            n = n + 1;
                        }
                    },
                }
            },
        }
    }
}

/// Whether two strings hold the same characters.
pub fn same_text(s: &str, t: &str) -> (r: bool)
    ensures
        r == (s@ == t@),
{
    assert(s@.len() == t@.len() ==> s@.subrange(0, t@.len() as int) == s@);
    s.unicode_len() == t.unicode_len() && starts_with(s, t)
}

/// Whether `s` begins with the character `c`.
pub fn starts_with_char(s: &str, c: char) -> (r: bool)
    ensures
        r == (s@.len() > 0 && s@[0] == c),
{
    let mut it = s.chars();
    match it.next() {
        None => false,
        Some(x) => x == c,
    }
}

/// Whether `b` stands in `a` at position `i`.
fn matches_at(a: &Vec<char>, b: &Vec<char>, i: usize) -> (r: bool)
    requires
        i + b.len() <= a.len(),
    ensures
        r == text::occurs_at(a@, b@, i as int),
{
    let mut k: usize = 0;
    while k < b.len()
        invariant
            k <= b.len(),
            i + b.len() <= a.len(),
            forall|j: int| 0 <= j < k ==> #[trigger] b[j] == a[i + j],
        decreases b.len() - k,
    {
        if a[i + k] != b[k] {
            assert(a@.subrange(i as int, i + b.len())[k as int] != b@[k as int]);
            return false;
        }
        k = k + 1;
    }
    assert(a@.subrange(i as int, i + b.len()) == b@);
    true
}

/// Whether `s` ends with `p`.
pub fn ends_with(s: &str, p: &str) -> (r: bool)
    ensures
        r == p@.is_suffix_of(s@),
{
    let a = chars_of(s);
    let b = chars_of(p);
    if b.len() > a.len() {
        return false;
    }
    matches_at(&a, &b, a.len() - b.len())
}

/// Whether `p` stands anywhere in `s`.
pub fn contains(s: &str, p: &str) -> (r: bool)
    ensures
        r == text::has_text(s@, p@),
{
    let a = chars_of(s);
    let b = chars_of(p);
    if b.len() > a.len() {
        return false;
    }
    let last: usize = a.len() - b.len();
    let mut i: usize = 0;
    loop
        invariant
            a@ == s@,
            b@ == p@,
            b.len() <= a.len(),
            last == a.len() - b.len(),
            i <= last,
            forall|k: int| 0 <= k < i ==> !text::occurs_at(s@, p@, k),
        decreases last - i,
    {
        if matches_at(&a, &b, i) {
            return true;
        }
        if i == last {
            return false;
        }
        i = i + 1;
    }
}

/// Whether `s` holds nothing but white space.
pub fn is_blank(s: &str) -> (r: bool)
    ensures
        r == text::blank(s@),
{
    let a = chars_of(s);
    let mut i: usize = 0;
    while i < a.len()
        invariant
            a@ == s@,
            i <= a.len(),
            forall|k: int| 0 <= k < i ==> text::is_white(#[trigger] s@[k]),
        decreases a.len() - i,
    {
        if !is_whitespace(a[i]) {
            assert(!text::is_white(s@[i as int]));
            return false;
        }
        i = i + 1;
    }
    true
}

/// How many characters of white space `a` begins with.
fn leading_white(a: &Vec<char>) -> (k: usize)
    ensures
        k <= a.len(),
        text::trimmed_start(a@) == a@.skip(k as int),
{
    let mut k: usize = 0;
    while k < a.len() && is_whitespace(a[k])
        invariant
            k <= a.len(),
            forall|i: int| 0 <= i < k ==> text::is_white(#[trigger] a@[i]),
        decreases a.len() - k,
    {
        k = k + 1;
    }
    proof {
        text::lemma_trimmed_start_at(a@, k as int);
    }
    k
}

/// `s` without the white space at its start.
pub fn trim_start(s: &str) -> (r: &str)
    ensures
        r@ == text::trimmed_start(s@),
{
    let a = chars_of(s);
    let k = leading_white(&a);
    s.substring_char(k, a.len())
}

/// `s` without the white space at either end.
pub fn trim(s: &str) -> (r: &str)
    ensures
        r@ == text::trimmed(s@),
{
    let a = chars_of(s);
    let k = leading_white(&a);
    let mut n: usize = a.len();
    let ghost t = text::trimmed_start(s@);
    while n > k && is_whitespace(a[n - 1])
        invariant
            a@ == s@,
            k <= n <= a.len(),
            t == s@.skip(k as int),
            forall|i: int| n - k <= i < t.len() ==> text::is_white(#[trigger] t[i]),
        decreases n,
    {
        n = n - 1;
    }
    proof {
        text::lemma_trimmed_end_at(t, n - k);
        assert(t.take(n - k) == s@.subrange(k as int, n as int));
    }
    s.substring_char(k, n)
}

/// `s` without the parentheses at either end.
pub fn trim_parens(s: &str) -> (r: &str)
    ensures
        r@ == text::without_parens(s@),
{
    let a = chars_of(s);
    let mut k: usize = 0;
    let mut n: usize = a.len();
    assert(s@.subrange(0, s@.len() as int) == s@);
    loop
        invariant
            a@ == s@,
            k <= n <= a.len(),
            text::without_parens(s@) == text::without_parens(s@.subrange(k as int, n as int)),
        decreases n - k,
    {
        let ghost rest = s@.subrange(k as int, n as int);
        if k < n && (a[k] == '(' || a[k] == ')') {
            assert(rest.skip(1) == s@.subrange(k + 1, n as int));
            k = k + 1;
        } else if k < n && (a[n - 1] == '(' || a[n - 1] == ')') {
            assert(rest.drop_last() == s@.subrange(k as int, n - 1));
            n = n - 1;
        } else {
            return s.substring_char(k, n);
        }
    }
}

/// What follows `p` in `s`, if `s` begins with `p`.
pub fn strip_prefix<'a>(s: &'a str, p: &str) -> (r: Option<&'a str>)
    ensures
        p@.is_prefix_of(s@) ==> r is Some && r->0@ == s@.skip(p@.len() as int),
        !p@.is_prefix_of(s@) ==> r is None,
{
    if starts_with(s, p) {
        let r = s.substring_char(p.unicode_len(), s.unicode_len());
        assert(r@ == s@.skip(p@.len() as int));
        Some(r)
    } else {
        None
    }
}

/// The last position of `c` in `s`.
pub fn rfind(s: &str, c: char) -> (r: Option<usize>)
    ensures
        match r {
            Some(i) => text::last_position(s@, c) == Some(i as int) && i < s@.len(),
            None => text::last_position(s@, c) is None,
        },
{
    let a = chars_of(s);
    let mut n: usize = a.len();
    assert(s@.take(n as int) == s@);
    while n > 0
        invariant
            a@ == s@,
            n <= a.len(),
            text::last_position(s@, c) == text::last_position(s@.take(n as int), c),
        decreases n,
    {
        if a[n - 1] == c {
            return Some(n - 1);
        }
        assert(s@.take(n as int).drop_last() == s@.take(n - 1));
        n = n - 1;
    }
    None
}

/// A line without the carriage return that a line feed followed.
fn strip_cr(line: &str) -> (r: String)
    ensures
        r@ == text::without_cr(line@),
{
    let n: usize = line.unicode_len();
    if n > 0 && line.get_char(n - 1) == '\r' {
        line.substring_char(0, n - 1).to_owned()
    } else {
        line.to_owned()
    }
}

/// The lines of `s`.
pub fn lines(s: &str) -> (r: Vec<String>)
    ensures
        text::views(r@) == text::lines_of(s@),
{
    let mut out: Vec<String> = Vec::new();
    let mut cur: String = String::new();
    assert(cur@ + s@.skip(0) == s@);
    for c in it: s.chars()
        invariant
            it.seq() == s@,
            forall|i: int| 0 <= i < cur@.len() ==> cur@[i] != '\n',
            text::lines_of(s@) == text::views(out@) + text::lines_of(cur@ + s@.skip(it.index() as int)),
    {
        let ghost rest = s@.skip(it.index() + 1);
        let ghost whole = cur@ + s@.skip(it.index() as int);
        assert(s@.skip(it.index() as int) == seq![c] + rest);
        if c == '\n' {
            proof {
                text::lemma_upto_at(whole, '\n', cur@.len() as int);
                assert(whole.take(cur@.len() as int) == cur@);
                assert(whole.skip(cur@.len() as int + 1) == rest);
            }
            let line = strip_cr(cur.as_str());
            let ghost before = text::views(out@);
            out.push(line);
            assert(text::views(out@) == before + seq![text::without_cr(cur@)]);
            cur = String::new();
            assert(cur@ + rest == rest);
            assert(text::lines_of(s@) == text::views(out@) + text::lines_of(rest));
        } else {
            assert(cur@.push(c) + rest == whole);
            cur.push(c);
        }
    }
    assert(cur@ + s@.skip(s@.len() as int) == cur@);
    if cur.as_str().is_empty() {
        assert(text::views(out@) + text::lines_of(cur@) == text::views(out@));
        out
    } else {
        proof {
            text::lemma_upto_at(cur@, '\n', cur@.len() as int);
        }
        let ghost before = text::views(out@);
        let ghost last = cur@;
        out.push(cur);
        assert(text::views(out@) == before + seq![last]);
        out
    }
}

/// The pieces of `s` between its occurrences of `c`.
pub fn split(s: &str, c: char) -> (r: Vec<String>)
    ensures
        text::views(r@) == text::split_at_each(s@, c),
{
    let mut out: Vec<String> = Vec::new();
    let mut cur: String = String::new();
    assert(cur@ + s@.skip(0) == s@);
    for x in it: s.chars()
        invariant
            it.seq() == s@,
            forall|i: int| 0 <= i < cur@.len() ==> cur@[i] != c,
            text::split_at_each(s@, c) == text::views(out@) + text::split_at_each(
                cur@ + s@.skip(it.index() as int),
                c,
            ),
    {
        let ghost rest = s@.skip(it.index() + 1);
        let ghost whole = cur@ + s@.skip(it.index() as int);
        assert(s@.skip(it.index() as int) == seq![x] + rest);
        if x == c {
            proof {
                text::lemma_upto_at(whole, c, cur@.len() as int);
                assert(whole.take(cur@.len() as int) == cur@);
                assert(whole.skip(cur@.len() as int + 1) == rest);
            }
            let ghost before = text::views(out@);
            let ghost piece = cur@;
            out.push(cur);
            assert(text::views(out@) == before + seq![piece]);
            cur = String::new();
            assert(cur@ + rest == rest);
            assert(text::split_at_each(s@, c) == text::views(out@) + text::split_at_each(rest, c));
        } else {
            assert(cur@.push(x) + rest == whole);
            cur.push(x);
        }
    }
    assert(cur@ + s@.skip(s@.len() as int) == cur@);
    proof {
        text::lemma_upto_at(cur@, c, cur@.len() as int);
    }
    let ghost before = text::views(out@);
    let ghost last = cur@;
    out.push(cur);
    assert(text::views(out@) == before + seq![last]);
    out
}

/// `parts` one after the other, with `sep` between neighbours.
pub fn join(parts: &[String], sep: &str) -> (r: String)
    ensures
        r@ == text::joined(text::views(parts@), sep@),
{
    let ghost ps = text::views(parts@);
    if parts.len() == 0 {
        return String::new();
    }
    let mut out: String = parts[0].as_str().to_owned();
    let mut i: usize = 1;
    assert(ps.len() > 1 ==> text::joined(ps, sep@) == out@ + (sep@ + text::joined(ps.skip(1), sep@)));
    while i < parts.len()
        invariant
            ps == text::views(parts@),
            1 <= i <= parts.len(),
            i < parts.len() ==> text::joined(ps, sep@) == out@ + (sep@ + text::joined(
                ps.skip(i as int),
                sep@,
            )),
            i == parts.len() ==> text::joined(ps, sep@) == out@,
        decreases parts.len() - i,
    {
        let ghost rest = ps.skip(i as int);
        let ghost before = out@;
        out.append(sep);
        out.append(parts[i].as_str());
        proof {
            assert(rest[0] == parts[i as int]@);
            assert(rest.skip(1) == ps.skip(i + 1));
            if i + 1 < parts.len() {
                assert(before + (sep@ + (rest[0] + sep@ + text::joined(rest.skip(1), sep@))) == (before
                    + sep@ + rest[0]) + (sep@ + text::joined(rest.skip(1), sep@)));
            } else {
                assert(before + (sep@ + rest[0]) == before + sep@ + rest[0]);
            }
        }
        i = i + 1;
    }
    out
}

/// Appends `parts` to `out`, each followed by `end`.
pub fn append_each(out: &mut String, parts: &Vec<String>, end: &str)
    ensures
        final(out)@ == old(out)@ + text::each_ended(text::views(parts@), end@),
{
    let ghost ps = text::views(parts@);
    let ghost start = out@;
    let mut i: usize = 0;
    assert(start + text::each_ended(ps.take(0), end@) == start);
    while i < parts.len()
        invariant
            ps == text::views(parts@),
            i <= parts.len(),
            out@ == start + text::each_ended(ps.take(i as int), end@),
        decreases parts.len() - i,
    {
        proof {
            assert(ps.take(i + 1).drop_last() == ps.take(i as int));
            assert(ps.take(i + 1).last() == parts[i as int]@);
            assert(start + (text::each_ended(ps.take(i as int), end@) + parts[i as int]@ + end@) == (start
                + text::each_ended(ps.take(i as int), end@)) + parts[i as int]@ + end@);
        }
        out.append(parts[i].as_str());
        out.append(end);
        i = i + 1;
    }
    assert(ps.take(parts.len() as int) == ps);
}

/// `s` with every occurrence of `from`, found from left to right, replaced by `to`.
pub fn replace(s: &str, from: &str, to: &str) -> (r: String)
    requires
        from@.len() > 0,
    ensures
        r@ == text::replaced(s@, from@, to@),
{
    let a = chars_of(s);
    let b = chars_of(from);
    let mut out: String = String::new();
    let mut i: usize = 0;
    assert(s@.skip(0) == s@);
    while i < a.len()
        invariant
            a@ == s@,
            b@ == from@,
            from@.len() > 0,
            i <= a.len(),
            text::replaced(s@, from@, to@) == out@ + text::replaced(s@.skip(i as int), from@, to@),
        decreases a.len() - i,
    {
        let ghost rest = s@.skip(i as int);
        let ghost before = out@;
        assert(b.len() <= rest.len() ==> rest.subrange(0, b.len() as int) == s@.subrange(
            i as int,
            i + b.len(),
        ));
        if b.len() <= a.len() - i && matches_at(&a, &b, i) {
            out.append(to);
            i = i + b.len();
            proof {
                assert(rest.skip(b.len() as int) == s@.skip(i as int));
                assert(before + (to@ + text::replaced(s@.skip(i as int), from@, to@)) == out@ + text::replaced(
                    s@.skip(i as int),
                    from@,
                    to@,
                ));
            }
        } else {
            out.push(a[i]);
            i = i + 1;
            proof {
                assert(rest.skip(1) == s@.skip(i as int));
                assert(before + (seq![rest[0]] + text::replaced(s@.skip(i as int), from@, to@)) == out@
                    + text::replaced(s@.skip(i as int), from@, to@));
            }
        }
    }
    assert(out@ + text::replaced(s@.skip(s@.len() as int), from@, to@) == out@);
    out
}

} // verus!
