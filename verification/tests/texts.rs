use cairo_filters::counts;
use cairo_filters::number;
use cairo_filters::pattern;
use cairo_filters::strings;

const SAMPLES: [&str; 18] = [
    "",
    " ",
    "\n",
    "\r\n",
    "a",
    "a\n",
    "a\r\n",
    "a\r",
    "a\n\nb",
    "\na\r\n\r\nb\r",
    "  padded \t",
    "\u{3000}wide\u{a0}",
    "(x)",
    "((a: 1), b: 2)",
    "one, two,,three,",
    "aaaa",
    "│ ERC20 │ transfer │",
    "✓ done",
];

#[test]
fn white_space_is_what_the_standard_library_says() {
    for c in '\0'..=char::MAX {
        assert_eq!(strings::is_whitespace(c), c.is_whitespace(), "{:?}", c);
    }
}

#[test]
fn lines_are_those_of_the_standard_library() {
    for s in SAMPLES {
        let expected: Vec<String> = s.lines().map(|l| l.to_string()).collect();
        assert_eq!(strings::lines(s), expected, "{:?}", s);
    }
}

#[test]
fn splitting_is_that_of_the_standard_library() {
    for s in SAMPLES {
        for c in [',', '│', '\n', 'a'] {
            let expected: Vec<String> = s.split(c).map(|l| l.to_string()).collect();
            assert_eq!(strings::split(s, c), expected, "{:?}", s);
        }
    }
}

#[test]
fn trimming_is_that_of_the_standard_library() {
    for s in SAMPLES {
        assert_eq!(strings::trim(s), s.trim(), "{:?}", s);
        assert_eq!(strings::trim_start(s), s.trim_start(), "{:?}", s);
        assert_eq!(strings::is_blank(s), s.trim().is_empty(), "{:?}", s);
        assert_eq!(
            strings::trim_parens(s),
            s.trim_matches(|c| c == '(' || c == ')'),
            "{:?}",
            s
        );
    }
}

#[test]
fn searching_is_that_of_the_standard_library() {
    for s in SAMPLES {
        assert_eq!(strings::chars_of(s), s.chars().collect::<Vec<char>>());
        for p in SAMPLES {
            assert_eq!(strings::starts_with(s, p), s.starts_with(p), "{:?} {:?}", s, p);
            assert_eq!(strings::ends_with(s, p), s.ends_with(p), "{:?} {:?}", s, p);
            assert_eq!(strings::contains(s, p), s.contains(p), "{:?} {:?}", s, p);
            assert_eq!(strings::strip_prefix(s, p), s.strip_prefix(p), "{:?} {:?}", s, p);
            assert_eq!(strings::same_text(s, p), s == p, "{:?} {:?}", s, p);
        }
        for c in ['a', '(', '│', ' '] {
            assert_eq!(strings::starts_with_char(s, c), s.starts_with(c), "{:?}", s);
            let expected = s.rfind(c).map(|at| s[..at].chars().count());
            assert_eq!(strings::rfind(s, c), expected, "{:?}", s);
        }
    }
}

#[test]
fn replacing_and_joining_are_those_of_the_standard_library() {
    for s in SAMPLES {
        for p in SAMPLES {
            if !p.is_empty() {
                assert_eq!(strings::replace(s, p, "<>"), s.replace(p, "<>"), "{:?} {:?}", s, p);
                assert_eq!(strings::replace(s, p, ""), s.replace(p, ""), "{:?} {:?}", s, p);
            }
        }
    }
    let all: Vec<String> = SAMPLES.iter().map(|s| s.to_string()).collect();
    assert_eq!(strings::join(&all, ", "), SAMPLES.join(", "));
    assert_eq!(strings::join(&[], ", "), "");
    let mut out = String::from("start:");
    strings::append_each(&mut out, &all[4..6].to_vec(), ";");
    assert_eq!(out, "start:a;a\n;");
}

#[test]
fn numbers_are_written_in_decimal() {
    for n in [0, 1, 9, 10, 11, 99, 100, 12345, usize::MAX] {
        let mut out = String::from("n=");
        number::append_decimal(&mut out, n);
        assert_eq!(out, format!("n={}", n));
    }
}

#[test]
fn numbers_are_read_as_the_standard_library_reads_them() {
    let too_large = format!("{}0", usize::MAX);
    let largest = usize::MAX.to_string();
    for s in [
        "0", "7", "007", "42", "+5", "+", "", "-1", " 1", "1 ", "1a", "٣", "99999", &largest, &too_large,
    ] {
        assert_eq!(number::parse_usize(s), s.parse::<usize>().ok(), "{:?}", s);
    }
}

#[test]
fn a_number_is_read_back_from_its_decimal_form() {
    for n in [0, 5, 10, 65536, usize::MAX] {
        let mut out = String::new();
        number::append_decimal(&mut out, n);
        assert_eq!(number::parse_usize(&out), Some(n));
    }
}

#[test]
fn counts_leave_out_what_is_zero() {
    let mut out = String::new();
    counts::append_counts(&mut out, 3, 0, 0);
    assert_eq!(out, "3 passed");
    out.clear();
    counts::append_counts(&mut out, 0, 2, 0);
    assert_eq!(out, "0 passed, 2 ignored");
    out.clear();
    counts::append_counts(&mut out, 10, 0, 7);
    assert_eq!(out, "10 passed, 7 filtered out");
    out.clear();
    counts::append_counts(&mut out, 1, 2, 3);
    assert_eq!(out, "1 passed, 2 ignored, 3 filtered out");
}

#[test]
fn one_is_singular() {
    let mut out = String::new();
    counts::append_quantity(&mut out, 0, " suite", " suites");
    counts::append_quantity(&mut out, 1, " suite", " suites");
    counts::append_quantity(&mut out, 2, " suite", " suites");
    assert_eq!(out, "0 suites1 suite2 suites");
}

#[test]
fn groups_are_looked_up_by_number() {
    let groups = vec![Some("12 ok".to_string()), Some("12".to_string()), None, Some("ok".to_string())];
    assert_eq!(pattern::group_count(&groups, 1), Some(12));
    assert_eq!(pattern::group_count(&groups, 2), None);
    assert_eq!(pattern::group_count(&groups, 3), None);
    assert_eq!(pattern::group_count(&groups, 4), None);
    assert!(pattern::group_is(&groups, 3, "ok"));
    assert!(!pattern::group_is(&groups, 1, "ok"));
    assert!(!pattern::group_is(&groups, 2, "ok"));
    assert!(!pattern::group_is(&groups, 9, "ok"));
}
