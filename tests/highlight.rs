use highlight::cli::{parse_args, Invocation};
use highlight::matcher::{regions_from_spans, Matcher};
use highlight::region::Region;
use highlight::render::{
    banner_ops, file_error_ops, file_section_ops, files_ops, highlight_line, highlight_text, render_line,
    text_ops_of, TermOp,
};
use highlight::text::{char_index, chars_of, split_lines, utf8_width};

fn regions(pattern: &str, line: &str) -> Vec<Region> {
    let m = Matcher::new(pattern).unwrap();
    m.find_regions(line)
}

#[test]
fn region_contains_is_half_open() {
    let r = Region::new(2, 5);
    assert!(r.contains(2));
    assert!(r.contains(4));
    assert!(!r.contains(5));
    assert!(!r.contains(1));
    assert_eq!(r.start(), 2);
    assert_eq!(r.end(), 5);
}

#[test]
fn empty_region_contains_nothing() {
    let r = Region::new(3, 3);
    assert!(!r.contains(3));
    assert!(!r.contains(2));
}

#[test]
fn one_run_of_matches_is_one_region() {
    assert_eq!(regions("a+", "baaab"), vec![Region::new(1, 4)]);
}

#[test]
fn adjacent_matches_come_in_order() {
    assert_eq!(regions("ab", "abab"), vec![Region::new(0, 2), Region::new(2, 4)]);
}

#[test]
fn empty_matches_terminate() {
    let rs = regions("a*", "bb");
    assert!(rs.len() <= 3);
    for r in &rs {
        assert_eq!(r.start(), r.end());
    }
}

#[test]
fn regions_count_characters_not_bytes() {
    assert_eq!(regions("b", "ébé"), vec![Region::new(1, 2)]);
    assert_eq!(regions("é+", "aééz"), vec![Region::new(1, 3)]);
    assert_eq!(regions("z", "日本z"), vec![Region::new(2, 3)]);
}

#[test]
fn whole_match_not_groups() {
    assert_eq!(regions("a(b)c", "xabcx"), vec![Region::new(1, 4)]);
}

#[test]
fn no_match_no_regions() {
    assert_eq!(regions("q", "abc"), vec![]);
    assert_eq!(regions("a", ""), vec![]);
}

#[test]
fn malformed_pattern_is_rejected() {
    match Matcher::new("foo(bar") {
        Ok(_) => panic!("pattern should not compile"),
        Err(e) => assert!(!e.message().is_empty()),
    }
}

#[test]
fn matcher_keeps_its_pattern() {
    let m = Matcher::new("a+b").unwrap();
    assert_eq!(m.as_str(), "a+b");
}

#[test]
fn spans_become_character_regions() {
    let spans = vec![(0usize, 2usize), (3, 4)];
    assert_eq!(regions_from_spans("éab", &spans), vec![Region::new(0, 1), Region::new(2, 3)]);
}

#[test]
fn char_widths() {
    assert_eq!(utf8_width('a'), 1);
    assert_eq!(utf8_width('é'), 2);
    assert_eq!(utf8_width('日'), 3);
    assert_eq!(utf8_width('😀'), 4);
}

#[test]
fn byte_offsets_to_char_indices() {
    let chars = chars_of("aé日z");
    assert_eq!(char_index(&chars, 0), 0);
    assert_eq!(char_index(&chars, 1), 1);
    assert_eq!(char_index(&chars, 3), 2);
    assert_eq!(char_index(&chars, 6), 3);
    assert_eq!(char_index(&chars, 7), 4);
}

#[test]
fn render_marks_each_character() {
    let ops = render_line("abc", &vec![Region::new(1, 2)]);
    assert_eq!(
        ops,
        vec![
            TermOp::Reset,
            TermOp::Put('a'),
            TermOp::Highlight,
            TermOp::Put('b'),
            TermOp::Reset,
            TermOp::Put('c'),
            TermOp::NewLine,
            TermOp::Reset,
        ]
    );
}

#[test]
fn render_empty_line() {
    assert_eq!(render_line("", &vec![]), vec![TermOp::NewLine, TermOp::Reset]);
}

#[test]
fn render_multibyte_line() {
    let line = "ébé";
    let rs = regions("b", line);
    assert_eq!(
        render_line(line, &rs),
        vec![
            TermOp::Reset,
            TermOp::Put('é'),
            TermOp::Highlight,
            TermOp::Put('b'),
            TermOp::Reset,
            TermOp::Put('é'),
            TermOp::NewLine,
            TermOp::Reset,
        ]
    );
}

#[test]
fn rendering_twice_is_identical() {
    let line = "xaay";
    let rs = regions("a+", line);
    let first = render_line(line, &rs);
    let second = render_line(line, &rs);
    assert_eq!(first, second);
    assert_eq!(first.last(), Some(&TermOp::Reset));
}

#[test]
fn banner_layout() {
    let mut expected = vec![TermOp::Put(' '), TermOp::Put(' '), TermOp::Put('['), TermOp::Label];
    expected.extend(vec![TermOp::Put('a'), TermOp::Put('.'), TermOp::Put('t')]);
    expected.extend(vec![TermOp::Reset, TermOp::Put(']'), TermOp::NewLine, TermOp::NewLine]);
    assert_eq!(banner_ops("a.t"), expected);
}

#[test]
fn file_error_report() {
    let mut expected = text_ops_of("File error: ");
    expected.extend(vec![TermOp::Put('f'), TermOp::Put(':'), TermOp::Put(' ')]);
    expected.extend(vec![TermOp::Put('n'), TermOp::Put('o')]);
    expected.extend(vec![TermOp::Put('.'), TermOp::NewLine, TermOp::NewLine]);
    assert_eq!(file_error_ops("f", "no"), expected);
    assert_eq!(file_error_ops("f", "no"), text_ops_of("File error: f: no.\n\n").into_iter()
        .map(|op| if op == TermOp::Put('\n') { TermOp::NewLine } else { op })
        .collect::<Vec<_>>());
    assert_eq!(text_ops_of("ab"), vec![TermOp::Put('a'), TermOp::Put('b')]);
}

#[test]
fn split_keeps_trailing_empty_line() {
    assert_eq!(split_lines("a\nb\n"), vec!["a".to_string(), "b".to_string(), String::new()]);
    assert_eq!(split_lines(""), vec![String::new()]);
    assert_eq!(split_lines("\n\n"), vec![String::new(), String::new(), String::new()]);
    assert_eq!(split_lines("héllo"), vec!["héllo".to_string()]);
}

#[test]
fn no_arguments_asks_for_help() {
    assert!(matches!(parse_args(&vec![]), Invocation::Help));
}

#[test]
fn pattern_alone_reads_stdin() {
    match parse_args(&vec!["a+".to_string()]) {
        Invocation::Stdin { pattern } => assert_eq!(pattern, "a+"),
        _ => panic!("expected standard input"),
    }
}

#[test]
fn pattern_and_files_keep_order() {
    let args = vec!["x".to_string(), "b.txt".to_string(), "a.txt".to_string()];
    match parse_args(&args) {
        Invocation::Files { pattern, files } => {
            assert_eq!(pattern, "x");
            assert_eq!(files, vec!["b.txt".to_string(), "a.txt".to_string()]);
        }
        _ => panic!("expected files"),
    }
}

#[test]
fn highlight_line_matches_then_renders() {
    let m = Matcher::new("b+").unwrap();
    assert_eq!(
        highlight_line(&m, "abb"),
        vec![
            TermOp::Reset,
            TermOp::Put('a'),
            TermOp::Highlight,
            TermOp::Put('b'),
            TermOp::Highlight,
            TermOp::Put('b'),
            TermOp::NewLine,
            TermOp::Reset,
        ]
    );
}

#[test]
fn highlight_text_draws_each_line() {
    let m = Matcher::new("b").unwrap();
    let mut expected = highlight_line(&m, "ab");
    expected.extend(highlight_line(&m, "c"));
    assert_eq!(highlight_text(&m, "ab\nc"), expected);
    assert_eq!(highlight_text(&m, ""), vec![TermOp::NewLine, TermOp::Reset]);
}

#[test]
fn loaded_file_section() {
    let m = Matcher::new("x").unwrap();
    let mut expected = banner_ops("f");
    expected.extend(highlight_text(&m, "x\ny"));
    expected.push(TermOp::NewLine);
    assert_eq!(file_section_ops(&m, "f", &Ok("x\ny".to_string())), expected);
}

#[test]
fn failed_file_section() {
    let m = Matcher::new("x").unwrap();
    let mut expected = banner_ops("gone.txt");
    expected.extend(file_error_ops("gone.txt", "not found"));
    assert_eq!(file_section_ops(&m, "gone.txt", &Err("not found".to_string())), expected);
}

#[test]
fn missing_middle_file_is_isolated() {
    let m = Matcher::new("a").unwrap();
    let sections = vec![
        ("exists.txt".to_string(), Ok("abc".to_string())),
        ("missing.txt".to_string(), Err("No such file or directory (os error 2)".to_string())),
        ("exists2.txt".to_string(), Ok("bab\n".to_string())),
    ];
    let mut expected = vec![TermOp::NewLine];
    expected.extend(file_section_ops(&m, "exists.txt", &sections[0].1));
    expected.extend(banner_ops("missing.txt"));
    expected.extend(file_error_ops("missing.txt", "No such file or directory (os error 2)"));
    expected.extend(file_section_ops(&m, "exists2.txt", &sections[2].1));
    let ops = files_ops(&m, &sections);
    assert_eq!(ops, expected);
    let reports = ops.windows(6).filter(|w| w == &text_ops_of("File e").as_slice()).count();
    assert_eq!(reports, 1);
    assert!(ops.contains(&TermOp::Highlight));
    let report = text_ops_of("File error: missing.txt: No such file");
    let at = ops.windows(report.len()).position(|w| w == report.as_slice());
    assert!(at.is_some());
}
