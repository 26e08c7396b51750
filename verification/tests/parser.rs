use ic_log::directive::{
    parse_entry_range, parse_spec_bytes, parse_spec_bytes_with, parse_spec_str, Entry,
};
use ic_log::text::{contains, find_byte, range_eq_ignore_ascii_case, starts_with, trim_range};
use ic_log::{LevelFilter, ParseErrorKind};

fn rules(spec: &str) -> Vec<(Option<String>, LevelFilter)> {
    parse_spec_str(spec)
        .directives
        .iter()
        .map(|d| (d.name.as_ref().map(|n| String::from_utf8(n.clone()).unwrap()), d.level))
        .collect()
}

fn faults(spec: &str) -> Vec<(ParseErrorKind, String)> {
    parse_spec_str(spec)
        .errors
        .iter()
        .map(|e| (e.kind, String::from_utf8(e.text.clone()).unwrap()))
        .collect()
}

fn module(name: &str, level: LevelFilter) -> (Option<String>, LevelFilter) {
    (Some(name.to_string()), level)
}

#[test]
fn an_empty_string_holds_nothing() {
    let parsed = parse_spec_str("");
    assert!(parsed.directives.is_empty());
    assert!(parsed.errors.is_empty());
    assert!(parsed.pattern.is_none());
    assert!(rules(" , ,,\t").is_empty());
    assert!(faults(" , ,,\t").is_empty());
}

#[test]
fn entries_come_out_in_the_order_written() {
    assert_eq!(
        rules("crate1::mod1=error,crate1::mod2,crate2=debug"),
        vec![
            module("crate1::mod1", LevelFilter::Error),
            module("crate1::mod2", LevelFilter::Trace),
            module("crate2", LevelFilter::Debug),
        ]
    );
    assert!(faults("crate1::mod1=error,crate1::mod2,crate2=debug").is_empty());
}

#[test]
fn a_bare_level_is_the_global_directive() {
    assert_eq!(rules("warn"), vec![(None, LevelFilter::Warn)]);
    assert_eq!(rules("OFF"), vec![(None, LevelFilter::Off)]);
    assert_eq!(rules("3"), vec![(None, LevelFilter::Info)]);
    assert_eq!(
        rules("warn,crate2=debug"),
        vec![(None, LevelFilter::Warn), module("crate2", LevelFilter::Debug)]
    );
}

#[test]
fn a_bare_path_is_open_up_to_trace() {
    assert_eq!(rules("crate1::mod1"), vec![module("crate1::mod1", LevelFilter::Trace)]);
    assert_eq!(rules("crate1="), vec![module("crate1", LevelFilter::Trace)]);
    assert_eq!(rules("crate1=  "), vec![module("crate1", LevelFilter::Trace)]);
    assert_eq!(rules("warning"), vec![module("warning", LevelFilter::Trace)]);
}

#[test]
fn whitespace_around_entries_and_levels_is_trimmed() {
    assert_eq!(
        rules("  crate1=info ,\tcrate2 = debug\n"),
        vec![module("crate1", LevelFilter::Info), module("crate2 ", LevelFilter::Debug)]
    );
    assert_eq!(
        rules("\u{00a0}crate1=info\u{2003},\u{3000}warn\u{0085}"),
        vec![module("crate1", LevelFilter::Info), (None, LevelFilter::Warn)]
    );
    assert_eq!(rules("a\u{00a0}b"), vec![module("a\u{00a0}b", LevelFilter::Trace)]);
}

#[test]
fn numeric_levels_are_accepted_after_a_path() {
    assert_eq!(rules("crate1=0"), vec![module("crate1", LevelFilter::Off)]);
    assert_eq!(rules("crate1=5"), vec![module("crate1", LevelFilter::Trace)]);
    assert_eq!(faults("crate1=6"), vec![(ParseErrorKind::UnknownLevel, "6".to_string())]);
}

#[test]
fn an_unknown_level_is_a_fault() {
    assert_eq!(
        rules("crate1::mod1=noNumber,crate2=debug"),
        vec![module("crate2", LevelFilter::Debug)]
    );
    assert_eq!(
        faults("crate1::mod1=noNumber,crate2=debug"),
        vec![(ParseErrorKind::UnknownLevel, "noNumber".to_string())]
    );
}

#[test]
fn a_second_equals_sign_is_a_fault() {
    assert_eq!(
        rules("crate1::mod1=warn=info,crate2=debug"),
        vec![module("crate2", LevelFilter::Debug)]
    );
    assert_eq!(
        faults("crate1::mod1=warn=info,crate2=debug"),
        vec![(ParseErrorKind::MalformedEntry, "crate1::mod1=warn=info".to_string())]
    );
}

#[test]
fn an_empty_segment_is_a_fault() {
    assert_eq!(faults("=info"), vec![(ParseErrorKind::EmptySegment, "=info".to_string())]);
    assert_eq!(faults("a::::b=info"), vec![(ParseErrorKind::EmptySegment, "a::::b=info".to_string())]);
    assert_eq!(faults("::a"), vec![(ParseErrorKind::EmptySegment, "::a".to_string())]);
    assert_eq!(faults("a::"), vec![(ParseErrorKind::EmptySegment, "a::".to_string())]);
    assert_eq!(faults("="), vec![(ParseErrorKind::EmptySegment, "=".to_string())]);
    assert!(rules("=info,a::::b=info,::a,a::,=").is_empty());
    assert_eq!(rules("a:b=info"), vec![module("a:b", LevelFilter::Info)]);
    assert_eq!(rules("a:::b"), vec![module("a:::b", LevelFilter::Trace)]);
    assert_eq!(
        faults("a::=bogus"),
        vec![(ParseErrorKind::UnknownLevel, "bogus".to_string())]
    );
}

#[test]
fn faults_do_not_stop_the_entries_after_them() {
    assert_eq!(
        rules("info,bogus=notalevel,my::mod=warn"),
        vec![(None, LevelFilter::Info), module("my::mod", LevelFilter::Warn)]
    );
    assert_eq!(
        faults("a=x,b=warn,c=d=e,::,e"),
        vec![
            (ParseErrorKind::UnknownLevel, "x".to_string()),
            (ParseErrorKind::MalformedEntry, "c=d=e".to_string()),
            (ParseErrorKind::EmptySegment, "::".to_string()),
        ]
    );
    assert_eq!(
        rules("a=x,b=warn,c=d=e,::,e"),
        vec![module("b", LevelFilter::Warn), module("e", LevelFilter::Trace)]
    );
}

#[test]
fn what_follows_the_slash_is_the_pattern() {
    let parsed = parse_spec_str("crate1::mod1=error,crate2=debug/abc");
    assert_eq!(parsed.pattern, Some(b"abc".to_vec()));
    assert_eq!(parsed.directives.len(), 2);
    assert!(parsed.errors.is_empty());

    let parsed = parse_spec_str("crate1/a.c");
    assert_eq!(parsed.pattern, Some(b"a.c".to_vec()));
    assert_eq!(rules("crate1/a.c"), vec![module("crate1", LevelFilter::Trace)]);

    let parsed = parse_spec_str("/ a b ");
    assert_eq!(parsed.pattern, Some(b" a b ".to_vec()));
    assert!(parsed.directives.is_empty());

    let parsed = parse_spec_str("info/");
    assert_eq!(parsed.pattern, Some(Vec::new()));
    assert_eq!(rules("info/"), vec![(None, LevelFilter::Info)]);
}

#[test]
fn a_second_slash_voids_the_string() {
    let parsed = parse_spec_str("crate1=info/a/b");
    assert!(parsed.directives.is_empty());
    assert!(parsed.pattern.is_none());
    assert_eq!(
        faults("crate1=info/a/b"),
        vec![(ParseErrorKind::TooManySlashes, "crate1=info/a/b".to_string())]
    );
}

#[test]
fn bytes_that_are_no_text_are_read_all_the_same() {
    let parsed = parse_spec_bytes(&[0xff, 0xfe, b'=', b'1', b',', 0x80]);
    assert_eq!(parsed.directives.len(), 2);
    assert_eq!(parsed.directives[0].name, Some(vec![0xff, 0xfe]));
    assert_eq!(parsed.directives[0].level, LevelFilter::Error);
    assert_eq!(parsed.directives[1].name, Some(vec![0x80]));
    assert_eq!(parsed.directives[1].level, LevelFilter::Trace);
}

#[test]
fn one_entry_at_a_time() {
    let text = b"  a=info  ,   ,x=y";
    match parse_entry_range(text, 0, 10, LevelFilter::Trace) {
        Entry::Rule(d) => {
            assert_eq!(d.name, Some(b"a".to_vec()));
            assert_eq!(d.level, LevelFilter::Info);
        }
        other => panic!("{:?}", other),
    }
    assert!(matches!(parse_entry_range(text, 11, 14, LevelFilter::Trace), Entry::Blank));
    match parse_entry_range(text, 15, 18, LevelFilter::Trace) {
        Entry::Fault(e) => {
            assert_eq!(e.kind, ParseErrorKind::UnknownLevel);
            assert_eq!(e.text, b"y".to_vec());
        }
        other => panic!("{:?}", other),
    }
}

#[test]
fn searching_and_trimming() {
    let text = b"ab,cd,";
    assert_eq!(find_byte(text, 0, 6, b','), 2);
    assert_eq!(find_byte(text, 3, 6, b','), 5);
    assert_eq!(find_byte(text, 3, 5, b','), 5);
    assert_eq!(find_byte(text, 0, 6, b'x'), 6);
    assert_eq!(find_byte(text, 4, 4, b','), 4);

    let text = " \t x y \r\n".as_bytes();
    assert_eq!(trim_range(text, 0, text.len()), (3, 6));
    assert_eq!(trim_range(text, 0, 2), (2, 2));
    let text = "\u{2028}\u{205f}x\u{1680}\u{202f}".as_bytes();
    assert_eq!(trim_range(text, 0, text.len()), (6, 7));
    let text = "\u{200b}x".as_bytes();
    assert_eq!(trim_range(text, 0, text.len()), (0, text.len()));
}

#[test]
fn comparing_prefixes_and_substrings() {
    assert!(range_eq_ignore_ascii_case(b"xxWaRnyy", 2, 6, b"warn"));
    assert!(!range_eq_ignore_ascii_case(b"xxWaRnyy", 2, 7, b"warn"));
    assert!(!range_eq_ignore_ascii_case(b"[", 0, 1, b"{"));
    assert!(!range_eq_ignore_ascii_case(b"@", 0, 1, b"`"));

    assert!(starts_with(b"network::io", b"net"));
    assert!(starts_with(b"net", b"net"));
    assert!(starts_with(b"net", b""));
    assert!(!starts_with(b"ne", b"net"));
    assert!(!starts_with(b"nat", b"net"));

    assert!(contains(b"hello world", b"lo w"));
    assert!(contains(b"hello world", b""));
    assert!(contains(b"", b""));
    assert!(contains(b"hello world", b"hello world"));
    assert!(contains(b"hello world", b"world"));
    assert!(!contains(b"hello world", b"worlds"));
    assert!(!contains(b"aab", b"abb"));
    assert!(!contains(b"", b"a"));
}

#[test]
fn the_implicit_level_can_be_chosen() {
    let parsed = parse_spec_bytes_with(b"a,b=,c=warn,error", LevelFilter::Info);
    let got: Vec<(Option<Vec<u8>>, LevelFilter)> =
        parsed.directives.iter().map(|d| (d.name.clone(), d.level)).collect();
    assert_eq!(
        got,
        vec![
            (Some(b"a".to_vec()), LevelFilter::Info),
            (Some(b"b".to_vec()), LevelFilter::Info),
            (Some(b"c".to_vec()), LevelFilter::Warn),
            (None, LevelFilter::Error),
        ]
    );
    match parse_entry_range(b"mod", 0, 3, LevelFilter::Off) {
        Entry::Rule(d) => assert_eq!(d.level, LevelFilter::Off),
        other => panic!("{:?}", other),
    }
}
