use ic_log::filter::{compile_filters, Builder};
use ic_log::{Directive, Level, LevelFilter};

const LEVELS: [Level; 5] = [Level::Error, Level::Warn, Level::Info, Level::Debug, Level::Trace];

const TARGETS: [&str; 14] = [
    "",
    "a",
    "ab",
    "abc",
    "abc::d",
    "crate1",
    "crate1::mod1",
    "crate1::mod1::inner",
    "crate2",
    "crate2::mod",
    "crate3",
    "net",
    "network::io",
    "my::mod",
];

fn rank(level: LevelFilter) -> u8 {
    level.rank()
}

/// The walk over the declared directives, written out in the plainest way.
fn scan(declared: &[Directive], target: &str, level: Level) -> bool {
    let mut chosen: Option<&Directive> = None;
    for d in declared {
        let length = d.name.as_ref().map(|n| n.len()).unwrap_or(0);
        let applies = match &d.name {
            Some(n) => target.as_bytes().starts_with(n),
            None => true,
        };
        if applies {
            let best = chosen.map(|c| c.name.as_ref().map(|n| n.len()).unwrap_or(0));
            if best.map(|b| b <= length).unwrap_or(true) {
                chosen = Some(d);
            }
        }
    }
    match chosen {
        Some(d) => level.rank() <= rank(d.level),
        None => false,
    }
}

fn declared(rules: &[(Option<&str>, LevelFilter)]) -> Vec<Directive> {
    rules.iter().map(|(name, level)| Directive::new(*name, *level)).collect()
}

fn check_against_scan(rules: &[(Option<&str>, LevelFilter)]) {
    let list = declared(rules);
    let mut builder = Builder::new();
    for (name, level) in rules {
        builder.filter(*name, *level);
    }
    let filter = builder.build();
    // The walk goes over what the builder holds: a later directive with the
    // name of an earlier one has taken its place.
    let mut held: Vec<Directive> = Vec::new();
    for d in list {
        match held.iter().position(|h| h.name == d.name) {
            Some(p) => held[p] = d,
            None => held.push(d),
        }
    }
    for target in TARGETS {
        for level in LEVELS {
            assert_eq!(
                filter.enabled(target, level),
                scan(&held, target, level),
                "{:?} {:?} {:?}",
                rules,
                target,
                level
            );
        }
    }
}

#[test]
fn the_compiled_filter_agrees_with_the_walk() {
    check_against_scan(&[]);
    check_against_scan(&[(None, LevelFilter::Info)]);
    check_against_scan(&[(Some("crate2"), LevelFilter::Info), (Some("crate1::mod1"), LevelFilter::Warn)]);
    check_against_scan(&[
        (Some("crate2"), LevelFilter::Info),
        (Some("crate2::mod"), LevelFilter::Debug),
        (Some("crate1::mod1"), LevelFilter::Warn),
    ]);
    check_against_scan(&[
        (Some("crate1::mod1::inner"), LevelFilter::Trace),
        (Some("crate1::mod1"), LevelFilter::Off),
        (Some("crate1"), LevelFilter::Error),
        (None, LevelFilter::Warn),
    ]);
    check_against_scan(&[
        (None, LevelFilter::Debug),
        (Some(""), LevelFilter::Error),
        (Some("a"), LevelFilter::Off),
        (Some("ab"), LevelFilter::Trace),
        (Some("abc"), LevelFilter::Warn),
    ]);
    check_against_scan(&[
        (Some(""), LevelFilter::Error),
        (None, LevelFilter::Debug),
        (Some("net"), LevelFilter::Info),
        (Some("my"), LevelFilter::Trace),
        (Some("my::mod"), LevelFilter::Error),
        (Some("net"), LevelFilter::Off),
    ]);
}

#[test]
fn the_longest_prefix_decides() {
    let mut builder = Builder::new();
    builder.filter(Some("crate2"), LevelFilter::Info);
    builder.filter(Some("crate2::mod"), LevelFilter::Debug);
    builder.filter(Some("crate1::mod1"), LevelFilter::Warn);
    let filter = builder.build();
    assert!(filter.enabled("crate2::mod1", Level::Debug));
    assert!(!filter.enabled("crate2", Level::Debug));
    assert!(filter.enabled("crate2", Level::Info));
    assert!(!filter.enabled("crate3", Level::Error));
}

#[test]
fn of_equally_long_prefixes_the_last_declared_decides() {
    let mut builder = Builder::new();
    builder.filter(None, LevelFilter::Error);
    builder.filter(Some(""), LevelFilter::Debug);
    let filter = builder.build();
    assert!(filter.enabled("x", Level::Debug));

    let mut builder = Builder::new();
    builder.filter(Some(""), LevelFilter::Debug);
    builder.filter(None, LevelFilter::Error);
    let filter = builder.build();
    assert!(!filter.enabled("x", Level::Debug));
    assert!(filter.enabled("x", Level::Error));
}

#[test]
fn prefixes_are_textual_not_aligned_to_segments() {
    let (filter, _) = compile_filters("net=info");
    assert!(filter.enabled("network::io", Level::Info));
    assert!(filter.enabled("net", Level::Info));
    assert!(filter.enabled("net::tcp", Level::Info));
    assert!(!filter.enabled("ne", Level::Error));
    assert!(!filter.enabled("xnet", Level::Error));
}

#[test]
fn off_lets_nothing_through() {
    let (filter, _) = compile_filters("trace,crate1=off");
    for level in LEVELS {
        assert!(!filter.enabled("crate1", level));
        assert!(!filter.enabled("crate1::mod1", level));
        assert!(filter.enabled("crate2", level));
    }
    let (filter, _) = compile_filters("off");
    for level in LEVELS {
        assert!(!filter.enabled("", level));
        assert!(!filter.enabled("crate1", level));
    }
    assert_eq!(filter.filter(), LevelFilter::Off);
}

#[test]
fn without_directives_nothing_is_enabled() {
    let filter = Builder::new().build();
    assert_eq!(filter.filter(), LevelFilter::Off);
    let (parsed, errors) = compile_filters("");
    assert!(errors.is_empty());
    assert_eq!(parsed.filter(), LevelFilter::Off);
    for target in TARGETS {
        for level in LEVELS {
            assert!(!filter.enabled(target, level));
            assert!(!parsed.enabled(target, level));
            assert!(!parsed.matches(target, level, "anything"));
        }
    }
}

#[test]
fn a_later_directive_takes_the_place_of_one_with_the_same_name() {
    let (filter, _) = compile_filters("trace,info");
    assert_eq!(filter.filter(), LevelFilter::Info);
    assert!(!filter.enabled("x", Level::Debug));

    let mut builder = Builder::new();
    builder.filter_module("crate1", LevelFilter::Trace);
    builder.filter_level(LevelFilter::Warn);
    builder.filter_module("crate1", LevelFilter::Error);
    builder.parse("crate2=debug,warn,crate2=info,error");
    let filter = builder.build();
    assert_eq!(filter.filter(), LevelFilter::Info);
    assert!(filter.enabled("crate1", Level::Error));
    assert!(!filter.enabled("crate1", Level::Warn));
    assert!(filter.enabled("crate2", Level::Info));
    assert!(!filter.enabled("crate2", Level::Debug));
    assert!(filter.enabled("crate3", Level::Error));
    assert!(!filter.enabled("crate3", Level::Warn));
}

#[test]
fn the_maximum_level_is_the_least_restrictive_directive() {
    let mut builder = Builder::new();
    builder.filter(Some("module1"), LevelFilter::Info);
    builder.filter(Some("module2"), LevelFilter::Error);
    assert_eq!(builder.build().filter(), LevelFilter::Info);

    let (filter, _) = compile_filters("warn,a=off,b::c=debug,d=error");
    assert_eq!(filter.filter(), LevelFilter::Debug);
    for target in TARGETS {
        for level in LEVELS {
            if filter.enabled(target, level) {
                assert!(filter.filter().passes(level));
            }
        }
    }
}

#[test]
fn the_pattern_is_searched_for_in_the_message() {
    let (filter, errors) = compile_filters("crate1=info/needle");
    assert!(errors.is_empty());
    assert!(filter.matches("crate1", Level::Info, "hay needle hay"));
    assert!(filter.matches("crate1::mod1", Level::Error, "needle"));
    assert!(!filter.matches("crate1", Level::Info, "hay"));
    assert!(!filter.matches("crate1", Level::Info, "needl e"));
    assert!(!filter.matches("crate1", Level::Debug, "needle"));
    assert!(!filter.matches("crate2", Level::Error, "needle"));

    let (filter, _) = compile_filters("info/a.c");
    assert!(filter.matches("x", Level::Info, "xa.cx"));
    assert!(!filter.matches("x", Level::Info, "abc"));

    let (filter, _) = compile_filters("info/");
    assert!(filter.matches("x", Level::Info, ""));
    assert!(filter.matches("x", Level::Info, "anything"));

    let (filter, _) = compile_filters("info");
    assert!(filter.matches("x", Level::Info, ""));
    assert!(!filter.matches("x", Level::Debug, ""));
}

#[test]
fn a_new_directive_string_replaces_the_pattern() {
    let mut builder = Builder::new();
    builder.parse("info/first");
    builder.parse("crate1=debug");
    let filter = builder.build();
    assert!(filter.matches("x", Level::Info, "no pattern left"));
    assert!(filter.matches("crate1", Level::Debug, "no pattern left"));

    let mut builder = Builder::new();
    builder.parse("info/first");
    builder.parse("/second");
    let filter = builder.build();
    assert!(!filter.matches("x", Level::Info, "first"));
    assert!(filter.matches("x", Level::Info, "second"));
}

#[test]
fn the_same_string_gives_the_same_answers() {
    let specs = [
        "",
        "warn,my::mod=debug",
        "info,bogus=notalevel,my::mod=warn",
        "crate1::mod1=error,crate1::mod2,crate2=debug/abc",
        "trace,info,crate1=off,crate1=5",
    ];
    for spec in specs {
        let (first, first_errors) = compile_filters(spec);
        let (second, second_errors) = compile_filters(spec);
        assert_eq!(first_errors.len(), second_errors.len());
        assert_eq!(first.filter(), second.filter());
        for target in TARGETS {
            for level in LEVELS {
                assert_eq!(first.enabled(target, level), second.enabled(target, level));
                assert_eq!(
                    first.matches(target, level, "xabcx"),
                    second.matches(target, level, "xabcx")
                );
            }
        }
    }
}

#[test]
fn the_builder_keeps_what_could_not_be_read() {
    let mut builder = Builder::new();
    builder.parse("a=x,b=warn");
    builder.parse("c=d=e");
    let errors = builder.take_errors();
    assert_eq!(errors.len(), 2);
    assert_eq!(errors[0].text, b"x".to_vec());
    assert_eq!(errors[1].text, b"c=d=e".to_vec());
    assert!(builder.take_errors().is_empty());
    let filter = builder.compile();
    assert!(filter.enabled("b", Level::Warn));
    let again = builder.build();
    assert!(again.enabled("b", Level::Warn));
    assert!(!again.enabled("a", Level::Error));
}

#[test]
fn declaring_the_same_string_again_changes_nothing() {
    let specs = [
        "warn,my::mod=debug",
        "trace,info,crate1=off,crate1=5,warn",
        "crate1::mod1=error,crate1::mod2,crate2=debug/abc",
        "a,b,a=info,c,b=warn,a=error",
    ];
    for spec in specs {
        let mut once = Builder::new();
        once.filter_module("crate2", LevelFilter::Trace);
        once.filter_module("a", LevelFilter::Off);
        once.parse(spec);
        let mut twice = Builder::new();
        twice.filter_module("crate2", LevelFilter::Trace);
        twice.filter_module("a", LevelFilter::Off);
        twice.parse(spec);
        twice.parse(spec);
        let once = once.build();
        let twice = twice.build();
        assert_eq!(once.filter(), twice.filter());
        for target in TARGETS {
            for level in LEVELS {
                assert_eq!(once.enabled(target, level), twice.enabled(target, level));
                assert_eq!(
                    once.matches(target, level, "xabcx"),
                    twice.matches(target, level, "xabcx")
                );
            }
        }
    }
}

#[test]
fn a_more_severe_record_passes_wherever_a_less_severe_one_does() {
    let (filter, _) = compile_filters("warn,a=off,abc=trace,crate1::mod1=info,crate2=error");
    for target in TARGETS {
        let mut passed_before = true;
        for level in LEVELS {
            let passes = filter.enabled(target, level);
            assert!(passed_before || !passes);
            passed_before = passes;
        }
    }
}
