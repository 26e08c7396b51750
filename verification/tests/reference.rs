use ic_log::filter::compile_filters;
use ic_log::Level;

const LEVELS: [(Level, log::Level); 5] = [
    (Level::Error, log::Level::Error),
    (Level::Warn, log::Level::Warn),
    (Level::Info, log::Level::Info),
    (Level::Debug, log::Level::Debug),
    (Level::Trace, log::Level::Trace),
];

const TARGETS: [&str; 12] = [
    "",
    "crate1",
    "crate1::mod1",
    "crate1::mod1::inner",
    "crate1::mod2",
    "crate2",
    "crate2::mod",
    "crate3",
    "network::io",
    "my::mod",
    "my::module",
    "\u{00e9}t\u{00e9}::mod",
];

/// Holds the filter against `env_logger`'s for strings that both read alike.
fn same_as_env_logger(spec: &str) {
    let (ours, _) = compile_filters(spec);
    let theirs = env_logger::filter::Builder::new().parse(spec).build();
    assert_eq!(ours.filter().rank() as usize, theirs.filter() as usize, "{:?}", spec);
    for target in TARGETS {
        for (level, their_level) in LEVELS {
            let metadata = log::Metadata::builder().level(their_level).target(target).build();
            assert_eq!(
                ours.enabled(target, level),
                theirs.enabled(&metadata),
                "{:?} {:?} {:?}",
                spec,
                target,
                level
            );
        }
    }
}

#[test]
fn agrees_with_env_logger_on_plain_lists() {
    same_as_env_logger("warn,my::mod=debug");
    same_as_env_logger("info,crate1::mod1=warn");
    same_as_env_logger("crate1::mod1=error,crate1::mod2,crate2=debug");
    same_as_env_logger("crate2=info,crate2::mod=debug,crate1::mod1=warn");
    same_as_env_logger("off");
    same_as_env_logger("OFF,crate1=TRACE");
    same_as_env_logger("trace,crate1=off,crate1::mod1=info");
    same_as_env_logger("net=info");
    same_as_env_logger("my::mod=warn,my::mod=trace,error,debug");
    same_as_env_logger("\u{00e9}t\u{00e9}=warn,error");
}

#[test]
fn agrees_with_env_logger_on_untidy_lists() {
    same_as_env_logger("  warn , my::mod = debug ");
    same_as_env_logger(",,crate1,,");
    same_as_env_logger("crate1=,crate2=  ,warn");
    same_as_env_logger("\u{00a0}crate1=info\u{2003},\u{3000}warn\u{0085}");
    same_as_env_logger("\u{2028}crate1\u{205f},crate2=\u{1680}debug\u{202f}");
    same_as_env_logger("info,bogus=notalevel,my::mod=warn");
    same_as_env_logger("crate1::mod1=warn=info,crate2=debug");
    same_as_env_logger("crate1::mod1=noNumber,crate2=debug");
    same_as_env_logger("warning,crate1=inf");
}
