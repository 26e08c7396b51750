use std::sync::Arc;

use ic_log::filter::compile_filters;
use ic_log::registry::FilterHandle;
use ic_log::writer::WritableTarget;
use ic_log::{Builder, Level, LevelFilter, Target, WriteStyle};
use ic_log::fmt::Format;

fn install(handle: &FilterHandle, spec: &str) {
    let (filter, errors) = compile_filters(spec);
    assert!(errors.is_empty());
    handle.install(filter);
}

#[test]
fn the_handle_starts_with_the_filter_it_was_given() {
    let handle = FilterHandle::new(compile_filters("warn").0);
    let current = handle.current();
    assert_eq!(current.filter(), LevelFilter::Warn);
    assert!(current.enabled("x", Level::Warn));
    assert!(!current.enabled("x", Level::Info));
}

#[test]
fn reads_follow_installs_and_never_go_back() {
    let handle = FilterHandle::new(compile_filters("error").0);
    let specs = ["warn", "info", "debug", "trace"];
    let ranks = [2u8, 3, 4, 5];
    let mut seen = handle.current().filter().rank();
    assert_eq!(seen, 1);
    for (spec, rank) in specs.iter().zip(ranks) {
        install(&handle, spec);
        for _ in 0..3 {
            let now = handle.current().filter().rank();
            assert_eq!(now, rank);
            assert!(now >= seen);
            seen = now;
        }
    }
}

#[test]
fn install_hands_back_what_it_replaces() {
    let handle = FilterHandle::new(compile_filters("error").0);
    let previous = handle.install(compile_filters("info").0);
    assert_eq!(previous.filter(), LevelFilter::Error);
    let previous = handle.install(compile_filters("debug").0);
    assert_eq!(previous.filter(), LevelFilter::Info);
    assert_eq!(handle.current().filter(), LevelFilter::Debug);
}

#[test]
fn a_snapshot_outlives_its_replacement() {
    let handle = FilterHandle::new(compile_filters("warn,my::mod=debug").0);
    let old = handle.current();
    install(&handle, "off");
    let new = handle.current();
    assert!(old.enabled("my::mod", Level::Debug));
    assert!(old.enabled("other", Level::Warn));
    assert_eq!(old.filter(), LevelFilter::Debug);
    assert!(!new.enabled("my::mod", Level::Error));
    assert_eq!(new.filter(), LevelFilter::Off);
    assert!(!Arc::ptr_eq(&old, &new));
}

#[test]
fn shared_handles_are_one_cell() {
    let first = FilterHandle::new(compile_filters("error").0);
    let second = first.share();
    let third = second.share();
    install(&second, "info");
    assert_eq!(first.current().filter(), LevelFilter::Info);
    assert_eq!(third.current().filter(), LevelFilter::Info);
    install(&first, "trace");
    assert_eq!(second.current().filter(), LevelFilter::Trace);
    assert!(Arc::ptr_eq(&first.current(), &third.current()));

    let apart = FilterHandle::new(compile_filters("error").0);
    install(&apart, "warn");
    assert_eq!(first.current().filter(), LevelFilter::Trace);
}

#[test]
fn the_builder_hands_its_settings_to_the_logger() {
    let mut builder = Builder::new();
    assert!(!builder.is_built());
    builder
        .filter(Some("a"), LevelFilter::Info)
        .filter_module("b", LevelFilter::Debug)
        .filter_level(LevelFilter::Error)
        .parse_filters("c=warn,d=x/pat")
        .format_level(false)
        .format_module_path(true)
        .format_target(false)
        .format_indent(Some(8))
        .format_suffix("!\n")
        .target(Target::Stdout)
        .write_style(WriteStyle::Always)
        .is_test(true);
    let errors = builder.take_parse_errors();
    assert_eq!(errors.len(), 1);
    assert_eq!(errors[0].text, b"x".to_vec());
    let (logger, config) = builder.build();
    assert!(builder.is_built());

    assert_eq!(
        logger.format(),
        Format { level: false, module: true, target: false, indent: Some(8), suffix: "!\n" }
    );
    assert_eq!(logger.writer().target(), WritableTarget::Stdout);
    assert_eq!(logger.writer().write_style(), WriteStyle::Always);
    assert!(logger.writer().is_test());
    assert_eq!(logger.filter(), LevelFilter::Debug);
    let current = logger.current();
    assert!(current.matches("a", Level::Info, "a pattern"));
    assert!(!current.matches("a", Level::Info, "nothing"));
    assert!(current.enabled("b", Level::Debug));
    assert!(current.enabled("c", Level::Warn));
    assert!(!current.enabled("c", Level::Info));
    assert!(current.enabled("zzz", Level::Error));
    assert!(!current.enabled("zzz", Level::Warn));
    assert!(!current.enabled("d", Level::Warn));

    config.update_filters("zzz=trace");
    assert!(logger.current().enabled("zzz", Level::Trace));
    assert!(!logger.current().enabled("a", Level::Error));
}

#[test]
fn the_default_format_can_be_put_back() {
    let (logger, _) = Builder::new().format_level(false).format_indent(None).default_format().build();
    assert_eq!(
        logger.format(),
        Format { level: true, module: false, target: true, indent: Some(4), suffix: "\n" }
    );
    let (logger, _) = Builder::default().build();
    assert_eq!(logger.writer().target(), WritableTarget::Stderr);
    assert_eq!(logger.writer().write_style(), WriteStyle::Never);
    assert_eq!(logger.filter(), LevelFilter::Off);
}

#[test]
fn update_filters_reports_what_it_could_not_read() {
    let (logger, config) = Builder::new().build();
    let errors = config.update_filters("info,bogus=notalevel,my::mod=warn").errors;
    assert_eq!(errors.len(), 1);
    assert_eq!(errors[0].kind, ic_log::ParseErrorKind::UnknownLevel);
    let current = logger.current();
    assert!(current.enabled("x", Level::Info));
    assert!(current.enabled("my::mod", Level::Warn));
    assert!(!current.enabled("my::mod", Level::Info));

    let errors = config.update_filters("a/b/c").errors;
    assert_eq!(errors.len(), 1);
    assert_eq!(errors[0].kind, ic_log::ParseErrorKind::TooManySlashes);
    assert_eq!(logger.filter(), LevelFilter::Off);
}
