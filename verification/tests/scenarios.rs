use std::cell::RefCell;
use std::rc::Rc;

use ic_log::filter::compile_filters;
use ic_log::{
    Builder, Formatter, Level, LevelFilter, Logger, Outcome, ParseErrorKind, Record, Render,
    RenderFault, Sink, SinkFault, Tally,
};

#[derive(Clone)]
struct Capture {
    lines: Rc<RefCell<Vec<String>>>,
}

impl Capture {
    fn new() -> Capture {
        Capture { lines: Rc::new(RefCell::new(Vec::new())) }
    }

    fn taken(&self) -> Vec<String> {
        self.lines.borrow().clone()
    }
}

impl Sink for Capture {
    fn write(&self, bytes: &[u8]) -> Result<usize, SinkFault> {
        self.lines.borrow_mut().push(String::from_utf8_lossy(bytes).into_owned());
        Ok(bytes.len())
    }

    fn flush(&self) -> Result<(), SinkFault> {
        Ok(())
    }
}

struct MessageOnly;

impl Render<()> for MessageOnly {
    fn render(&self, formatter: &mut Formatter, record: &Record, _: &()) -> Result<(), RenderFault> {
        formatter.write(record.message().as_bytes());
        Ok(())
    }
}

fn emit(
    logger: &Logger,
    slot: &mut Option<Formatter>,
    sink: &Capture,
    level: Level,
    message: &str,
) -> Outcome {
    let record = Record::new("scenario", level, message);
    logger.log(slot, &record, &(), &MessageOnly, &mut Tally::new(sink)).outcome
}

#[test]
fn global_level_with_module_override() {
    let (filter, errors) = compile_filters("warn,my::mod=debug");
    assert!(errors.is_empty());
    assert!(filter.enabled("my::mod", Level::Debug));
    assert!(!filter.enabled("my::mod", Level::Trace));
    assert!(!filter.enabled("other::mod", Level::Info));
    assert!(filter.enabled("other::mod", Level::Warn));
}

#[test]
fn malformed_entry_is_reported_and_skipped() {
    let (filter, errors) = compile_filters("info,bogus=notalevel,my::mod=warn");
    assert_eq!(errors.len(), 1);
    assert_eq!(errors[0].kind, ParseErrorKind::UnknownLevel);
    assert_eq!(errors[0].text, b"notalevel".to_vec());
    assert!(filter.enabled("anything", Level::Info));
    assert!(!filter.enabled("anything", Level::Debug));
    assert!(filter.enabled("my::mod", Level::Warn));
    assert!(!filter.enabled("my::mod", Level::Info));
    assert!(!filter.enabled("bogus", Level::Debug));
}

#[test]
fn reconfigured_from_error_to_info() {
    let (logger, config) = Builder::new().parse_filters("error").build();
    let sink = Capture::new();
    let mut slot = None;

    assert_eq!(emit(&logger, &mut slot, &sink, Level::Debug, "debug before"), Outcome::Dropped);
    assert_eq!(emit(&logger, &mut slot, &sink, Level::Info, "info before"), Outcome::Dropped);
    assert!(sink.taken().is_empty());

    let update = config.update_filters("info");
    assert!(update.errors.is_empty());
    assert_eq!(update.max_level, LevelFilter::Info);

    assert_eq!(emit(&logger, &mut slot, &sink, Level::Debug, "debug after"), Outcome::Dropped);
    assert_eq!(emit(&logger, &mut slot, &sink, Level::Info, "info after"), Outcome::Delivered);
    assert_eq!(sink.taken(), vec!["info after".to_string()]);
}

#[test]
fn update_filter_at_runtime() {
    let (logger, config) = Builder::default().filter_level(LevelFilter::Debug).build();
    let sink = Capture::new();
    let mut slot = None;

    emit(&logger, &mut slot, &sink, Level::Debug, "This one should be printed");
    emit(&logger, &mut slot, &sink, Level::Info, "This one should be printed");

    config.update_filters("error");

    emit(&logger, &mut slot, &sink, Level::Debug, "This one should NOT be printed");
    emit(&logger, &mut slot, &sink, Level::Info, "This one should NOT be printed");

    config.update_filters("info");

    emit(&logger, &mut slot, &sink, Level::Debug, "This one should NOT be printed");
    emit(&logger, &mut slot, &sink, Level::Info, "This one should be printed");

    assert_eq!(
        sink.taken(),
        vec![
            "This one should be printed".to_string(),
            "This one should be printed".to_string(),
            "This one should be printed".to_string(),
        ]
    );
}

#[test]
fn update_filters_sets_the_facade_max_level() {
    let (logger, config) = Builder::new().filter_level(LevelFilter::Trace).build();
    let update = config.update_filters("warn,noisy=off");
    assert_eq!(update.max_level, LevelFilter::Warn);
    assert_eq!(log::max_level(), log::LevelFilter::Warn);
    assert_eq!(logger.filter(), LevelFilter::Warn);
    let update = config.update_filters("warn,chatty=debug");
    assert_eq!(update.max_level, LevelFilter::Debug);
    assert_eq!(log::max_level(), log::LevelFilter::Debug);
    assert_eq!(logger.filter(), LevelFilter::Debug);
}
