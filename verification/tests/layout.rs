use ic_log::fmt::{write_default, Format};
use ic_log::writer::Builder as WriterBuilder;
use ic_log::{DefaultRender, Formatter, Level, Record, Render};

const DEFAULTS: Format =
    Format { level: true, module: false, target: true, indent: Some(4), suffix: "\n" };

fn written(format: Format, level: Level, module: Option<&str>, target: &str, message: &str) -> String {
    let writer = WriterBuilder::new().build();
    let mut formatter = Formatter::new(&writer);
    write_default(&format, &mut formatter, level, module, target, message);
    String::from_utf8(formatter.bytes().to_vec()).unwrap()
}

#[test]
fn the_default_layout_has_level_and_target_in_brackets() {
    assert_eq!(written(DEFAULTS, Level::Info, None, "my::mod", "hello"), "[INFO  my::mod] hello\n");
    assert_eq!(written(DEFAULTS, Level::Error, None, "t", "x"), "[ERROR t] x\n");
    assert_eq!(written(DEFAULTS, Level::Warn, None, "t", "x"), "[WARN  t] x\n");
    assert_eq!(written(DEFAULTS, Level::Debug, None, "t", "x"), "[DEBUG t] x\n");
    assert_eq!(written(DEFAULTS, Level::Trace, Some("not::shown"), "t", "x"), "[TRACE t] x\n");
}

#[test]
fn parts_that_are_switched_off_or_empty_are_left_out() {
    let all = Format { module: true, ..DEFAULTS };
    assert_eq!(written(all, Level::Info, Some("a::b"), "t", "m"), "[INFO  a::b t] m\n");
    assert_eq!(written(all, Level::Info, None, "t", "m"), "[INFO  t] m\n");
    assert_eq!(written(all, Level::Info, Some("a::b"), "", "m"), "[INFO  a::b] m\n");
    assert_eq!(written(all, Level::Info, Some(""), "t", "m"), "[INFO   t] m\n");

    let no_level = Format { level: false, module: true, ..DEFAULTS };
    assert_eq!(written(no_level, Level::Info, Some("a::b"), "t", "m"), "[a::b t] m\n");
    assert_eq!(written(no_level, Level::Info, None, "t", "m"), "[t] m\n");

    let only_level = Format { target: false, ..DEFAULTS };
    assert_eq!(written(only_level, Level::Warn, Some("a"), "t", "m"), "[WARN ] m\n");

    let bare = Format { level: false, module: false, target: false, ..DEFAULTS };
    assert_eq!(written(bare, Level::Info, Some("a::b"), "t", "m"), "m\n");
    assert_eq!(written(DEFAULTS, Level::Info, None, "", ""), "[INFO ] \n");
    assert_eq!(written(bare, Level::Info, None, "", ""), "\n");
}

#[test]
fn following_lines_are_indented() {
    assert_eq!(
        written(DEFAULTS, Level::Info, None, "t", "one\ntwo\nthree"),
        "[INFO  t] one\n    two\n    three\n"
    );
    assert_eq!(written(DEFAULTS, Level::Info, None, "t", "\n"), "[INFO  t] \n    \n");
    assert_eq!(written(DEFAULTS, Level::Info, None, "t", "a\n\nb\n"), "[INFO  t] a\n    \n    b\n    \n");

    let wide = Format { indent: Some(0), suffix: "\r\n", ..DEFAULTS };
    assert_eq!(written(wide, Level::Info, None, "t", "one\ntwo"), "[INFO  t] one\r\ntwo\r\n");

    let two = Format { indent: Some(2), suffix: "", ..DEFAULTS };
    assert_eq!(written(two, Level::Info, None, "t", "one\ntwo"), "[INFO  t] one  two");

    let none = Format { indent: None, ..DEFAULTS };
    assert_eq!(written(none, Level::Info, None, "t", "one\ntwo"), "[INFO  t] one\ntwo\n");
}

#[test]
fn the_layout_goes_after_what_is_there() {
    let writer = WriterBuilder::new().build();
    let mut formatter = Formatter::new(&writer);
    formatter.write(b"before|");
    write_default(&DEFAULTS, &mut formatter, Level::Info, None, "t", "m");
    write_default(&DEFAULTS, &mut formatter, Level::Warn, None, "u", "n");
    assert_eq!(formatter.bytes(), b"before|[INFO  t] m\n[WARN  u] n\n");
}

#[test]
fn the_default_renderer_writes_the_default_layout() {
    let writer = WriterBuilder::new().build();
    let mut formatter = Formatter::new(&writer);
    let render = DefaultRender::new(Format { module: true, ..DEFAULTS });
    let record = Record::new("t", Level::Debug, "l1\nl2").in_module(Some("m::n"));
    assert_eq!(record.module(), Some("m::n"));
    assert_eq!(Record::new("t", Level::Debug, "x").module(), None);
    render.write(&mut formatter, &record);
    assert_eq!(formatter.bytes(), b"[DEBUG m::n t] l1\n    l2\n");
    formatter.clear();
    assert_eq!(Render::<u8>::render(&render, &mut formatter, &record, &0), Ok(()));
    assert_eq!(formatter.bytes(), b"[DEBUG m::n t] l1\n    l2\n");
}
