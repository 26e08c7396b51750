//! The logger: a filter that can be swapped at runtime, a writer, and the
//! per-record path from the filter check through rendering and delivery to the
//! cleared buffer.

use crate::directive::{error_views, parse_spec, DirectiveView, ParseError, ParseErrorView};
use crate::filter::{
    accepts, compile, compile_filters, declare, declare_all, enabled, filter_for, max_level,
    Filter, FilterView,
};
use crate::fmt::{default_format, layout, write_default, Format, Formatter};
use crate::level::LevelFilter;
use crate::record::{Metadata, Record};
use crate::registry::FilterHandle;
use crate::writer::{
    handed_over, resolved_style, DeliveryError, Sink, Tally, Target, WritableTarget,
    WriteStyle, Writer,
};
use std::sync::Arc;
use vstd::prelude::*;
use vstd::std_specs::convert::FromSpec;
use vstd::string::StringSliceAdditionalSpecFns;

verus! {

/// A failure that a render function reports. What went wrong stays with it.
#[derive(Clone, Copy, Debug, PartialEq, Eq, Structural)]
pub struct RenderFault;

/// The render function of a logger: writes the text of a record into the
/// formatter, which it is handed empty. `payload` is whatever the caller of
/// `log` passes along for it, such as the facade's own record.
pub trait Render<P> {
    /// Whether `text` is a text that the function may write for the record.
    /// Unless a render function says otherwise, it may write any text.
    open spec fn may_write(&self, record: Record, payload: P, text: Seq<u8>) -> bool {
        true
    }

    /// Writes the text of the record. After a success the formatter holds
    /// that text and nothing else.
    fn render(&self, formatter: &mut Formatter, record: &Record, payload: &P) -> (r: Result<
        (),
        RenderFault,
    >)
        requires
            old(formatter)@ == Seq::<u8>::empty(),
        ensures
            r is Ok ==> self.may_write(*record, *payload, final(formatter)@),
    ;
}

/// The render function that writes the default layout with given settings. It
/// never fails.
#[derive(Debug)]
pub struct DefaultRender {
    format: Format,
}

impl DefaultRender {
    /// The settings that the layout is written with.
    pub closed spec fn settings(&self) -> Format {
        self.format
    }

    pub fn new(format: Format) -> (r: Self)
        ensures
            r.settings() == format,
    {
        DefaultRender { format }
    }

    /// Writes the record in the default layout, after what the formatter
    /// holds.
    pub fn write(&self, formatter: &mut Formatter, record: &Record)
        ensures
            final(formatter)@ == old(formatter)@ + rendered(self.settings(), *record),
            final(formatter).style() == old(formatter).style(),
    {
        write_default(
            &self.format,
            formatter,
            record.level(),
            record.module(),
            record.target(),
            record.message(),
        );
    }
}

/// The text of a record in the default layout.
pub open spec fn rendered(format: Format, record: Record) -> Seq<u8> {
    layout(
        format,
        record.spec_level(),
        match record.spec_module() {
            Some(m) => Some(m.spec_bytes()),
            None => None,
        },
        record.spec_target().spec_bytes(),
        record.spec_message().spec_bytes(),
    )
}

impl<P> Render<P> for DefaultRender {
    /// The one text that the default layout has for the record.
    open spec fn may_write(&self, record: Record, payload: P, text: Seq<u8>) -> bool {
        text == rendered(self.settings(), record)
    }

    /// Writes the record in the default layout. The payload is not looked
    /// at. This never fails.
    fn render(&self, formatter: &mut Formatter, record: &Record, payload: &P) -> (r: Result<
        (),
        RenderFault,
    >)
        ensures
            r is Ok,
            final(formatter)@ == rendered(self.settings(), *record),
            final(formatter).style() == old(formatter).style(),
    {
        self.write(formatter, record);
        assert(Seq::<u8>::empty() + rendered(self.settings(), *record) =~= rendered(
            self.settings(),
            *record,
        ));
        Ok(())
    }
}

/// How the path of one record ended.
#[derive(Clone, Copy, Debug, PartialEq, Eq, Structural)]
pub enum Outcome {
    /// The filter turned the record away. Nothing was rendered.
    Dropped,
    /// The record was rendered and the sink took all of it.
    Delivered,
    /// The render function failed. Nothing was handed to the sink.
    RenderFailed,
    /// The record was rendered, but the sink did not take all of it.
    DeliveryFailed,
}

/// Whether the filter lets the record through.
pub open spec fn lets_through(filter: FilterView, record: Record) -> bool {
    accepts(
        filter.directives,
        filter.pattern,
        record.spec_target().spec_bytes(),
        record.spec_level(),
        record.spec_message().spec_bytes(),
    )
}

/// The styling that the cached formatter was made for, if one is cached.
pub open spec fn cached_style(slot: Option<Formatter>) -> Option<WriteStyle> {
    match slot {
        Some(f) => Some(f.style()),
        None => None,
    }
}

/// Makes sure that the slot holds an empty formatter for `writer`: the one it
/// holds is cleared and kept if it was made for the writer's styling;
/// otherwise a new one takes its place. Says whether a new one was made.
pub fn prepare(slot: &mut Option<Formatter>, writer: &Writer) -> (rebuilt: bool)
    ensures
        rebuilt == (cached_style(*old(slot)) != Some(writer.style())),
        cached_style(*final(slot)) == Some(writer.style()),
        final(slot).unwrap()@ == Seq::<u8>::empty(),
{
    match slot.take() {
        Some(mut formatter) => {
            if formatter.write_style() == writer.write_style() {
                formatter.clear();
                *slot = Some(formatter);
                false
            } else {
                *slot = Some(Formatter::new(writer));
                true
            }
        },
        None => {
            *slot = Some(Formatter::new(writer));
            true
        },
    }
}

/// How the path of an accepted record ends, given what the render function
/// answered and, if the sink was tried, what came of the delivery.
pub open spec fn outcome_for(
    rendered: Result<(), RenderFault>,
    delivered: Option<Result<(), DeliveryError>>,
) -> Outcome {
    match rendered {
        Err(_) => Outcome::RenderFailed,
        Ok(_) => match delivered {
            Some(Ok(_)) => Outcome::Delivered,
            _ => Outcome::DeliveryFailed,
        },
    }
}

/// Names the end of the path of an accepted record.
pub fn settle(rendered: Result<(), RenderFault>, delivered: Option<Result<(), DeliveryError>>) -> (o:
    Outcome)
    ensures
        o == outcome_for(rendered, delivered),
        o != Outcome::Dropped,
{
    match rendered {
        Err(_) => Outcome::RenderFailed,
        Ok(_) => match delivered {
            Some(Ok(_)) => Outcome::Delivered,
            _ => Outcome::DeliveryFailed,
        },
    }
}

/// What the path of a record leaves the tally of the sink with. A record that is dropped
/// or whose rendering fails leaves it as it was. A record that is delivered
/// adds to it exactly one text that the render function may write for the
/// record. If the delivery fails, a front part of such a text is added.
pub open spec fn reached<P, R: Render<P>>(
    render: &R,
    record: Record,
    payload: P,
    before: Seq<u8>,
    after: Seq<u8>,
    outcome: Outcome,
) -> bool {
    match outcome {
        Outcome::Dropped => after == before,
        Outcome::RenderFailed => after == before,
        Outcome::Delivered => exists|text: Seq<u8>| #[trigger]
            render.may_write(record, payload, text) && after == before + text,
        Outcome::DeliveryFailed => exists|text: Seq<u8>, k: int| #[trigger]
            render.may_write(record, payload, text) && 0 <= k <= text.len() && after == before
                + #[trigger] text.take(k),
    }
}

/// Renders the record into the empty formatter, hands the result to the sink
/// if rendering succeeded, and clears the formatter whatever happened.
pub fn emit<P, R: Render<P>, S: Sink>(
    writer: &Writer,
    formatter: &mut Formatter,
    record: &Record,
    payload: &P,
    render: &R,
    sink: &mut Tally<S>,
) -> (outcome: Outcome)
    requires
        old(formatter)@ == Seq::<u8>::empty(),
    ensures
        outcome != Outcome::Dropped,
        final(formatter)@ == Seq::<u8>::empty(),
        final(formatter).style() == writer.style(),
        reached(render, *record, *payload, old(sink).taken(), final(sink).taken(), outcome),
{
    let ghost before = sink.taken();
    let rendered = render.render(formatter, record, payload);
    let ghost text = formatter@;
    let delivered = match rendered {
        Ok(_) => Some(formatter.print(writer, sink)),
        Err(_) => None,
    };
    formatter.clear();
    formatter.restyle(writer.write_style());
    let outcome = settle(rendered, delivered);
    proof {
        if rendered is Ok {
            assert(render.may_write(*record, *payload, text));
            let r = delivered.unwrap();
            assert(handed_over(before, sink.taken(), text, r));
            if r is Err {
                let k = choose|k: int|
                    0 <= k <= text.len() && sink.taken() == before + #[trigger] text.take(k);
                assert(render.may_write(*record, *payload, text) && 0 <= k <= text.len()
                    && sink.taken() == before + text.take(k));
            }
        }
    }
    outcome
}

/// What came of one record.
#[derive(Clone, Copy, Debug, PartialEq, Eq, Structural)]
pub struct Logged {
    /// How the path of the record ended.
    pub outcome: Outcome,
    /// Whether a formatter was made for the record, rather than a cached one
    /// reused.
    pub built: bool,
}

/// The path of one record under a given filter snapshot, with the calling
/// thread's slot at hand: the filter check, then the cached formatter,
/// cleared and kept or rebuilt, then rendering, delivery and clearing. A
/// formatter is made only for a record that passes the filter, and only if
/// none is cached that was made for the writer's styling.
pub fn log_with<P, R: Render<P>, S: Sink>(
    filter: &Filter,
    writer: &Writer,
    slot: &mut Option<Formatter>,
    record: &Record,
    payload: &P,
    render: &R,
    sink: &mut Tally<S>,
) -> (r: Logged)
    ensures
        r.outcome == Outcome::Dropped <==> !lets_through(filter@, *record),
        r.outcome == Outcome::Dropped ==> *final(slot) == *old(slot),
        r.outcome != Outcome::Dropped ==> cached_style(*final(slot)) == Some(writer.style())
            && final(slot).unwrap()@ == Seq::<u8>::empty(),
        r.built == (r.outcome != Outcome::Dropped && cached_style(*old(slot)) != Some(
            writer.style(),
        )),
        reached(render, *record, *payload, old(sink).taken(), final(sink).taken(), r.outcome),
{
    if !filter.matches(record.target(), record.level(), record.message()) {
        return Logged { outcome: Outcome::Dropped, built: false };
    }
    let built = prepare(slot, writer);
    let mut formatter = match slot.take() {
        Some(f) => f,
        None => Formatter::new(writer),
    };
    let outcome = emit(writer, &mut formatter, record, payload, render, sink);
    *slot = Some(formatter);
    Logged { outcome, built }
}

/// The path of one record under a given filter snapshot when the calling
/// thread's slot cannot be had, because a log call further up the stack holds
/// it or because the thread is shutting down: the record is rendered into a
/// formatter of its own, which is dropped afterwards.
pub fn log_detached_with<P, R: Render<P>, S: Sink>(
    filter: &Filter,
    writer: &Writer,
    record: &Record,
    payload: &P,
    render: &R,
    sink: &mut Tally<S>,
) -> (outcome: Outcome)
    ensures
        outcome == Outcome::Dropped <==> !lets_through(filter@, *record),
        reached(render, *record, *payload, old(sink).taken(), final(sink).taken(), outcome),
{
    if !filter.matches(record.target(), record.level(), record.message()) {
        return Outcome::Dropped;
    }
    let mut formatter = Formatter::new(writer);
    emit(writer, &mut formatter, record, payload, render, sink)
}

/// How many formatters are made over a run of accepted records, given the
/// styling that was cached at the start and the styling of the logger at each
/// record. This follows `log_with` record by record: it makes a formatter,
/// and says so in `built`, exactly when the cached styling is not the
/// writer's, and it leaves the writer's styling cached.
pub open spec fn rebuilds(cached: Option<WriteStyle>, styles: Seq<WriteStyle>) -> nat
    decreases styles.len(),
{
    if styles.len() == 0 {
        0
    } else {
        let first: nat = if cached == Some(styles[0]) {
            0
        } else {
            1
        };
        first + rebuilds(Some(styles[0]), styles.skip(1))
    }
}

/// With unchanged styling at most one formatter is made, however many records
/// are logged, and none if the cached one was made for that styling.
pub proof fn law_steady_styling_builds_once(
    cached: Option<WriteStyle>,
    styles: Seq<WriteStyle>,
    style: WriteStyle,
)
    requires
        forall|i: int| 0 <= i < styles.len() ==> styles[i] == style,
    ensures
        rebuilds(cached, styles) <= 1,
        cached == Some(style) ==> rebuilds(cached, styles) == 0,
    decreases styles.len(),
{
    if styles.len() != 0 {
        law_steady_styling_builds_once(Some(style), styles.skip(1), style);
    }
}

/// A change of styling between two runs of records forces exactly one rebuild.
pub proof fn law_style_change_rebuilds_once(
    before: Seq<WriteStyle>,
    after: Seq<WriteStyle>,
    old_style: WriteStyle,
    new_style: WriteStyle,
)
    requires
        old_style != new_style,
        after.len() > 0,
        forall|i: int| 0 <= i < before.len() ==> before[i] == old_style,
        forall|i: int| 0 <= i < after.len() ==> after[i] == new_style,
    ensures
        rebuilds(Some(old_style), before + after) == 1,
    decreases before.len(),
{
    let all = before + after;
    if before.len() == 0 {
        assert(all =~= after);
        law_steady_styling_builds_once(Some(new_style), after.skip(1), new_style);
    } else {
        assert(all.skip(1) =~= before.skip(1) + after);
        law_style_change_rebuilds_once(before.skip(1), after, old_style, new_style);
    }
}

/// `log::set_max_level`: sets the level up to which the `log` macros bother to
/// call the logger at all. It returns nothing.
#[verifier::external_body]
fn publish_max_level(level: LevelFilter) {
    log::set_max_level(
        match level {
            LevelFilter::Off => log::LevelFilter::Off,
            LevelFilter::Error => log::LevelFilter::Error,
            LevelFilter::Warn => log::LevelFilter::Warn,
            LevelFilter::Info => log::LevelFilter::Info,
            LevelFilter::Debug => log::LevelFilter::Debug,
            LevelFilter::Trace => log::LevelFilter::Trace,
        },
    );
}

/// The logger: filters records, renders those that pass, and hands them to a
/// sink.
#[derive(Debug)]
pub struct Logger {
    writer: Writer,
    filter: FilterHandle,
    format: Format,
}

/// What a change of the filter at runtime gave.
#[derive(Debug)]
pub struct Reconfigured {
    /// The maximum level of the new filter, which the `log` crate's maximum
    /// level was set to.
    pub max_level: LevelFilter,
    /// What of the directive string could not be read.
    pub errors: Vec<ParseError>,
}

/// The handle through which a logger's filter is replaced at runtime.
#[derive(Debug)]
pub struct LoggerConfig {
    filter: FilterHandle,
}

impl LoggerConfig {
    /// The cell that holds the current filter.
    pub closed spec fn handle(&self) -> FilterHandle {
        self.filter
    }

    /// Replaces the logger's filter by the one that `filters` stands for, and
    /// then sets the `log` crate's maximum level to the new filter's. Comes
    /// back once the new filter is installed, with the level that was handed
    /// to the `log` crate and with what of `filters` could not be read; the
    /// rest is in force.
    pub fn update_filters(&self, filters: &str) -> (r: Reconfigured)
        ensures
            r.max_level == max_level(filter_for(filters.spec_bytes()).directives),
            error_views(r.errors@) == parse_spec(filters.spec_bytes()).errors,
    {
        let (new_filter, errors) = compile_filters(filters);
        let max_level = new_filter.filter();
        self.filter.install(new_filter);
        publish_max_level(max_level);
        Reconfigured { max_level, errors }
    }
}

impl Logger {
    /// The cell that holds the current filter.
    pub closed spec fn handle(&self) -> FilterHandle {
        self.filter
    }

    /// The output side.
    pub closed spec fn output(&self) -> Writer {
        self.writer
    }

    /// The settings of the default layout.
    pub closed spec fn layout(&self) -> Format {
        self.format
    }

    pub fn writer(&self) -> (w: &Writer)
        ensures
            *w == self.output(),
    {
        &self.writer
    }

    pub fn format(&self) -> (f: Format)
        ensures
            f == self.layout(),
    {
        self.format
    }

    /// The filter that is current at the moment of the call: one of those
    /// that were put into the logger's cell.
    pub fn current(&self) -> (r: Arc<Filter>)
        ensures
            self.handle().held().contains(r@),
    {
        self.filter.current()
    }

    /// The maximum level that the current filter lets through: that of one
    /// of the filters that were put into the logger's cell.
    pub fn filter(&self) -> (r: LevelFilter)
        ensures
            exists|f: FilterView| #[trigger]
                self.handle().held().contains(f) && r == max_level(f.directives),
    {
        let filter = self.filter.current();
        let r = filter.filter();
        assert(self.handle().held().contains(filter@) && r == max_level(filter@.directives));
        r
    }

    /// Checks the record against the current filter: one of the filters that
    /// were put into the logger's cell.
    pub fn matches(&self, record: &Record) -> (r: bool)
        ensures
            exists|f: FilterView| #[trigger]
                self.handle().held().contains(f) && r == lets_through(f, *record),
    {
        let filter = self.filter.current();
        let r = filter.matches(record.target(), record.level(), record.message());
        assert(self.handle().held().contains(filter@) && r == lets_through(filter@, *record));
        r
    }

    /// Checks the metadata against the directives of the current filter: one
    /// of the filters that were put into the logger's cell.
    pub fn enabled(&self, metadata: &Metadata) -> (r: bool)
        ensures
            exists|f: FilterView| #[trigger]
                self.handle().held().contains(f) && r == enabled(
                    f.directives,
                    metadata.spec_target().spec_bytes(),
                    metadata.spec_level(),
                ),
    {
        let filter = self.filter.current();
        let r = filter.enabled(metadata.target(), metadata.level());
        assert(self.handle().held().contains(filter@) && r == enabled(
            filter@.directives,
            metadata.spec_target().spec_bytes(),
            metadata.spec_level(),
        ));
        r
    }

    /// Logs one record with the calling thread's slot at hand. The record is
    /// checked against the filter that is current at this moment. If it
    /// passes, it is rendered into the slot's formatter, which is cleared
    /// first, or rebuilt if it was made for another styling; the text is
    /// handed to the sink, and the formatter is left cleared in the slot.
    /// Failures of the render function and of the sink end the path but are
    /// not passed on as errors.
    pub fn log<P, R: Render<P>, S: Sink>(
        &self,
        slot: &mut Option<Formatter>,
        record: &Record,
        payload: &P,
        render: &R,
        sink: &mut Tally<S>,
    ) -> (r: Logged)
        ensures
            exists|f: FilterView| #[trigger]
                self.handle().held().contains(f) && (r.outcome == Outcome::Dropped
                    <==> !lets_through(f, *record)),
            r.outcome == Outcome::Dropped ==> *final(slot) == *old(slot),
            r.outcome != Outcome::Dropped ==> cached_style(*final(slot)) == Some(
                self.output().style(),
            ) && final(slot).unwrap()@ == Seq::<u8>::empty(),
            r.built == (r.outcome != Outcome::Dropped && cached_style(*old(slot)) != Some(
                self.output().style(),
            )),
            reached(render, *record, *payload, old(sink).taken(), final(sink).taken(), r.outcome),
    {
        let filter = self.filter.current();
        let r = log_with(&filter, &self.writer, slot, record, payload, render, sink);
        assert(self.handle().held().contains(filter@) && (r.outcome == Outcome::Dropped
            <==> !lets_through(filter@, *record)));
        r
    }

    /// Logs one record when the calling thread's slot cannot be had. The
    /// record is rendered into a formatter that lives for this call only, so
    /// whatever the slot holds is left as it is.
    pub fn log_detached<P, R: Render<P>, S: Sink>(
        &self,
        record: &Record,
        payload: &P,
        render: &R,
        sink: &mut Tally<S>,
    ) -> (outcome: Outcome)
        ensures
            exists|f: FilterView| #[trigger]
                self.handle().held().contains(f) && (outcome == Outcome::Dropped
                    <==> !lets_through(f, *record)),
            reached(render, *record, *payload, old(sink).taken(), final(sink).taken(), outcome),
    {
        let filter = self.filter.current();
        let outcome = log_detached_with(&filter, &self.writer, record, payload, render, sink);
        assert(self.handle().held().contains(filter@) && (outcome == Outcome::Dropped
            <==> !lets_through(filter@, *record)));
        outcome
    }

    /// Logs one record, with the calling thread's slot if it can be had and
    /// without it if not: then a log call further up the stack holds the
    /// slot, or the thread is shutting down, and the record goes the detached
    /// way, for which a formatter is made whenever the record passes.
    pub fn log_on<P, R: Render<P>, S: Sink>(
        &self,
        slot: Option<&mut Option<Formatter>>,
        record: &Record,
        payload: &P,
        render: &R,
        sink: &mut Tally<S>,
    ) -> (r: Logged)
        ensures
            exists|f: FilterView| #[trigger]
                self.handle().held().contains(f) && (r.outcome == Outcome::Dropped
                    <==> !lets_through(f, *record)),
            match slot {
                Some(held) => {
                    &&& r.outcome == Outcome::Dropped ==> *final(held) == *held
                    &&& r.outcome != Outcome::Dropped ==> cached_style(*final(held)) == Some(
                        self.output().style(),
                    ) && final(held).unwrap()@ == Seq::<u8>::empty()
                    &&& r.built == (r.outcome != Outcome::Dropped && cached_style(*held)
                        != Some(self.output().style()))
                },
                None => r.built == (r.outcome != Outcome::Dropped),
            },
            reached(render, *record, *payload, old(sink).taken(), final(sink).taken(), r.outcome),
    {
        match slot {
            Some(held) => self.log(held, record, payload, render, sink),
            None => {
                let outcome = self.log_detached(record, payload, render, sink);
                Logged { outcome, built: outcome != Outcome::Dropped }
            },
        }
    }

    /// Every record is delivered before `log` comes back: nothing is left to
    /// flush.
    pub fn flush(&self) {
    }
}

/// `Builder` acts as builder for initializing a `Logger`.
///
/// It can be used to set the filter's directives, the target and styling of
/// the output, and the settings of the default layout.
#[derive(Debug)]
pub struct Builder {
    filter: crate::filter::Builder,
    writer: crate::writer::Builder,
    format: crate::fmt::Builder,
    built: bool,
}

/// A logger builder as a value.
pub struct BuilderView {
    /// The directives in the order they were declared.
    pub directives: Seq<DirectiveView>,
    /// The content pattern.
    pub pattern: Option<Seq<u8>>,
    /// What the directive strings parsed so far had to leave out.
    pub errors: Seq<ParseErrorView>,
    /// The settings of the default layout.
    pub format: Format,
    pub target: WritableTarget,
    /// The styling asked for.
    pub write_style: WriteStyle,
    pub is_test: bool,
    /// Whether the builder has been used up.
    pub built: bool,
}

impl View for Builder {
    type V = BuilderView;

    closed spec fn view(&self) -> BuilderView {
        BuilderView {
            directives: self.filter@.directives,
            pattern: self.filter@.pattern,
            errors: self.filter@.errors,
            format: self.format.settings(),
            target: self.writer.target_set(),
            write_style: self.writer.style_set(),
            is_test: self.writer.test_set(),
            built: self.built,
        }
    }
}

/// A builder that nothing was set on: no directive, no pattern, standard
/// error, styling left to the target, the default layout.
pub open spec fn fresh_builder() -> BuilderView {
    BuilderView {
        directives: Seq::empty(),
        pattern: None,
        errors: Seq::empty(),
        format: default_format(),
        target: WritableTarget::Stderr,
        write_style: WriteStyle::Auto,
        is_test: false,
        built: false,
    }
}

impl Builder {
    /// Initializes the log builder with defaults.
    pub fn new() -> (b: Builder)
        ensures
            b@ == fresh_builder(),
    {
        let b = Builder {
            filter: crate::filter::Builder::new(),
            writer: crate::writer::Builder::new(),
            format: crate::fmt::Builder::new(),
            built: false,
        };
        b
    }

    /// Use the default layout settings.
    pub fn default_format(&mut self) -> (r: &mut Self)
        ensures
            r@ == (BuilderView { format: default_format(), ..old(self)@ }),
            *final(self) == *final(r),
    {
        self.format.reset();
        self
    }

    /// Whether or not to write the level in the default format.
    pub fn format_level(&mut self, write: bool) -> (r: &mut Self)
        ensures
            r@ == (BuilderView {
                format: Format { level: write, ..old(self)@.format },
                ..old(self)@
            }),
            *final(self) == *final(r),
    {
        self.format.format_level(write);
        self
    }

    /// Whether or not to write the module path in the default format.
    pub fn format_module_path(&mut self, write: bool) -> (r: &mut Self)
        ensures
            r@ == (BuilderView {
                format: Format { module: write, ..old(self)@.format },
                ..old(self)@
            }),
            *final(self) == *final(r),
    {
        self.format.format_module_path(write);
        self
    }

    /// Whether or not to write the target in the default format.
    pub fn format_target(&mut self, write: bool) -> (r: &mut Self)
        ensures
            r@ == (BuilderView {
                format: Format { target: write, ..old(self)@.format },
                ..old(self)@
            }),
            *final(self) == *final(r),
    {
        self.format.format_target(write);
        self
    }

    /// Configures the amount of spaces to use to indent multiline log records.
    /// A value of `None` disables any kind of indentation.
    pub fn format_indent(&mut self, indent: Option<usize>) -> (r: &mut Self)
        ensures
            r@ == (BuilderView { format: Format { indent, ..old(self)@.format }, ..old(self)@ }),
            *final(self) == *final(r),
    {
        self.format.format_indent(indent);
        self
    }

    /// Configures the end of line suffix.
    pub fn format_suffix(&mut self, suffix: &'static str) -> (r: &mut Self)
        ensures
            r@ == (BuilderView { format: Format { suffix, ..old(self)@.format }, ..old(self)@ }),
            *final(self) == *final(r),
    {
        self.format.format_suffix(suffix);
        self
    }

    /// Adds a directive to the filter for a specific module.
    pub fn filter_module(&mut self, module: &str, level: LevelFilter) -> (r: &mut Self)
        ensures
            r@ == (BuilderView {
                directives: declare(
                    old(self)@.directives,
                    DirectiveView { name: Some(module.spec_bytes()), level },
                ),
                ..old(self)@
            }),
            *final(self) == *final(r),
    {
        self.filter.filter_module(module, level);
        self
    }

    /// Adds a directive to the filter for all modules.
    pub fn filter_level(&mut self, level: LevelFilter) -> (r: &mut Self)
        ensures
            r@ == (BuilderView {
                directives: declare(old(self)@.directives, DirectiveView { name: None, level }),
                ..old(self)@
            }),
            *final(self) == *final(r),
    {
        self.filter.filter_level(level);
        self
    }

    /// Adds filters to the logger.
    ///
    /// The given module (if any) will log at most the specified level provided.
    /// If no module is provided then the filter will apply to all log messages.
    pub fn filter(&mut self, module: Option<&str>, level: LevelFilter) -> (r: &mut Self)
        ensures
            r@ == (BuilderView {
                directives: declare(
                    old(self)@.directives,
                    DirectiveView {
                        name: match module {
                            Some(m) => Some(m.spec_bytes()),
                            None => None,
                        },
                        level,
                    },
                ),
                ..old(self)@
            }),
            *final(self) == *final(r),
    {
        self.filter.filter(module, level);
        self
    }

    /// Parses a directive string: declares its directives in the order they
    /// are written and takes over its content pattern, or its having none.
    /// What cannot be read is kept as the builder's errors.
    pub fn parse_filters(&mut self, filters: &str) -> (r: &mut Self)
        ensures
            r@ == (BuilderView {
                directives: declare_all(
                    old(self)@.directives,
                    parse_spec(filters.spec_bytes()).directives,
                ),
                pattern: parse_spec(filters.spec_bytes()).pattern,
                errors: old(self)@.errors + parse_spec(filters.spec_bytes()).errors,
                ..old(self)@
            }),
            *final(self) == *final(r),
    {
        self.filter.parse(filters);
        self
    }

    /// Hands out what the directive strings parsed so far had to leave out,
    /// and forgets it.
    pub fn take_parse_errors(&mut self) -> (errors: Vec<ParseError>)
        ensures
            error_views(errors@) == old(self)@.errors,
            final(self)@ == (BuilderView { errors: Seq::empty(), ..old(self)@ }),
    {
        self.filter.take_errors()
    }

    /// Sets the target for the log output.
    pub fn target(&mut self, target: Target) -> (r: &mut Self)
        ensures
            r@ == (BuilderView { target: WritableTarget::from_spec(target), ..old(self)@ }),
            *final(self) == *final(r),
    {
        self.writer.target(target);
        self
    }

    /// Sets whether or not styles will be written.
    pub fn write_style(&mut self, write_style: WriteStyle) -> (r: &mut Self)
        ensures
            r@ == (BuilderView { write_style, ..old(self)@ }),
            *final(self) == *final(r),
    {
        self.writer.write_style(write_style);
        self
    }

    /// Sets whether or not the logger will be used in unit tests.
    pub fn is_test(&mut self, is_test: bool) -> (r: &mut Self)
        ensures
            r@ == (BuilderView { is_test, ..old(self)@ }),
            *final(self) == *final(r),
    {
        self.writer.is_test(is_test);
        self
    }

    /// Whether the builder has been used up.
    pub fn is_built(&self) -> (b: bool)
        ensures
            b == self@.built,
    {
        self.built
    }

    /// Build a logger, and the handle through which its filter is replaced.
    /// The two share one filter cell. The builder is used up: it must not be
    /// built from again.
    pub fn build(&mut self) -> (r: (Logger, LoggerConfig))
        requires
            !old(self)@.built,
        ensures
            final(self)@.built,
            r.0.handle().same_cell(&r.1.handle()),
            r.0.handle().initial() == (FilterView {
                directives: compile(old(self)@.directives),
                pattern: old(self)@.pattern,
            }),
            r.1.handle().initial() == r.0.handle().initial(),
            r.0.handle().held().contains(r.0.handle().initial()),
            r.1.handle().held() == r.0.handle().held(),
            r.0.output().destination() == old(self)@.target,
            r.0.output().style() == resolved_style(old(self)@.write_style),
            r.0.output().captured() == old(self)@.is_test,
            r.0.layout() == old(self)@.format,
    {
        self.built = true;
        let filter = FilterHandle::new(self.filter.compile());
        let config = LoggerConfig { filter: filter.share() };
        let logger = Logger { writer: self.writer.writer(), filter, format: self.format.format() };
        (logger, config)
    }
}

impl Default for Builder {
    fn default() -> (b: Self)
        ensures
            b@ == fresh_builder(),
    {
        Builder::new()
    }
}

} // verus!
