//! The render target of one record, and the settings of the default layout.

use crate::level::Level;
use crate::text::{find_byte, lemma_first_index};
use crate::writer::{handed_over, Buffer, DeliveryError, Sink, Tally, WriteStyle, Writer};
use vstd::prelude::*;
use vstd::string::StringSliceAdditionalSpecFns;

verus! {

/// The platform's clock.
pub trait Clock {
    /// Nanoseconds since the Unix epoch.
    fn now_nanos(&self) -> u64;
}

/// What a record is rendered into: a byte buffer, and the styling of the
/// writer that the buffer was made for.
#[derive(Debug)]
pub struct Formatter {
    buf: Buffer,
    write_style: WriteStyle,
}

impl View for Formatter {
    type V = Seq<u8>;

    /// What has been written since the formatter was last cleared.
    closed spec fn view(&self) -> Seq<u8> {
        self.buf@
    }
}

impl Formatter {
    /// The styling that the formatter was made for.
    pub closed spec fn style(&self) -> WriteStyle {
        self.write_style
    }

    /// A formatter for `writer`, with an empty buffer.
    pub fn new(writer: &Writer) -> (f: Self)
        ensures
            f@ == Seq::<u8>::empty(),
            f.style() == writer.style(),
    {
        Formatter { buf: writer.buffer(), write_style: writer.write_style() }
    }

    pub fn write_style(&self) -> (s: WriteStyle)
        ensures
            s == self.style(),
    {
        self.write_style
    }

    /// Records that the formatter serves a writer with the styling `style`.
    pub(crate) fn restyle(&mut self, style: WriteStyle)
        ensures
            final(self)@ == old(self)@,
            final(self).style() == style,
    {
        self.write_style = style;
    }

    /// Appends `bytes` and reports how many were taken: all of them.
    pub fn write(&mut self, bytes: &[u8]) -> (n: usize)
        ensures
            final(self)@ == old(self)@ + bytes@,
            final(self).style() == old(self).style(),
            n == bytes@.len(),
    {
        self.buf.write(bytes)
    }

    /// Nothing is held back, so there is nothing to flush.
    pub fn flush(&mut self)
        ensures
            final(self)@ == old(self)@,
            final(self).style() == old(self).style(),
    {
        self.buf.flush();
    }

    /// What has been written since the formatter was last cleared.
    pub fn bytes(&self) -> (r: &[u8])
        ensures
            r@ == self@,
    {
        self.buf.bytes()
    }

    /// How many bytes the buffer can take before it has to allocate again.
    pub fn capacity(&self) -> usize {
        self.buf.capacity()
    }

    /// Hands what has been written to the sink, whole and once. The
    /// formatter stays as it is.
    pub fn print<S: Sink>(&self, writer: &Writer, sink: &mut Tally<S>) -> (r: Result<
        (),
        DeliveryError,
    >)
        ensures
            handed_over(old(sink).taken(), final(sink).taken(), self@, r),
    {
        writer.print(&self.buf, sink)
    }

    /// Empties the buffer. Its allocation is kept for the next record.
    pub fn clear(&mut self)
        ensures
            final(self)@ == Seq::<u8>::empty(),
            final(self).style() == old(self).style(),
    {
        self.buf.clear();
    }

    /// The current time in nanoseconds since the Unix epoch, as the clock
    /// gives it.
    pub fn timestamp_nanos<C: Clock>(&self, clock: &C) -> u64 {
        clock.now_nanos()
    }
}

/// The settings of the default layout of a record.
#[derive(Clone, Copy, Debug, PartialEq, Eq)]
pub struct Format {
    /// Whether the level is written.
    pub level: bool,
    /// Whether the module path is written.
    pub module: bool,
    /// Whether the target is written.
    pub target: bool,
    /// By how many spaces the lines after the first are indented, if at all.
    pub indent: Option<usize>,
    /// What ends the record.
    pub suffix: &'static str,
}

/// The default settings: level and target are written, the module path is
/// not, following lines are indented by four spaces, and a newline ends the
/// record.
pub open spec fn default_format() -> Format {
    Format { level: true, module: false, target: true, indent: Some(4usize), suffix: "\n" }
}

/// Collects the settings of the default layout.
#[derive(Debug)]
pub struct Builder {
    format_level: bool,
    format_module_path: bool,
    format_target: bool,
    format_indent: Option<usize>,
    format_suffix: &'static str,
    built: bool,
}

impl Builder {
    /// Whether the builder has been used up.
    pub closed spec fn is_built(&self) -> bool {
        self.built
    }

    /// The settings that `build` would hand out.
    pub closed spec fn settings(&self) -> Format {
        Format {
            level: self.format_level,
            module: self.format_module_path,
            target: self.format_target,
            indent: self.format_indent,
            suffix: self.format_suffix,
        }
    }

    /// A builder with the default settings.
    pub fn new() -> (b: Self)
        ensures
            b.settings() == default_format(),
            !b.is_built(),
    {
        Builder {
            format_level: true,
            format_module_path: false,
            format_target: true,
            format_indent: Some(4),
            format_suffix: "\n",
            built: false,
        }
    }

    /// Whether or not to write the level.
    pub fn format_level(&mut self, write: bool)
        ensures
            final(self).settings() == (Format { level: write, ..old(self).settings() }),
            final(self).is_built() == old(self).is_built(),
    {
        self.format_level = write;
    }

    /// Whether or not to write the module path.
    pub fn format_module_path(&mut self, write: bool)
        ensures
            final(self).settings() == (Format { module: write, ..old(self).settings() }),
            final(self).is_built() == old(self).is_built(),
    {
        self.format_module_path = write;
    }

    /// Whether or not to write the target.
    pub fn format_target(&mut self, write: bool)
        ensures
            final(self).settings() == (Format { target: write, ..old(self).settings() }),
            final(self).is_built() == old(self).is_built(),
    {
        self.format_target = write;
    }

    /// By how many spaces to indent the lines after the first, if at all.
    pub fn format_indent(&mut self, indent: Option<usize>)
        ensures
            final(self).settings() == (Format { indent, ..old(self).settings() }),
            final(self).is_built() == old(self).is_built(),
    {
        self.format_indent = indent;
    }

    /// What to end a record with.
    pub fn format_suffix(&mut self, suffix: &'static str)
        ensures
            final(self).settings() == (Format { suffix, ..old(self).settings() }),
            final(self).is_built() == old(self).is_built(),
    {
        self.format_suffix = suffix;
    }

    /// Puts every setting back to its default.
    pub fn reset(&mut self)
        ensures
            final(self).settings() == default_format(),
            final(self).is_built() == old(self).is_built(),
    {
        self.format_level = true;
        self.format_module_path = false;
        self.format_target = true;
        self.format_indent = Some(4);
        self.format_suffix = "\n";
    }

    /// The settings as they stand. The builder stays as it is.
    pub fn format(&self) -> (f: Format)
        ensures
            f == self.settings(),
    {
        Format {
            level: self.format_level,
            module: self.format_module_path,
            target: self.format_target,
            indent: self.format_indent,
            suffix: self.format_suffix,
        }
    }

    /// Hands out the settings, uses the builder up and puts it back to the
    /// defaults.
    pub fn build(&mut self) -> (f: Format)
        requires
            !old(self).is_built(),
        ensures
            f == old(self).settings(),
            final(self).is_built(),
            final(self).settings() == default_format(),
    {
        let f = self.format();
        self.reset();
        self.built = true;
        f
    }
}

impl Default for Builder {
    fn default() -> (b: Self)
        ensures
            b.settings() == default_format(),
            !b.is_built(),
    {
        Builder::new()
    }
}

/// Ends a line of the message.
pub const NEWLINE: u8 = 0x0a;

/// The label of a level in the header: its name in capitals, filled up to five
/// characters with spaces.
pub open spec fn level_label(level: Level) -> Seq<u8> {
    match level {
        Level::Error => seq![0x45u8, 0x52u8, 0x52u8, 0x4fu8, 0x52u8],
        Level::Warn => seq![0x57u8, 0x41u8, 0x52u8, 0x4eu8, 0x20u8],
        Level::Info => seq![0x49u8, 0x4eu8, 0x46u8, 0x4fu8, 0x20u8],
        Level::Debug => seq![0x44u8, 0x45u8, 0x42u8, 0x55u8, 0x47u8],
        Level::Trace => seq![0x54u8, 0x52u8, 0x41u8, 0x43u8, 0x45u8],
    }
}

/// The header with one more part: the first part opens the bracket, each
/// further one follows a space.
pub open spec fn with_part(header: Seq<u8>, part: Seq<u8>) -> Seq<u8> {
    if header.len() == 0 {
        seq![0x5bu8] + part
    } else {
        header + seq![0x20u8] + part
    }
}

/// The header of a record: in square brackets and separated by spaces, the
/// level's label, the module path if the record has one, and the target if it
/// is not empty, each only if the settings ask for it; a space after the
/// closing bracket. Nothing at all if no part is written.
pub open spec fn header(
    format: Format,
    level: Level,
    module: Option<Seq<u8>>,
    target: Seq<u8>,
) -> Seq<u8> {
    let h0 = Seq::<u8>::empty();
    let h1 = if format.level {
        with_part(h0, level_label(level))
    } else {
        h0
    };
    let h2 = if format.module && module is Some {
        with_part(h1, module.unwrap())
    } else {
        h1
    };
    let h3 = if format.target && target.len() > 0 {
        with_part(h2, target)
    } else {
        h2
    };
    if h3.len() == 0 {
        h3
    } else {
        h3 + seq![0x5du8, 0x20u8]
    }
}

/// `n` spaces.
pub open spec fn spaces(n: nat) -> Seq<u8> {
    Seq::new(n, |i: int| 0x20u8)
}

/// The message with `filler` in the place of each newline.
pub open spec fn refilled(message: Seq<u8>, filler: Seq<u8>) -> Seq<u8>
    decreases message.len(),
{
    if message.len() == 0 {
        message
    } else if message[0] == NEWLINE {
        filler + refilled(message.skip(1), filler)
    } else {
        seq![message[0]] + refilled(message.skip(1), filler)
    }
}

/// The message as it is written: without indentation as it is; with it, each
/// newline gives way to the suffix and the indentation of the line that
/// follows.
pub open spec fn body(format: Format, message: Seq<u8>) -> Seq<u8> {
    match format.indent {
        Some(n) => refilled(message, format.suffix.spec_bytes() + spaces(n as nat)),
        None => message,
    }
}

/// The text of a record in the default layout: header, message, suffix.
pub open spec fn layout(
    format: Format,
    level: Level,
    module: Option<Seq<u8>>,
    target: Seq<u8>,
    message: Seq<u8>,
) -> Seq<u8> {
    header(format, level, module, target) + body(format, message) + format.suffix.spec_bytes()
}

proof fn lemma_refilled_line(line: Seq<u8>, rest: Seq<u8>, filler: Seq<u8>)
    requires
        forall|i: int| 0 <= i < line.len() ==> line[i] != NEWLINE,
    ensures
        refilled(line + rest, filler) == line + refilled(rest, filler),
    decreases line.len(),
{
    if line.len() == 0 {
        assert(line + rest =~= rest);
        assert(line + refilled(rest, filler) =~= refilled(rest, filler));
    } else {
        let all = line + rest;
        assert(all[0] == line[0]);
        assert(all.skip(1) =~= line.skip(1) + rest);
        lemma_refilled_line(line.skip(1), rest, filler);
        assert(seq![line[0]] + (line.skip(1) + refilled(rest, filler)) =~= line + refilled(
            rest,
            filler,
        ));
    }
}

fn write_byte(formatter: &mut Formatter, b: u8)
    ensures
        final(formatter)@ == old(formatter)@ + seq![b],
        final(formatter).style() == old(formatter).style(),
{
    let one: [u8; 1] = [b];
    assert(one@ =~= seq![b]);
    formatter.write(one.as_slice());
}

fn write_spaces(formatter: &mut Formatter, n: usize)
    ensures
        final(formatter)@ == old(formatter)@ + spaces(n as nat),
        final(formatter).style() == old(formatter).style(),
{
    let ghost start = formatter@;
    let mut i: usize = 0;
    assert(start + spaces(0) =~= start);
    while i < n
        invariant
            i <= n,
            formatter@ == start + spaces(i as nat),
            formatter.style() == old(formatter).style(),
        decreases n - i,
    {
        write_byte(formatter, 0x20);
        assert(start + spaces(i as nat) + seq![0x20u8] =~= start + spaces((i + 1) as nat));
        i += 1;
    }
}

/// Adds a part to the header `head` that the formatter holds after `base`.
fn write_part(
    formatter: &mut Formatter,
    started: bool,
    part: &[u8],
    Ghost(base): Ghost<Seq<u8>>,
    Ghost(head): Ghost<Seq<u8>>,
)
    requires
        old(formatter)@ == base + head,
        started == (head.len() > 0),
    ensures
        final(formatter)@ == base + with_part(head, part@),
        final(formatter).style() == old(formatter).style(),
        with_part(head, part@).len() > 0,
{
    if started {
        write_byte(formatter, 0x20);
    } else {
        write_byte(formatter, 0x5b);
    }
    formatter.write(part);
    assert(formatter@ =~= base + with_part(head, part@));
}

fn write_header(
    format: &Format,
    formatter: &mut Formatter,
    level: Level,
    module: Option<&str>,
    target: &str,
)
    ensures
        final(formatter)@ == old(formatter)@ + header(
            *format,
            level,
            match module {
                Some(m) => Some(m.spec_bytes()),
                None => None,
            },
            target.spec_bytes(),
        ),
        final(formatter).style() == old(formatter).style(),
{
    let ghost base = formatter@;
    let ghost mut head = Seq::<u8>::empty();
    let mut started = false;
    assert(formatter@ =~= base + head);
    if format.level {
        let label: [u8; 5] = match level {
            Level::Error => [0x45, 0x52, 0x52, 0x4f, 0x52],
            Level::Warn => [0x57, 0x41, 0x52, 0x4e, 0x20],
            Level::Info => [0x49, 0x4e, 0x46, 0x4f, 0x20],
            Level::Debug => [0x44, 0x45, 0x42, 0x55, 0x47],
            Level::Trace => [0x54, 0x52, 0x41, 0x43, 0x45],
        };
        assert(label@ =~= level_label(level));
        write_part(formatter, started, label.as_slice(), Ghost(base), Ghost(head));
        proof {
            head = with_part(head, label@);
        }
        started = true;
    }
    let ghost h1 = head;
    if format.module {
        match module {
            Some(m) => {
                write_part(formatter, started, m.as_bytes(), Ghost(base), Ghost(head));
                proof {
                    head = with_part(head, m.spec_bytes());
                }
                started = true;
            },
            None => {},
        }
    }
    let ghost h2 = head;
    if format.target && target.as_bytes().len() > 0 {
        write_part(formatter, started, target.as_bytes(), Ghost(base), Ghost(head));
        proof {
            head = with_part(head, target.spec_bytes());
        }
        started = true;
    }
    proof {
        let module_bytes = match module {
            Some(m) => Some(m.spec_bytes()),
            None => None,
        };
        let h0 = Seq::<u8>::empty();
        assert(h1 == if format.level {
            with_part(h0, level_label(level))
        } else {
            h0
        });
        assert(h2 == if format.module && module_bytes is Some {
            with_part(h1, module_bytes.unwrap())
        } else {
            h1
        });
        assert(head == if format.target && target.spec_bytes().len() > 0 {
            with_part(h2, target.spec_bytes())
        } else {
            h2
        });
        assert(started == (head.len() > 0));
    }
    if started {
        write_byte(formatter, 0x5d);
        write_byte(formatter, 0x20);
        assert(formatter@ =~= base + (head + seq![0x5du8, 0x20u8]));
    } else {
        assert(formatter@ =~= base + head);
    }
}

fn write_body(format: &Format, formatter: &mut Formatter, message: &str)
    ensures
        final(formatter)@ == old(formatter)@ + body(*format, message.spec_bytes()),
        final(formatter).style() == old(formatter).style(),
{
    let ghost base = formatter@;
    let text = message.as_bytes();
    let suffix = format.suffix.as_bytes();
    match format.indent {
        Some(n) => {
            let ghost filler = suffix@ + spaces(n as nat);
            let total: usize = text.len();
            let mut pos: usize = 0;
            assert(text@.subrange(0, total as int) =~= text@);
            let ghost mut done = Seq::<u8>::empty();
            assert(base + done =~= base);
            loop
                invariant_except_break
                    formatter@ == base + done,
                    done + refilled(text@.subrange(pos as int, total as int), filler) == refilled(
                        text@,
                        filler,
                    ),
                invariant
                    pos <= total,
                    total == text.len(),
                    filler == suffix@ + spaces(n as nat),
                    formatter.style() == old(formatter).style(),
                ensures
                    formatter@ == base + refilled(text@, filler),
                decreases total - pos,
            {
                let ghost tail = text@.subrange(pos as int, total as int);
                let i: usize = find_byte(text, pos, total, NEWLINE);
                let ghost line = text@.subrange(pos as int, i as int);
                let ghost rest = text@.subrange(i as int, total as int);
                proof {
                    lemma_first_index(tail, NEWLINE);
                    assert forall|j: int| 0 <= j < line.len() implies line[j] != NEWLINE by {
                        assert(line[j] == tail[j]);
                    }
                    assert(tail =~= line + rest);
                    lemma_refilled_line(line, rest, filler);
                }
                formatter.write(&text[pos..i]);
                if i == total {
                    assert(rest =~= Seq::<u8>::empty());
                    assert(formatter@ =~= base + (done + (line + refilled(rest, filler))));
                    break ;
                }
                proof {
                    assert(rest[0] == tail[i - pos]);
                    assert(rest.skip(1) =~= text@.subrange(i + 1, total as int));
                }
                formatter.write(suffix);
                write_spaces(formatter, n);
                proof {
                    let after = refilled(text@.subrange(i + 1, total as int), filler);
                    let next = done + line + filler;
                    assert(formatter@ =~= base + next);
                    assert(next + after =~= done + (line + (filler + after)));
                    done = next;
                }
                pos = i + 1;
            }
        },
        None => {
            formatter.write(text);
        },
    }
}

/// Writes a record in the default layout, after what the formatter holds.
pub fn write_default(
    format: &Format,
    formatter: &mut Formatter,
    level: Level,
    module: Option<&str>,
    target: &str,
    message: &str,
)
    ensures
        final(formatter)@ == old(formatter)@ + layout(
            *format,
            level,
            match module {
                Some(m) => Some(m.spec_bytes()),
                None => None,
            },
            target.spec_bytes(),
            message.spec_bytes(),
        ),
        final(formatter).style() == old(formatter).style(),
{
    let ghost base = formatter@;
    let ghost head = header(
        *format,
        level,
        match module {
            Some(m) => Some(m.spec_bytes()),
            None => None,
        },
        target.spec_bytes(),
    );
    write_header(format, formatter, level, module, target);
    write_body(format, formatter, message);
    formatter.write(format.suffix.as_bytes());
    assert(formatter@ =~= base + (head + body(*format, message.spec_bytes())
        + format.suffix.spec_bytes()));
}

} // verus!
