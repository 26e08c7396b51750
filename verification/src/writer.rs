//! The output side: where records go, the styling they are written with, the
//! byte buffer that a record is rendered into, and the hand-over of a rendered
//! buffer to a sink.

use vstd::prelude::*;
use vstd::std_specs::convert::FromSpec;

verus! {

/// Log target, either `stdout` or `stderr`.
#[derive(Clone, Copy, Debug, PartialEq, Eq, Structural)]
pub enum Target {
    /// Logs will be sent to standard output.
    Stdout,
    /// Logs will be sent to standard error.
    Stderr,
}

impl Default for Target {
    fn default() -> (t: Self)
        ensures
            t == Target::Stderr,
    {
        Target::Stderr
    }
}

impl Target {
    /// The target's conventional name.
    pub fn name(&self) -> (r: &'static str)
        ensures
            r@ == match self {
                Target::Stdout => "stdout"@,
                Target::Stderr => "stderr"@,
            },
    {
        match self {
            Target::Stdout => "stdout",
            Target::Stderr => "stderr",
        }
    }
}

/// The target as the writer holds it.
#[derive(Clone, Copy, Debug, PartialEq, Eq, Structural)]
pub enum WritableTarget {
    /// Logs will be sent to standard output.
    Stdout,
    /// Logs will be sent to standard error.
    Stderr,
}

impl From<Target> for WritableTarget {
    fn from(target: Target) -> (r: Self) {
        match target {
            Target::Stdout => WritableTarget::Stdout,
            Target::Stderr => WritableTarget::Stderr,
        }
    }
}

impl vstd::std_specs::convert::FromSpecImpl<Target> for WritableTarget {
    open spec fn obeys_from_spec() -> bool {
        true
    }

    open spec fn from_spec(target: Target) -> Self {
        match target {
            Target::Stdout => WritableTarget::Stdout,
            Target::Stderr => WritableTarget::Stderr,
        }
    }
}

impl Default for WritableTarget {
    fn default() -> (t: Self)
        ensures
            t == WritableTarget::Stderr,
    {
        WritableTarget::from(Target::default())
    }
}

impl WritableTarget {
    /// The target's conventional name.
    pub fn name(&self) -> (r: &'static str)
        ensures
            r@ == match self {
                WritableTarget::Stdout => "stdout"@,
                WritableTarget::Stderr => "stderr"@,
            },
    {
        match self {
            WritableTarget::Stdout => "stdout",
            WritableTarget::Stderr => "stderr",
        }
    }
}

/// Whether records are written with styling.
#[derive(Clone, Copy, Debug, PartialEq, Eq, Structural)]
pub enum WriteStyle {
    /// Style if the target is a terminal.
    Auto,
    /// Always style.
    Always,
    /// Never style.
    Never,
}

impl Default for WriteStyle {
    fn default() -> (s: Self)
        ensures
            s == WriteStyle::Auto,
    {
        WriteStyle::Auto
    }
}

/// Whether standard output is a terminal. It never counts as one.
pub fn is_stdout() -> (r: bool)
    ensures
        !r,
{
    false
}

/// Whether standard error is a terminal. It never counts as one.
pub fn is_stderr() -> (r: bool)
    ensures
        !r,
{
    false
}

/// The styling that a writer for `target` ends up with when `requested` was
/// asked for: `Auto` stays only where the target is a terminal, and as none
/// counts as one it becomes `Never`.
pub open spec fn resolved_style(requested: WriteStyle) -> WriteStyle {
    match requested {
        WriteStyle::Auto => WriteStyle::Never,
        other => other,
    }
}

/// `Vec::capacity`: how many bytes the vector can take before it has to
/// allocate again. Nothing is claimed of the number.
#[verifier::external_body]
fn vec_capacity(v: &Vec<u8>) -> usize {
    v.capacity()
}

/// The bytes of one rendered record.
#[derive(Debug)]
pub struct Buffer(Vec<u8>);

impl View for Buffer {
    type V = Seq<u8>;

    closed spec fn view(&self) -> Seq<u8> {
        self.0@
    }
}

impl Buffer {
    /// Empties the buffer. Its allocation is kept for the next record.
    pub fn clear(&mut self)
        ensures
            final(self)@ == Seq::<u8>::empty(),
    {
        self.0.clear();
    }

    /// Appends `buf` and reports how many bytes were taken: all of them.
    pub fn write(&mut self, buf: &[u8]) -> (n: usize)
        ensures
            final(self)@ == old(self)@ + buf@,
            n == buf@.len(),
    {
        self.0.extend_from_slice(buf);
        buf.len()
    }

    /// Nothing is held back, so there is nothing to flush.
    pub fn flush(&mut self)
        ensures
            final(self)@ == old(self)@,
    {
    }

    /// What has been written since the buffer was last cleared.
    pub fn bytes(&self) -> (r: &[u8])
        ensures
            r@ == self@,
    {
        self.0.as_slice()
    }

    /// How many bytes the buffer can take before it has to allocate again.
    pub fn capacity(&self) -> usize {
        vec_capacity(&self.0)
    }
}

/// Why a rendered record did not reach its destination.
#[derive(Clone, Copy, Debug, PartialEq, Eq, Structural)]
pub enum DeliveryError {
    /// The sink reported a failure.
    Failed,
    /// The sink took no bytes, or claimed to have taken more than it was given.
    Stalled,
}

/// A failure that a sink reports. What went wrong stays with the sink.
#[derive(Clone, Copy, Debug, PartialEq, Eq, Structural)]
pub struct SinkFault;

/// The destination of rendered records. The writer does not look into it: it
/// hands over bytes and learns how many were taken.
pub trait Sink {
    /// Takes some of `bytes`, from the front, and says how many.
    fn write(&self, bytes: &[u8]) -> Result<usize, SinkFault>;

    /// Pushes on what was taken.
    fn flush(&self) -> Result<(), SinkFault>;
}

/// A sink together with a tally of what it has taken. Bytes reach the sink
/// through `write` only, and each write adds to the tally what the sink says
/// it took of them.
pub struct Tally<'a, S: Sink> {
    sink: &'a S,
    taken: Ghost<Seq<u8>>,
}

impl<'a, S: Sink> Tally<'a, S> {
    /// All that the sink has taken through this tally, in order.
    pub closed spec fn taken(&self) -> Seq<u8> {
        self.taken@
    }

    /// A tally for `sink`, which has taken nothing through it yet.
    pub fn new(sink: &'a S) -> (t: Self)
        ensures
            t.taken() == Seq::<u8>::empty(),
    {
        Tally { sink, taken: Ghost(Seq::empty()) }
    }

    /// Offers `bytes` to the sink and hands on its answer. If the sink says
    /// that it took a front part of them, that part is added to the tally. A
    /// sink that fails, or that claims more than it was offered, adds
    /// nothing.
    pub fn write(&mut self, bytes: &[u8]) -> (r: Result<usize, SinkFault>)
        ensures
            final(self).taken() == old(self).taken() + match r {
                Ok(n) => if n <= bytes@.len() {
                    bytes@.take(n as int)
                } else {
                    Seq::<u8>::empty()
                },
                Err(_) => Seq::<u8>::empty(),
            },
    {
        let r = self.sink.write(bytes);
        proof {
            let more = match r {
                Ok(n) => if n <= bytes@.len() {
                    bytes@.take(n as int)
                } else {
                    Seq::<u8>::empty()
                },
                Err(_) => Seq::<u8>::empty(),
            };
            self.taken@ = self.taken@ + more;
        }
        r
    }

    /// Has the sink push on what it took, and hands on its answer. The tally
    /// stays as it is.
    pub fn flush(&mut self) -> (r: Result<(), SinkFault>)
        ensures
            final(self).taken() == old(self).taken(),
    {
        self.sink.flush()
    }
}

/// What an answer of the sink means for a delivery of `total` bytes of which
/// `done` were taken before: how many are taken now, or why the delivery
/// ends here.
pub open spec fn progress(done: int, total: int, answer: Result<usize, SinkFault>) -> Result<
    int,
    DeliveryError,
> {
    match answer {
        Ok(n) => if 0 < n <= total - done {
            Ok(done + n)
        } else {
            Err(DeliveryError::Stalled)
        },
        Err(_) => Err(DeliveryError::Failed),
    }
}

/// Takes the sink's answer to a write into account.
pub fn advance(done: usize, total: usize, answer: Result<usize, SinkFault>) -> (r: Result<
    usize,
    DeliveryError,
>)
    requires
        done <= total,
    ensures
        match progress(done as int, total as int, answer) {
            Ok(n) => r == Ok::<usize, DeliveryError>(n as usize) && done < n <= total,
            Err(e) => r == Err::<usize, DeliveryError>(e),
        },
{
    match answer {
        Ok(n) => {
            if n == 0 || n > total - done {
                Err(DeliveryError::Stalled)
            } else {
                Ok(done + n)
            }
        },
        Err(_) => Err(DeliveryError::Failed),
    }
}

/// What a delivery of `bytes` leaves the tally of the sink with: after a
/// success, what it had taken before followed by all of `bytes`; after a
/// failure, what it had taken before followed by a front part of them.
pub open spec fn handed_over(
    before: Seq<u8>,
    after: Seq<u8>,
    bytes: Seq<u8>,
    r: Result<(), DeliveryError>,
) -> bool {
    match r {
        Ok(_) => after == before + bytes,
        Err(_) => exists|k: int| 0 <= k <= bytes.len() && after == before + #[trigger] bytes.take(k),
    }
}

/// Hands all of `bytes` to the sink, in as many writes as the sink needs, then
/// flushes it. Each write offers what has not been taken yet. Stops at the
/// first failure.
pub fn deliver<S: Sink>(sink: &mut Tally<S>, bytes: &[u8]) -> (r: Result<(), DeliveryError>)
    ensures
        handed_over(old(sink).taken(), final(sink).taken(), bytes@, r),
{
    let ghost before = sink.taken();
    let total: usize = bytes.len();
    let mut done: usize = 0;
    assert(before + bytes@.take(0) =~= before);
    while done < total
        invariant
            done <= total,
            total == bytes.len(),
            before == old(sink).taken(),
            sink.taken() == before + bytes@.take(done as int),
        decreases total - done,
    {
        let answer = sink.write(&bytes[done..total]);
        proof {
            let offered = bytes@.subrange(done as int, total as int);
            if let Ok(n) = answer {
                if n <= offered.len() {
                    assert(before + bytes@.take(done as int) + offered.take(n as int) =~= before
                        + bytes@.take(done + n));
                }
            }
        }
        match advance(done, total, answer) {
            Ok(n) => {
                done = n;
            },
            Err(e) => {
                proof {
                    let offered = bytes@.subrange(done as int, total as int);
                    let k: int = match answer {
                        Ok(n) => if n <= offered.len() {
                            done + n
                        } else {
                            done as int
                        },
                        Err(_) => done as int,
                    };
                    assert(before + bytes@.take(done as int) + Seq::<u8>::empty() =~= before
                        + bytes@.take(done as int));
                    assert(0 <= k <= bytes@.len() && sink.taken() == before + bytes@.take(k));
                }
                return Err(e);
            },
        }
    }
    assert(bytes@.take(total as int) =~= bytes@);
    match sink.flush() {
        Ok(()) => Ok(()),
        Err(_) => {
            assert(sink.taken() == before + bytes@.take(total as int));
            Err(DeliveryError::Failed)
        },
    }
}

/// Makes buffers and hands them over.
#[derive(Debug)]
pub struct BufferWriter {
    target: WritableTarget,
    write_style: WriteStyle,
    is_test: bool,
}

impl BufferWriter {
    /// A writer for standard error, without styling.
    pub fn new() -> (w: Self)
        ensures
            w.target() == WritableTarget::Stderr,
            w.write_style() == WriteStyle::Never,
            !w.is_test(),
    {
        BufferWriter { target: WritableTarget::Stderr, write_style: WriteStyle::Never, is_test: false }
    }

    /// A writer for standard error.
    pub fn stderr(is_test: bool, write_style: WriteStyle) -> (w: Self)
        ensures
            w.target() == WritableTarget::Stderr,
            w.write_style() == write_style,
            w.is_test() == is_test,
    {
        BufferWriter { target: WritableTarget::Stderr, write_style, is_test }
    }

    /// A writer for standard output.
    pub fn stdout(is_test: bool, write_style: WriteStyle) -> (w: Self)
        ensures
            w.target() == WritableTarget::Stdout,
            w.write_style() == write_style,
            w.is_test() == is_test,
    {
        BufferWriter { target: WritableTarget::Stdout, write_style, is_test }
    }

    pub closed spec fn target(&self) -> WritableTarget {
        self.target
    }

    pub closed spec fn write_style(&self) -> WriteStyle {
        self.write_style
    }

    pub closed spec fn is_test(&self) -> bool {
        self.is_test
    }

    /// An empty buffer.
    pub fn buffer(&self) -> (b: Buffer)
        ensures
            b@ == Seq::<u8>::empty(),
    {
        Buffer(Vec::new())
    }

    /// Hands what the buffer holds to the sink, whole and once. The buffer
    /// stays as it is.
    pub fn print<S: Sink>(&self, buf: &Buffer, sink: &mut Tally<S>) -> (r: Result<
        (),
        DeliveryError,
    >)
        ensures
            handed_over(old(sink).taken(), final(sink).taken(), buf@, r),
    {
        deliver(sink, buf.bytes())
    }
}

/// The output side of a logger: a target and the styling in force.
#[derive(Debug)]
pub struct Writer {
    inner: BufferWriter,
}

impl Writer {
    /// The styling in force.
    pub closed spec fn style(&self) -> WriteStyle {
        self.inner.write_style
    }

    /// Where the records are meant to go.
    pub closed spec fn destination(&self) -> WritableTarget {
        self.inner.target
    }

    /// Whether output is to be captured by a test harness.
    pub closed spec fn captured(&self) -> bool {
        self.inner.is_test
    }

    pub fn write_style(&self) -> (s: WriteStyle)
        ensures
            s == self.style(),
    {
        self.inner.write_style
    }

    pub fn target(&self) -> (t: WritableTarget)
        ensures
            t == self.destination(),
    {
        self.inner.target
    }

    pub fn is_test(&self) -> (t: bool)
        ensures
            t == self.captured(),
    {
        self.inner.is_test
    }

    /// An empty buffer.
    pub fn buffer(&self) -> (b: Buffer)
        ensures
            b@ == Seq::<u8>::empty(),
    {
        self.inner.buffer()
    }

    /// Hands what the buffer holds to the sink, whole and once. The buffer
    /// stays as it is.
    pub fn print<S: Sink>(&self, buf: &Buffer, sink: &mut Tally<S>) -> (r: Result<
        (),
        DeliveryError,
    >)
        ensures
            handed_over(old(sink).taken(), final(sink).taken(), buf@, r),
    {
        self.inner.print(buf, sink)
    }
}

/// A builder for a writer. The target and the styling can be set before
/// building.
#[derive(Debug)]
pub struct Builder {
    target: WritableTarget,
    write_style: WriteStyle,
    is_test: bool,
    built: bool,
}

impl Builder {
    /// A builder for standard error, with styling left to the target.
    pub fn new() -> (b: Self)
        ensures
            b.target_set() == WritableTarget::Stderr,
            b.style_set() == WriteStyle::Auto,
            !b.test_set(),
            !b.is_built(),
    {
        Builder {
            target: WritableTarget::default(),
            write_style: WriteStyle::default(),
            is_test: false,
            built: false,
        }
    }

    pub closed spec fn target_set(&self) -> WritableTarget {
        self.target
    }

    pub closed spec fn style_set(&self) -> WriteStyle {
        self.write_style
    }

    pub closed spec fn test_set(&self) -> bool {
        self.is_test
    }

    /// Whether the builder has been used up.
    pub closed spec fn is_built(&self) -> bool {
        self.built
    }

    /// Sets the target to write to.
    pub fn target(&mut self, target: Target) -> (r: &mut Self)
        ensures
            r.target_set() == WritableTarget::from_spec(target),
            r.style_set() == old(self).style_set(),
            r.test_set() == old(self).test_set(),
            r.is_built() == old(self).is_built(),
            *final(self) == *final(r),
    {
        self.target = WritableTarget::from(target);
        self
    }

    /// Sets the styling asked for.
    pub fn write_style(&mut self, write_style: WriteStyle) -> (r: &mut Self)
        ensures
            r.style_set() == write_style,
            r.target_set() == old(self).target_set(),
            r.test_set() == old(self).test_set(),
            r.is_built() == old(self).is_built(),
            *final(self) == *final(r),
    {
        self.write_style = write_style;
        self
    }

    /// Whether or not to have output captured by a test harness.
    pub fn is_test(&mut self, is_test: bool) -> (r: &mut Self)
        ensures
            r.test_set() == is_test,
            r.target_set() == old(self).target_set(),
            r.style_set() == old(self).style_set(),
            r.is_built() == old(self).is_built(),
            *final(self) == *final(r),
    {
        self.is_test = is_test;
        self
    }

    /// The writer that the settings stand for. The builder stays as it is.
    pub fn writer(&self) -> (w: Writer)
        ensures
            w.destination() == self.target_set(),
            w.style() == resolved_style(self.style_set()),
            w.captured() == self.test_set(),
    {
        let style = match self.write_style {
            WriteStyle::Auto => {
                let terminal = match self.target {
                    WritableTarget::Stderr => is_stderr(),
                    WritableTarget::Stdout => is_stdout(),
                };
                if terminal {
                    WriteStyle::Auto
                } else {
                    WriteStyle::Never
                }
            },
            other => other,
        };
        let inner = match self.target {
            WritableTarget::Stderr => BufferWriter::stderr(self.is_test, style),
            WritableTarget::Stdout => BufferWriter::stdout(self.is_test, style),
        };
        Writer { inner }
    }

    /// Builds the writer, and uses the builder up.
    pub fn build(&mut self) -> (w: Writer)
        requires
            !old(self).is_built(),
        ensures
            final(self).is_built(),
            final(self).target_set() == WritableTarget::Stderr,
            final(self).style_set() == old(self).style_set(),
            final(self).test_set() == old(self).test_set(),
            w.destination() == old(self).target_set(),
            w.style() == resolved_style(old(self).style_set()),
            w.captured() == old(self).test_set(),
    {
        let w = self.writer();
        self.built = true;
        self.target = WritableTarget::default();
        w
    }
}

impl Default for Builder {
    fn default() -> (b: Self)
        ensures
            b.target_set() == WritableTarget::Stderr,
            b.style_set() == WriteStyle::Auto,
            !b.test_set(),
            !b.is_built(),
    {
        Builder::new()
    }
}

} // verus!
