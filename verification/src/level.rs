//! Severity levels of records and the thresholds that directives carry.

use crate::text::{eq_ignore_ascii_case, range_eq_ignore_ascii_case};
use vstd::prelude::*;
use vstd::string::StringSliceAdditionalSpecFns;

verus! {

/// The severity of a single record, most severe first.
#[derive(Clone, Copy, Debug, PartialEq, Eq, Structural)]
pub enum Level {
    Error,
    Warn,
    Info,
    Debug,
    Trace,
}

/// A threshold: the least severe level that a scope still lets through.
/// `Off` lets nothing through.
#[derive(Clone, Copy, Debug, PartialEq, Eq, Structural)]
pub enum LevelFilter {
    Off,
    Error,
    Warn,
    Info,
    Debug,
    Trace,
}

impl Level {
    /// Position in the order `Error < Warn < Info < Debug < Trace`, counted from 1
    /// so that it lines up with [`LevelFilter::severity`].
    pub open spec fn severity(self) -> int {
        match self {
            Level::Error => 1,
            Level::Warn => 2,
            Level::Info => 3,
            Level::Debug => 4,
            Level::Trace => 5,
        }
    }

    pub fn rank(self) -> (r: u8)
        ensures
            r == self.severity(),
    {
        match self {
            Level::Error => 1,
            Level::Warn => 2,
            Level::Info => 3,
            Level::Debug => 4,
            Level::Trace => 5,
        }
    }

    /// The threshold that lets through exactly the records at least as severe as `self`.
    pub fn to_level_filter(self) -> (f: LevelFilter)
        ensures
            f.severity() == self.severity(),
    {
        match self {
            Level::Error => LevelFilter::Error,
            Level::Warn => LevelFilter::Warn,
            Level::Info => LevelFilter::Info,
            Level::Debug => LevelFilter::Debug,
            Level::Trace => LevelFilter::Trace,
        }
    }
}

impl LevelFilter {
    /// Position in the order `Off < Error < Warn < Info < Debug < Trace`, counted from 0.
    pub open spec fn severity(self) -> int {
        match self {
            LevelFilter::Off => 0,
            LevelFilter::Error => 1,
            LevelFilter::Warn => 2,
            LevelFilter::Info => 3,
            LevelFilter::Debug => 4,
            LevelFilter::Trace => 5,
        }
    }

    /// Whether a record of severity `level` passes this threshold.
    pub open spec fn allows(self, level: Level) -> bool {
        level.severity() <= self.severity()
    }

    pub fn rank(self) -> (r: u8)
        ensures
            r == self.severity(),
    {
        match self {
            LevelFilter::Off => 0,
            LevelFilter::Error => 1,
            LevelFilter::Warn => 2,
            LevelFilter::Info => 3,
            LevelFilter::Debug => 4,
            LevelFilter::Trace => 5,
        }
    }

    /// The least restrictive threshold.
    pub fn max() -> (f: LevelFilter)
        ensures
            f == LevelFilter::Trace,
    {
        LevelFilter::Trace
    }

    /// Decides whether a record of severity `level` passes this threshold.
    pub fn passes(self, level: Level) -> (r: bool)
        ensures
            r == self.allows(level),
    {
        level.rank() <= self.rank()
    }

    /// The less restrictive of two thresholds.
    pub fn or_higher(self, other: LevelFilter) -> (f: LevelFilter)
        ensures
            f.severity() == if self.severity() >= other.severity() {
                self.severity()
            } else {
                other.severity()
            },
            f == self || f == other,
    {
        if self.rank() >= other.rank() {
            self
        } else {
            other
        }
    }
}

/// The lower-case name of a threshold, as bytes.
pub open spec fn level_name(f: LevelFilter) -> Seq<u8> {
    match f {
        LevelFilter::Off => seq![0x6fu8, 0x66u8, 0x66u8],
        LevelFilter::Error => seq![0x65u8, 0x72u8, 0x72u8, 0x6fu8, 0x72u8],
        LevelFilter::Warn => seq![0x77u8, 0x61u8, 0x72u8, 0x6eu8],
        LevelFilter::Info => seq![0x69u8, 0x6eu8, 0x66u8, 0x6fu8],
        LevelFilter::Debug => seq![0x64u8, 0x65u8, 0x62u8, 0x75u8, 0x67u8],
        LevelFilter::Trace => seq![0x74u8, 0x72u8, 0x61u8, 0x63u8, 0x65u8],
    }
}

/// The ASCII digit that stands for a threshold: `0` for `Off` up to `5` for `Trace`.
pub open spec fn level_digit(f: LevelFilter) -> u8 {
    (0x30 + f.severity()) as u8
}

/// Whether `token` spells the threshold `f`: its name in any mix of upper and
/// lower case, or its digit.
pub open spec fn spells(token: Seq<u8>, f: LevelFilter) -> bool {
    eq_ignore_ascii_case(token, level_name(f)) || token == seq![level_digit(f)]
}

/// The threshold that `token` spells, if it spells one. No token spells two.
pub open spec fn parse_level(token: Seq<u8>) -> Option<LevelFilter> {
    if spells(token, LevelFilter::Off) {
        Some(LevelFilter::Off)
    } else if spells(token, LevelFilter::Error) {
        Some(LevelFilter::Error)
    } else if spells(token, LevelFilter::Warn) {
        Some(LevelFilter::Warn)
    } else if spells(token, LevelFilter::Info) {
        Some(LevelFilter::Info)
    } else if spells(token, LevelFilter::Debug) {
        Some(LevelFilter::Debug)
    } else if spells(token, LevelFilter::Trace) {
        Some(LevelFilter::Trace)
    } else {
        None
    }
}

fn range_spells(s: &[u8], from: usize, to: usize, f: LevelFilter) -> (r: bool)
    requires
        from <= to <= s.len(),
    ensures
        r == spells(s@.subrange(from as int, to as int), f),
{
    let ghost token = s@.subrange(from as int, to as int);
    if to - from == 1 && s[from] == 0x30 + f.rank() {
        assert(token =~= seq![level_digit(f)]);
        return true;
    }
    assert(token != seq![level_digit(f)]) by {
        if token == seq![level_digit(f)] {
            assert(token.len() == 1);
            assert(token[0] == level_digit(f));
        }
    }
    match f {
        LevelFilter::Off => {
            let name: [u8; 3] = [0x6f, 0x66, 0x66];
            assert(name@ =~= level_name(f));
            range_eq_ignore_ascii_case(s, from, to, name.as_slice())
        },
        LevelFilter::Error => {
            let name: [u8; 5] = [0x65, 0x72, 0x72, 0x6f, 0x72];
            assert(name@ =~= level_name(f));
            range_eq_ignore_ascii_case(s, from, to, name.as_slice())
        },
        LevelFilter::Warn => {
            let name: [u8; 4] = [0x77, 0x61, 0x72, 0x6e];
            assert(name@ =~= level_name(f));
            range_eq_ignore_ascii_case(s, from, to, name.as_slice())
        },
        LevelFilter::Info => {
            let name: [u8; 4] = [0x69, 0x6e, 0x66, 0x6f];
            assert(name@ =~= level_name(f));
            range_eq_ignore_ascii_case(s, from, to, name.as_slice())
        },
        LevelFilter::Debug => {
            let name: [u8; 5] = [0x64, 0x65, 0x62, 0x75, 0x67];
            assert(name@ =~= level_name(f));
            range_eq_ignore_ascii_case(s, from, to, name.as_slice())
        },
        LevelFilter::Trace => {
            let name: [u8; 5] = [0x74, 0x72, 0x61, 0x63, 0x65];
            assert(name@ =~= level_name(f));
            range_eq_ignore_ascii_case(s, from, to, name.as_slice())
        },
    }
}

/// Reads `s[from..to]` as a threshold.
pub fn parse_level_range(s: &[u8], from: usize, to: usize) -> (r: Option<LevelFilter>)
    requires
        from <= to <= s.len(),
    ensures
        r == parse_level(s@.subrange(from as int, to as int)),
{
    if range_spells(s, from, to, LevelFilter::Off) {
        Some(LevelFilter::Off)
    } else if range_spells(s, from, to, LevelFilter::Error) {
        Some(LevelFilter::Error)
    } else if range_spells(s, from, to, LevelFilter::Warn) {
        Some(LevelFilter::Warn)
    } else if range_spells(s, from, to, LevelFilter::Info) {
        Some(LevelFilter::Info)
    } else if range_spells(s, from, to, LevelFilter::Debug) {
        Some(LevelFilter::Debug)
    } else if range_spells(s, from, to, LevelFilter::Trace) {
        Some(LevelFilter::Trace)
    } else {
        None
    }
}

impl LevelFilter {
    /// Reads a threshold from its name, in any mix of upper and lower case, or
    /// from its digit. Anything else is `None`.
    pub fn from_name(name: &str) -> (r: Option<LevelFilter>)
        ensures
            r == parse_level(name.spec_bytes()),
    {
        let bytes = name.as_bytes();
        assert(bytes@.subrange(0, bytes@.len() as int) =~= bytes@);
        parse_level_range(bytes, 0, bytes.len())
    }
}

} // verus!
