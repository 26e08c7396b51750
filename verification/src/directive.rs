//! The directive language: a comma-separated list of entries, each a level, a
//! module path or `path=level`, optionally followed by `/` and a content
//! pattern that applies to the whole list.

use crate::level::{parse_level, parse_level_range, LevelFilter};
use crate::text::{
    copy_range, find_byte, first_index, lemma_first_index, lemma_first_index_is, trim, trim_range,
};
use vstd::prelude::*;
use vstd::string::StringSliceAdditionalSpecFns;

verus! {

/// Separates entries.
pub const COMMA: u8 = 0x2c;

/// Separates a module path from its level.
pub const EQUALS: u8 = 0x3d;

/// Separates the entries from the content pattern.
pub const SLASH: u8 = 0x2f;

/// Two of these in a row separate the segments of a module path.
pub const COLON: u8 = 0x3a;

/// One rule of a filter: records whose target starts with `name` are let
/// through up to `level`. Without a name the rule applies to every target.
#[derive(Debug)]
pub struct Directive {
    pub name: Option<Vec<u8>>,
    pub level: LevelFilter,
}

/// A directive as a value: the bytes of its module prefix, and its level.
pub struct DirectiveView {
    pub name: Option<Seq<u8>>,
    pub level: LevelFilter,
}

impl View for Directive {
    type V = DirectiveView;

    open spec fn view(&self) -> DirectiveView {
        DirectiveView {
            name: match self.name {
                Some(n) => Some(n@),
                None => None,
            },
            level: self.level,
        }
    }
}

impl Clone for Directive {
    fn clone(&self) -> (r: Self)
        ensures
            r@ == self@,
    {
        let name = match &self.name {
            Some(n) => {
                let c = n.clone();
                assert(c@ =~= n@);
                Some(c)
            },
            None => None,
        };
        Directive { name, level: self.level }
    }
}

impl Directive {
    /// A rule for the targets that start with `module`, or for all targets.
    pub fn new(module: Option<&str>, level: LevelFilter) -> (d: Directive)
        ensures
            d@.level == level,
            d@.name == match module {
                Some(m) => Some(m.spec_bytes()),
                None => None,
            },
    {
        match module {
            Some(m) => {
                let bytes = m.as_bytes();
                Directive { name: Some(copy_range(bytes, 0, bytes.len())), level }
            },
            None => Directive { name: None, level },
        }
    }
}

/// The views of a list of directives, in the same order.
pub open spec fn directive_views(v: Seq<Directive>) -> Seq<DirectiveView> {
    Seq::new(v.len(), |i: int| v[i]@)
}

/// What is wrong with a part of a directive string.
#[derive(Clone, Copy, Debug, PartialEq, Eq, Structural)]
pub enum ParseErrorKind {
    /// The string holds more than one `/`. Nothing of it is used.
    TooManySlashes,
    /// The entry holds more than one `=`.
    MalformedEntry,
    /// What follows `=` is no level.
    UnknownLevel,
    /// The module path is empty, or one of its `::`-separated segments is.
    EmptySegment,
}

/// A part of a directive string that was left out, and why.
#[derive(Debug)]
pub struct ParseError {
    pub kind: ParseErrorKind,
    /// The text at fault: the level for `UnknownLevel`, the whole string for
    /// `TooManySlashes`, else the entry.
    pub text: Vec<u8>,
}

pub struct ParseErrorView {
    pub kind: ParseErrorKind,
    pub text: Seq<u8>,
}

impl View for ParseError {
    type V = ParseErrorView;

    open spec fn view(&self) -> ParseErrorView {
        ParseErrorView { kind: self.kind, text: self.text@ }
    }
}

/// The views of a list of errors, in the same order.
pub open spec fn error_views(v: Seq<ParseError>) -> Seq<ParseErrorView> {
    Seq::new(v.len(), |i: int| v[i]@)
}

/// Index of the first `::` in `p`, or `p.len()` if there is none.
pub open spec fn first_separator(p: Seq<u8>) -> int
    decreases p.len(),
{
    if p.len() < 2 {
        p.len() as int
    } else if p[0] == COLON && p[1] == COLON {
        0
    } else {
        1 + first_separator(p.skip(1))
    }
}

/// Whether `p`, cut at each `::` from the left, has an empty piece. The empty
/// path has one.
pub open spec fn has_empty_segment(p: Seq<u8>) -> bool
    decreases p.len(),
{
    let i = first_separator(p);
    if i <= 0 {
        true
    } else if i + 2 > p.len() {
        false
    } else {
        has_empty_segment(p.skip(i + 2))
    }
}

fn find_separator(s: &[u8], from: usize, to: usize) -> (i: usize)
    requires
        from <= to <= s.len(),
    ensures
        from <= i <= to,
        i < to ==> i + 2 <= to,
        i - from == first_separator(s@.subrange(from as int, to as int)),
{
    let mut i: usize = from;
    while to - i >= 2 && !(s[i] == COLON && s[i + 1] == COLON)
        invariant
            from <= i <= to <= s.len(),
            first_separator(s@.subrange(from as int, to as int)) == (i - from) + first_separator(
                s@.subrange(i as int, to as int),
            ),
        decreases to - i,
    {
        assert(s@.subrange(i as int, to as int).skip(1) == s@.subrange(i + 1, to as int));
        i += 1;
    }
    if to - i < 2 {
        to
    } else {
        i
    }
}

fn range_has_empty_segment(s: &[u8], from: usize, to: usize) -> (r: bool)
    requires
        from <= to <= s.len(),
    ensures
        r == has_empty_segment(s@.subrange(from as int, to as int)),
{
    let mut pos: usize = from;
    loop
        invariant
            from <= pos <= to <= s.len(),
            has_empty_segment(s@.subrange(from as int, to as int)) == has_empty_segment(
                s@.subrange(pos as int, to as int),
            ),
        decreases to - pos,
    {
        let i: usize = find_separator(s, pos, to);
        if i == pos {
            return true;
        }
        if i >= to {
            return false;
        }
        assert(s@.subrange(pos as int, to as int).skip(i - pos + 2) == s@.subrange(
            i + 2,
            to as int,
        ));
        pos = i + 2;
    }
}

/// What one entry of the list amounts to.
pub enum EntryView {
    /// Nothing but whitespace: passed over.
    Blank,
    Rule(DirectiveView),
    Fault(ParseErrorView),
}

/// A rule for the module `path`, unless the path has an empty segment.
pub open spec fn module_rule(path: Seq<u8>, level: LevelFilter, entry: Seq<u8>) -> EntryView {
    if has_empty_segment(path) {
        EntryView::Fault(ParseErrorView { kind: ParseErrorKind::EmptySegment, text: entry })
    } else {
        EntryView::Rule(DirectiveView { name: Some(path), level })
    }
}

/// Reads one entry. After trimming: a level alone sets the level for all
/// targets; a path alone opens that module up to the level `implicit`, and so
/// does `path=`; `path=level` sets the module's level, the level itself
/// trimmed.
pub open spec fn parse_entry(raw: Seq<u8>, implicit: LevelFilter) -> EntryView {
    let e = trim(raw);
    let k = first_index(e, EQUALS);
    if e.len() == 0 {
        EntryView::Blank
    } else if k == e.len() {
        match parse_level(e) {
            Some(level) => EntryView::Rule(DirectiveView { name: None, level }),
            None => module_rule(e, implicit, e),
        }
    } else {
        let path = e.take(k);
        let rest = e.skip(k + 1);
        let token = trim(rest);
        if first_index(rest, EQUALS) < rest.len() {
            EntryView::Fault(ParseErrorView { kind: ParseErrorKind::MalformedEntry, text: e })
        } else if token.len() == 0 {
            module_rule(path, implicit, e)
        } else {
            match parse_level(token) {
                Some(level) => module_rule(path, level, e),
                None => EntryView::Fault(
                    ParseErrorView { kind: ParseErrorKind::UnknownLevel, text: token },
                ),
            }
        }
    }
}

/// The rules and the faults of a comma-separated list, each in the order of
/// the entries they come from.
pub open spec fn parse_entries(s: Seq<u8>, implicit: LevelFilter) -> (
    Seq<DirectiveView>,
    Seq<ParseErrorView>,
)
    decreases s.len(),
{
    let i = first_index(s, COMMA);
    let rest = if 0 <= i < s.len() {
        parse_entries(s.skip(i + 1), implicit)
    } else {
        (Seq::empty(), Seq::empty())
    };
    match parse_entry(s.take(i), implicit) {
        EntryView::Blank => rest,
        EntryView::Rule(d) => (seq![d] + rest.0, rest.1),
        EntryView::Fault(e) => (rest.0, seq![e] + rest.1),
    }
}

proof fn lemma_first_index_joined(a: Seq<u8>, b: Seq<u8>, d: u8)
    ensures
        first_index(a + seq![d] + b, d) == first_index(a, d),
{
    lemma_first_index(a, d);
    let i = first_index(a, d);
    let s = a + seq![d] + b;
    assert forall|j: int| 0 <= j < i implies s[j] != d by {
        assert(s[j] == a[j]);
    }
    if i < a.len() {
        assert(s[i] == a[i]);
    } else {
        assert(s[i] == d);
    }
    lemma_first_index_is(s, d, i);
}

/// The entries of a list are read one by one: what one entry holds, be it at
/// fault or not, changes nothing of what the others give. Reading two lists
/// joined by a comma gives what the first gives, followed by what the second
/// gives.
pub proof fn law_entries_are_read_one_by_one(a: Seq<u8>, b: Seq<u8>, implicit: LevelFilter)
    ensures
        parse_entries(a + seq![COMMA] + b, implicit).0 == parse_entries(a, implicit).0
            + parse_entries(b, implicit).0,
        parse_entries(a + seq![COMMA] + b, implicit).1 == parse_entries(a, implicit).1
            + parse_entries(b, implicit).1,
    decreases a.len(),
{
    let s = a + seq![COMMA] + b;
    lemma_first_index(a, COMMA);
    lemma_first_index_joined(a, b, COMMA);
    let i = first_index(a, COMMA);
    let head = parse_entry(a.take(i), implicit);
    assert(s.take(i) =~= a.take(i));
    let pa = parse_entries(a, implicit);
    let pb = parse_entries(b, implicit);
    let ps = parse_entries(s, implicit);
    if i < a.len() {
        let rest = a.skip(i + 1);
        assert(s.skip(i + 1) =~= rest + seq![COMMA] + b);
        law_entries_are_read_one_by_one(rest, b, implicit);
        let pr = parse_entries(rest, implicit);
        match head {
            EntryView::Blank => {},
            EntryView::Rule(d) => {
                assert(seq![d] + (pr.0 + pb.0) =~= (seq![d] + pr.0) + pb.0);
            },
            EntryView::Fault(e) => {
                assert(seq![e] + (pr.1 + pb.1) =~= (seq![e] + pr.1) + pb.1);
            },
        }
    } else {
        assert(s.skip(i + 1) =~= b);
        assert(a.take(i) =~= a);
        let none: (Seq<DirectiveView>, Seq<ParseErrorView>) = (Seq::empty(), Seq::empty());
        match head {
            EntryView::Blank => {
                assert(none.0 + pb.0 =~= pb.0);
                assert(none.1 + pb.1 =~= pb.1);
            },
            EntryView::Rule(d) => {
                assert(seq![d] + none.0 + pb.0 =~= seq![d] + pb.0);
                assert(none.1 + pb.1 =~= pb.1);
            },
            EntryView::Fault(e) => {
                assert(none.0 + pb.0 =~= pb.0);
                assert(seq![e] + none.1 + pb.1 =~= seq![e] + pb.1);
            },
        }
    }
}

/// What a directive string says.
pub struct SpecView {
    pub directives: Seq<DirectiveView>,
    pub pattern: Option<Seq<u8>>,
    pub errors: Seq<ParseErrorView>,
}

/// Reads a directive string. What stands before the first `/` is the list of
/// entries, what stands after it is the content pattern, taken as it is. With a
/// second `/` the whole string is at fault and nothing is read from it. A
/// module that is named without a level is opened up to the level `implicit`.
pub open spec fn parse_spec_with(s: Seq<u8>, implicit: LevelFilter) -> SpecView {
    let i = first_index(s, SLASH);
    let pattern = s.skip(i + 1);
    if i == s.len() {
        SpecView {
            directives: parse_entries(s, implicit).0,
            pattern: None,
            errors: parse_entries(s, implicit).1,
        }
    } else if first_index(pattern, SLASH) < pattern.len() {
        SpecView {
            directives: Seq::empty(),
            pattern: None,
            errors: seq![ParseErrorView { kind: ParseErrorKind::TooManySlashes, text: s }],
        }
    } else {
        SpecView {
            directives: parse_entries(s.take(i), implicit).0,
            pattern: Some(pattern),
            errors: parse_entries(s.take(i), implicit).1,
        }
    }
}

/// Reads a directive string in which a module that is named without a level is
/// opened up to `Trace`.
pub open spec fn parse_spec(s: Seq<u8>) -> SpecView {
    parse_spec_with(s, LevelFilter::Trace)
}

/// The outcome of reading a directive string: the rules in the order they were
/// written, the content pattern, and what had to be left out.
#[derive(Debug)]
pub struct ParsedSpec {
    pub directives: Vec<Directive>,
    pub pattern: Option<Vec<u8>>,
    pub errors: Vec<ParseError>,
}

impl View for ParsedSpec {
    type V = SpecView;

    open spec fn view(&self) -> SpecView {
        SpecView {
            directives: directive_views(self.directives@),
            pattern: match self.pattern {
                Some(p) => Some(p@),
                None => None,
            },
            errors: error_views(self.errors@),
        }
    }
}

/// What reading one entry gave.
#[derive(Debug)]
pub enum Entry {
    Blank,
    Rule(Directive),
    Fault(ParseError),
}

impl View for Entry {
    type V = EntryView;

    open spec fn view(&self) -> EntryView {
        match self {
            Entry::Blank => EntryView::Blank,
            Entry::Rule(d) => EntryView::Rule(d@),
            Entry::Fault(e) => EntryView::Fault(e@),
        }
    }
}

fn module_entry(s: &[u8], from: usize, to: usize, level: LevelFilter, lo: usize, hi: usize) -> (r:
    Entry)
    requires
        from <= to <= s.len(),
        lo <= hi <= s.len(),
    ensures
        r@ == module_rule(
            s@.subrange(from as int, to as int),
            level,
            s@.subrange(lo as int, hi as int),
        ),
{
    if range_has_empty_segment(s, from, to) {
        Entry::Fault(ParseError { kind: ParseErrorKind::EmptySegment, text: copy_range(s, lo, hi) })
    } else {
        Entry::Rule(Directive { name: Some(copy_range(s, from, to)), level })
    }
}

/// Reads the entry `s[from..to]`.
pub fn parse_entry_range(s: &[u8], from: usize, to: usize, implicit: LevelFilter) -> (r: Entry)
    requires
        from <= to <= s.len(),
    ensures
        r@ == parse_entry(s@.subrange(from as int, to as int), implicit),
{
    let (lo, hi) = trim_range(s, from, to);
    let ghost e = s@.subrange(lo as int, hi as int);
    if lo == hi {
        return Entry::Blank;
    }
    let k: usize = find_byte(s, lo, hi, EQUALS);
    if k == hi {
        return match parse_level_range(s, lo, hi) {
            Some(level) => Entry::Rule(Directive { name: None, level }),
            None => module_entry(s, lo, hi, implicit, lo, hi),
        };
    }
    assert(e.take(k - lo) == s@.subrange(lo as int, k as int));
    assert(e.skip(k - lo + 1) == s@.subrange(k + 1, hi as int));
    let second: usize = find_byte(s, k + 1, hi, EQUALS);
    if second < hi {
        return Entry::Fault(
            ParseError { kind: ParseErrorKind::MalformedEntry, text: copy_range(s, lo, hi) },
        );
    }
    let (tlo, thi) = trim_range(s, k + 1, hi);
    if tlo == thi {
        return module_entry(s, lo, k, implicit, lo, hi);
    }
    match parse_level_range(s, tlo, thi) {
        Some(level) => module_entry(s, lo, k, level, lo, hi),
        None => Entry::Fault(
            ParseError { kind: ParseErrorKind::UnknownLevel, text: copy_range(s, tlo, thi) },
        ),
    }
}

fn parse_entries_range(s: &[u8], end: usize, implicit: LevelFilter) -> (r: (
    Vec<Directive>,
    Vec<ParseError>,
))
    requires
        end <= s.len(),
    ensures
        directive_views(r.0@) == parse_entries(s@.subrange(0, end as int), implicit).0,
        error_views(r.1@) == parse_entries(s@.subrange(0, end as int), implicit).1,
{
    let mut directives: Vec<Directive> = Vec::new();
    let mut errors: Vec<ParseError> = Vec::new();
    let ghost all = parse_entries(s@.subrange(0, end as int), implicit);
    let mut pos: usize = 0;
    loop
        invariant_except_break
            directive_views(directives@) + parse_entries(
                s@.subrange(pos as int, end as int),
                implicit,
            ).0 == all.0,
            error_views(errors@) + parse_entries(s@.subrange(pos as int, end as int), implicit).1
                == all.1,
        invariant
            pos <= end <= s.len(),
            all == parse_entries(s@.subrange(0, end as int), implicit),
        ensures
            directive_views(directives@) == all.0,
            error_views(errors@) == all.1,
        decreases end - pos,
    {
        let ghost tail = s@.subrange(pos as int, end as int);
        let ghost before_d = directive_views(directives@);
        let ghost before_e = error_views(errors@);
        let i: usize = find_byte(s, pos, end, COMMA);
        assert(tail.take(i - pos) == s@.subrange(pos as int, i as int));
        let ghost rest = if i < end {
            parse_entries(s@.subrange(i + 1, end as int), implicit)
        } else {
            (Seq::empty(), Seq::empty())
        };
        assert(i < end ==> tail.skip(i - pos + 1) == s@.subrange(i + 1, end as int));
        match parse_entry_range(s, pos, i, implicit) {
            Entry::Blank => {},
            Entry::Rule(d) => {
                directives.push(d);
                assert(directive_views(directives@) =~= before_d.push(d@));
                assert(before_d + (seq![d@] + rest.0) =~= before_d.push(d@) + rest.0);
            },
            Entry::Fault(e) => {
                errors.push(e);
                assert(error_views(errors@) =~= before_e.push(e@));
                assert(before_e + (seq![e@] + rest.1) =~= before_e.push(e@) + rest.1);
            },
        }
        if i == end {
            assert(directive_views(directives@) + Seq::<DirectiveView>::empty()
                =~= directive_views(directives@));
            assert(error_views(errors@) + Seq::<ParseErrorView>::empty() =~= error_views(errors@));
            break ;
        }
        pos = i + 1;
    }
    (directives, errors)
}

/// Reads a directive string given as bytes. A module that is named without a
/// level is opened up to the level `implicit`.
pub fn parse_spec_bytes_with(s: &[u8], implicit: LevelFilter) -> (r: ParsedSpec)
    ensures
        r@ == parse_spec_with(s@, implicit),
{
    let n: usize = s.len();
    assert(s@.subrange(0, n as int) =~= s@);
    let i: usize = find_byte(s, 0, n, SLASH);
    if i == n {
        let (directives, errors) = parse_entries_range(s, n, implicit);
        return ParsedSpec { directives, pattern: None, errors };
    }
    assert(s@.skip(i + 1) =~= s@.subrange(i + 1, n as int));
    assert(s@.take(i as int) =~= s@.subrange(0, i as int));
    let second: usize = find_byte(s, i + 1, n, SLASH);
    if second < n {
        let mut errors: Vec<ParseError> = Vec::new();
        errors.push(ParseError { kind: ParseErrorKind::TooManySlashes, text: copy_range(s, 0, n) });
        let r = ParsedSpec { directives: Vec::new(), pattern: None, errors };
        assert(r@.errors =~= parse_spec_with(s@, implicit).errors);
        assert(r@.directives =~= parse_spec_with(s@, implicit).directives);
        return r;
    }
    let (directives, errors) = parse_entries_range(s, i, implicit);
    ParsedSpec { directives, pattern: Some(copy_range(s, i + 1, n)), errors }
}

/// Reads a directive string given as bytes.
pub fn parse_spec_bytes(s: &[u8]) -> (r: ParsedSpec)
    ensures
        r@ == parse_spec(s@),
{
    parse_spec_bytes_with(s, LevelFilter::Trace)
}

/// Reads a directive string.
pub fn parse_spec_str(spec: &str) -> (r: ParsedSpec)
    ensures
        r@ == parse_spec(spec.spec_bytes()),
{
    parse_spec_bytes(spec.as_bytes())
}

} // verus!
