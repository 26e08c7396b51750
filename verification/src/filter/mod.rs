//! The filter: an ordered list of directives, compiled into an immutable
//! snapshot that answers whether a record is enabled and whether it matches.

use crate::directive::{
    directive_views, error_views, parse_spec, parse_spec_bytes, Directive, DirectiveView,
    ParseError, ParseErrorView,
};
use crate::level::{Level, LevelFilter};
use crate::text::{contains, contains_bytes, starts_with};
use vstd::prelude::*;
use vstd::string::StringSliceAdditionalSpecFns;

pub mod laws;

use laws::{lemma_compile_sorted, lemma_max_level_place, lemma_select_in_sorted};

verus! {

/// Whether the directive applies to `target`: it has no name, or its name is a
/// textual prefix of the target. Segments play no part: `net` applies to
/// `network::io`.
pub open spec fn applies(d: DirectiveView, target: Seq<u8>) -> bool {
    match d.name {
        Some(n) => n.is_prefix_of(target),
        None => true,
    }
}

/// How specific a directive is: the length of its name, 0 without one.
pub open spec fn specificity(d: DirectiveView) -> nat {
    match d.name {
        Some(n) => n.len(),
        None => 0,
    }
}

/// The directive that decides for `target`, found by walking the list in the
/// order it was declared: of those that apply, the most specific; of equally
/// specific ones, the one declared last.
pub open spec fn select(ds: Seq<DirectiveView>, target: Seq<u8>) -> Option<DirectiveView>
    decreases ds.len(),
{
    if ds.len() == 0 {
        None
    } else {
        let earlier = select(ds.drop_last(), target);
        let d = ds.last();
        if applies(d, target) && (earlier is None || specificity(earlier.unwrap()) <= specificity(
            d,
        )) {
            Some(d)
        } else {
            earlier
        }
    }
}

/// Whether a record for `target` at `level` is enabled under the directives
/// `ds`: the selected directive lets the level through. With no directive that
/// applies, nothing is enabled.
pub open spec fn enabled(ds: Seq<DirectiveView>, target: Seq<u8>, level: Level) -> bool {
    match select(ds, target) {
        Some(d) => d.level.allows(level),
        None => false,
    }
}

/// Whether a record passes the filter as a whole: it is enabled, and its
/// message holds the content pattern if there is one.
pub open spec fn accepts(
    ds: Seq<DirectiveView>,
    pattern: Option<Seq<u8>>,
    target: Seq<u8>,
    level: Level,
    message: Seq<u8>,
) -> bool {
    enabled(ds, target, level) && match pattern {
        Some(p) => contains_bytes(message, p),
        None => true,
    }
}

/// The less restrictive of two thresholds.
pub open spec fn higher(a: LevelFilter, b: LevelFilter) -> LevelFilter {
    if a.severity() >= b.severity() {
        a
    } else {
        b
    }
}

/// The least restrictive level among the directives, `Off` if there are none.
pub open spec fn max_level(ds: Seq<DirectiveView>) -> LevelFilter
    decreases ds.len(),
{
    if ds.len() == 0 {
        LevelFilter::Off
    } else {
        higher(max_level(ds.drop_last()), ds.last().level)
    }
}

/// Index of the first directive named `name`, or `ds.len()` if there is none.
pub open spec fn position_of(ds: Seq<DirectiveView>, name: Option<Seq<u8>>) -> int
    decreases ds.len(),
{
    if ds.len() == 0 {
        0
    } else if ds[0].name == name {
        0
    } else {
        1 + position_of(ds.skip(1), name)
    }
}

/// The list after declaring `d`: it takes the place of the directive with the
/// same name, or goes to the end if there is none.
pub open spec fn declare(ds: Seq<DirectiveView>, d: DirectiveView) -> Seq<DirectiveView> {
    let i = position_of(ds, d.name);
    if 0 <= i < ds.len() {
        ds.update(i, d)
    } else {
        ds.push(d)
    }
}

/// The list after declaring each of `more`, first to last.
pub open spec fn declare_all(ds: Seq<DirectiveView>, more: Seq<DirectiveView>) -> Seq<
    DirectiveView,
>
    decreases more.len(),
{
    if more.len() == 0 {
        ds
    } else {
        declare_all(declare(ds, more[0]), more.skip(1))
    }
}

/// Whether the list is in ascending order of specificity.
pub open spec fn sorted(ds: Seq<DirectiveView>) -> bool {
    forall|i: int, j: int| 0 <= i <= j < ds.len() ==> specificity(ds[i]) <= specificity(ds[j])
}

/// `s` with `d` placed behind every directive that is not more specific.
pub open spec fn place(s: Seq<DirectiveView>, d: DirectiveView) -> Seq<DirectiveView>
    decreases s.len(),
{
    if s.len() == 0 {
        seq![d]
    } else if specificity(s.last()) <= specificity(d) {
        s.push(d)
    } else {
        place(s.drop_last(), d).push(s.last())
    }
}

/// The compiled order: ascending specificity, equally specific directives in
/// the order they were declared.
pub open spec fn compile(ds: Seq<DirectiveView>) -> Seq<DirectiveView>
    decreases ds.len(),
{
    if ds.len() == 0 {
        Seq::empty()
    } else {
        place(compile(ds.drop_last()), ds.last())
    }
}

fn bytes_eq(a: &[u8], b: &[u8]) -> (r: bool)
    ensures
        r == (a@ == b@),
{
    if a.len() != b.len() {
        return false;
    }
    let mut i: usize = 0;
    while i < a.len()
        invariant
            a.len() == b.len(),
            i <= a.len(),
            forall|j: int| 0 <= j < i ==> a@[j] == b@[j],
        decreases a.len() - i,
    {
        if a[i] != b[i] {
            return false;
        }
        i += 1;
    }
    assert(a@ =~= b@);
    true
}

fn same_name(a: &Directive, b: &Directive) -> (r: bool)
    ensures
        r == (a@.name == b@.name),
{
    match (&a.name, &b.name) {
        (Some(x), Some(y)) => bytes_eq(x.as_slice(), y.as_slice()),
        (None, None) => true,
        _ => false,
    }
}

fn specificity_of(d: &Directive) -> (n: usize)
    ensures
        n == specificity(d@),
{
    match &d.name {
        Some(n) => n.len(),
        None => 0,
    }
}

fn applies_to(d: &Directive, target: &[u8]) -> (r: bool)
    ensures
        r == applies(d@, target@),
{
    match &d.name {
        Some(n) => starts_with(target, n.as_slice()),
        None => true,
    }
}

/// Collects directives and a content pattern, and compiles them once.
#[derive(Debug)]
pub struct Builder {
    directives: Vec<Directive>,
    pattern: Option<Vec<u8>>,
    errors: Vec<ParseError>,
    built: bool,
}

/// A filter builder as a value.
pub struct BuilderView {
    /// The directives in the order they were declared.
    pub directives: Seq<DirectiveView>,
    pub pattern: Option<Seq<u8>>,
    /// What the directive strings read so far had to leave out.
    pub errors: Seq<ParseErrorView>,
    /// Whether the builder has been used up.
    pub built: bool,
}

impl View for Builder {
    type V = BuilderView;

    closed spec fn view(&self) -> BuilderView {
        BuilderView {
            directives: directive_views(self.directives@),
            pattern: match self.pattern {
                Some(p) => Some(p@),
                None => None,
            },
            errors: error_views(self.errors@),
            built: self.built,
        }
    }
}

/// The last directive of the list that applies to `target`.
pub open spec fn last_applicable(s: Seq<DirectiveView>, target: Seq<u8>) -> Option<DirectiveView>
    decreases s.len(),
{
    if s.len() == 0 {
        None
    } else if applies(s.last(), target) {
        Some(s.last())
    } else {
        last_applicable(s.drop_last(), target)
    }
}

/// An immutable snapshot of a filter: its directives in compiled order, the
/// least restrictive of their levels, and the content pattern.
#[derive(Debug)]
pub struct Filter {
    directives: Vec<Directive>,
    max: LevelFilter,
    pattern: Option<Vec<u8>>,
}

/// A filter as a value.
pub struct FilterView {
    /// The directives in compiled order.
    pub directives: Seq<DirectiveView>,
    pub pattern: Option<Seq<u8>>,
}

impl View for Filter {
    type V = FilterView;

    closed spec fn view(&self) -> FilterView {
        FilterView {
            directives: directive_views(self.directives@),
            pattern: match self.pattern {
                Some(p) => Some(p@),
                None => None,
            },
        }
    }
}

fn place_into(v: &mut Vec<Directive>, d: Directive)
    ensures
        directive_views(final(v)@) == place(directive_views(old(v)@), d@),
{
    let ghost s = directive_views(v@);
    let k: usize = specificity_of(&d);
    let mut p: usize = v.len();
    assert(s.take(p as int) =~= s);
    assert(place(s, d@) + s.skip(p as int) =~= place(s, d@));
    while p > 0 && specificity_of(&v[p - 1]) > k
        invariant
            p <= v.len(),
            s == directive_views(v@),
            k == specificity(d@),
            place(s, d@) == place(s.take(p as int), d@) + s.skip(p as int),
        decreases p,
    {
        let ghost head = s.take(p as int);
        assert(head.last() == s[p - 1]);
        assert(head.drop_last() =~= s.take(p - 1));
        assert(place(s.take(p - 1), d@).push(s[p - 1]) + s.skip(p as int) =~= place(
            s.take(p - 1),
            d@,
        ) + s.skip(p - 1));
        p -= 1;
    }
    proof {
        let head = s.take(p as int);
        if p > 0 {
            assert(head.last() == s[p - 1]);
        }
        assert(place(head, d@) =~= head.push(d@));
    }
    v.insert(p, d);
    assert(directive_views(v@) =~= s.take(p as int).push(d@) + s.skip(p as int));
}

impl Builder {
    /// A builder with no directive and no pattern.
    pub fn new() -> (b: Builder)
        ensures
            b@.directives == Seq::<DirectiveView>::empty(),
            b@.pattern is None,
            b@.errors == Seq::<ParseErrorView>::empty(),
            !b@.built,
    {
        let b = Builder { directives: Vec::new(), pattern: None, errors: Vec::new(), built: false };
        assert(b@.directives =~= Seq::<DirectiveView>::empty());
        assert(b@.errors =~= Seq::<ParseErrorView>::empty());
        b
    }

    fn insert_directive(&mut self, d: Directive)
        ensures
            final(self)@.directives == declare(old(self)@.directives, d@),
            final(self)@.pattern == old(self)@.pattern,
            final(self)@.errors == old(self)@.errors,
            final(self)@.built == old(self)@.built,
    {
        let ghost before = directive_views(self.directives@);
        let n: usize = self.directives.len();
        let mut i: usize = 0;
        assert(before.skip(0) =~= before);
        while i < n && !same_name(&self.directives[i], &d)
            invariant
                n == self.directives.len(),
                i <= n,
                before == directive_views(self.directives@),
                position_of(before, d@.name) == i + position_of(before.skip(i as int), d@.name),
            decreases n - i,
        {
            assert(before.skip(i as int).skip(1) =~= before.skip(i + 1));
            i += 1;
        }
        if i < n {
            self.directives.set(i, d);
            assert(directive_views(self.directives@) =~= before.update(i as int, d@));
        } else {
            self.directives.push(d);
            assert(directive_views(self.directives@) =~= before.push(d@));
        }
    }

    /// Declares a directive: for the targets that start with `module`, or for
    /// all targets.
    pub fn filter(&mut self, module: Option<&str>, level: LevelFilter)
        ensures
            final(self)@.directives == declare(
                old(self)@.directives,
                DirectiveView {
                    name: match module {
                        Some(m) => Some(m.spec_bytes()),
                        None => None,
                    },
                    level,
                },
            ),
            final(self)@.pattern == old(self)@.pattern,
            final(self)@.errors == old(self)@.errors,
            final(self)@.built == old(self)@.built,
    {
        self.insert_directive(Directive::new(module, level));
    }

    /// Declares a directive for the targets that start with `module`.
    pub fn filter_module(&mut self, module: &str, level: LevelFilter)
        ensures
            final(self)@.directives == declare(
                old(self)@.directives,
                DirectiveView { name: Some(module.spec_bytes()), level },
            ),
            final(self)@.pattern == old(self)@.pattern,
            final(self)@.errors == old(self)@.errors,
            final(self)@.built == old(self)@.built,
    {
        self.filter(Some(module), level);
    }

    /// Declares the directive for all targets.
    pub fn filter_level(&mut self, level: LevelFilter)
        ensures
            final(self)@.directives == declare(
                old(self)@.directives,
                DirectiveView { name: None, level },
            ),
            final(self)@.pattern == old(self)@.pattern,
            final(self)@.errors == old(self)@.errors,
            final(self)@.built == old(self)@.built,
    {
        self.filter(None, level);
    }

    /// Reads a directive string and declares its directives in the order they
    /// are written. The pattern of the string, or its absence, replaces the
    /// builder's. What the string holds that cannot be read is added to the
    /// builder's errors; the rest takes effect.
    pub fn parse(&mut self, filters: &str)
        ensures
            final(self)@.directives == declare_all(
                old(self)@.directives,
                parse_spec(filters.spec_bytes()).directives,
            ),
            final(self)@.pattern == parse_spec(filters.spec_bytes()).pattern,
            final(self)@.errors == old(self)@.errors + parse_spec(filters.spec_bytes()).errors,
            final(self)@.built == old(self)@.built,
    {
        let parsed = parse_spec_bytes(filters.as_bytes());
        let ghost spec = parse_spec(filters.spec_bytes());
        let ghost start = self@;
        let crate::directive::ParsedSpec { directives, pattern, errors } = parsed;
        self.pattern = pattern;
        let mut i: usize = 0;
        assert(spec.directives.skip(0) =~= spec.directives);
        while i < directives.len()
            invariant
                i <= directives.len(),
                directive_views(directives@) == spec.directives,
                declare_all(start.directives, spec.directives) == declare_all(
                    self@.directives,
                    spec.directives.skip(i as int),
                ),
                self@.pattern == spec.pattern,
                self@.errors == start.errors,
                self@.built == start.built,
            decreases directives.len() - i,
        {
            assert(spec.directives.skip(i as int).skip(1) =~= spec.directives.skip(i + 1));
            self.insert_directive(directives[i].clone());
            i += 1;
        }
        let mut j: usize = 0;
        while j < errors.len()
            invariant
                j <= errors.len(),
                error_views(errors@) == spec.errors,
                self@.directives == declare_all(start.directives, spec.directives),
                self@.pattern == spec.pattern,
                self@.errors == start.errors + spec.errors.take(j as int),
                self@.built == start.built,
            decreases errors.len() - j,
        {
            let e = &errors[j];
            let ghost before = error_views(self.errors@);
            self.errors.push(ParseError { kind: e.kind, text: e.text.clone() });
            assert(error_views(self.errors@) =~= before.push(e@));
            assert(spec.errors.take(j + 1) =~= spec.errors.take(j as int).push(e@));
            j += 1;
        }
        assert(spec.errors.take(errors.len() as int) =~= spec.errors);
    }

    /// Hands out what the directive strings read so far had to leave out, and
    /// forgets it.
    pub fn take_errors(&mut self) -> (errors: Vec<ParseError>)
        ensures
            error_views(errors@) == old(self)@.errors,
            final(self)@.errors == Seq::<ParseErrorView>::empty(),
            final(self)@.directives == old(self)@.directives,
            final(self)@.pattern == old(self)@.pattern,
            final(self)@.built == old(self)@.built,
    {
        let mut errors: Vec<ParseError> = Vec::new();
        std::mem::swap(&mut errors, &mut self.errors);
        assert(error_views(self.errors@) =~= Seq::<ParseErrorView>::empty());
        errors
    }

    /// Compiles what has been declared so far into a filter. The builder
    /// stays as it is.
    pub fn compile(&self) -> (f: Filter)
        ensures
            f@.directives == compile(self@.directives),
            f@.pattern == self@.pattern,
    {
        let ghost ds = directive_views(self.directives@);
        let mut compiled: Vec<Directive> = Vec::new();
        let mut max: LevelFilter = LevelFilter::Off;
        let mut i: usize = 0;
        assert(ds.take(0) =~= Seq::<DirectiveView>::empty());
        assert(directive_views(compiled@) =~= Seq::<DirectiveView>::empty());
        while i < self.directives.len()
            invariant
                i <= self.directives.len(),
                ds == directive_views(self.directives@),
                directive_views(compiled@) == compile(ds.take(i as int)),
                max == max_level(compile(ds.take(i as int))),
            decreases self.directives.len() - i,
        {
            let d = self.directives[i].clone();
            proof {
                assert(ds.take(i + 1).drop_last() =~= ds.take(i as int));
                assert(ds.take(i + 1).last() == d@);
                lemma_max_level_place(compile(ds.take(i as int)), d@);
            }
            max = max.or_higher(d.level);
            place_into(&mut compiled, d);
            i += 1;
        }
        proof {
            assert(ds.take(self.directives.len() as int) =~= ds);
            lemma_compile_sorted(ds);
        }
        let pattern = match &self.pattern {
            Some(p) => {
                let c = p.clone();
                assert(c@ =~= p@);
                Some(c)
            },
            None => None,
        };
        Filter { directives: compiled, max, pattern }
    }

    /// Compiles what was declared into a filter, and uses the builder up.
    pub fn build(&mut self) -> (f: Filter)
        requires
            !old(self)@.built,
        ensures
            f@.directives == compile(old(self)@.directives),
            f@.pattern == old(self)@.pattern,
            final(self)@.built,
            final(self)@.directives == Seq::<DirectiveView>::empty(),
            final(self)@.pattern is None,
            final(self)@.errors == old(self)@.errors,
    {
        let f = self.compile();
        self.built = true;
        self.directives = Vec::new();
        self.pattern = None;
        assert(directive_views(self.directives@) =~= Seq::<DirectiveView>::empty());
        f
    }
}

impl Filter {
    #[verifier::type_invariant]
    spec fn well_formed(self) -> bool {
        &&& sorted(directive_views(self.directives@))
        &&& self.max == max_level(directive_views(self.directives@))
    }

    /// The least restrictive level that the filter lets through for any target.
    pub fn filter(&self) -> (r: LevelFilter)
        ensures
            r == max_level(self@.directives),
    {
        proof {
            use_type_invariant(self);
        }
        self.max
    }

    /// Decides whether records for `target` at `level` are enabled.
    pub fn enabled(&self, target: &str, level: Level) -> (r: bool)
        ensures
            r == enabled(self@.directives, target.spec_bytes(), level),
    {
        let t = target.as_bytes();
        let ghost s = directive_views(self.directives@);
        proof {
            use_type_invariant(self);
            lemma_select_in_sorted(s, t@);
        }
        let mut i: usize = self.directives.len();
        assert(s.take(i as int) =~= s);
        while i > 0
            invariant
                i <= self.directives.len(),
                s == directive_views(self.directives@),
                s == self@.directives,
                t@ == target.spec_bytes(),
                select(s, t@) == last_applicable(s, t@),
                last_applicable(s, t@) == last_applicable(s.take(i as int), t@),
            decreases i,
        {
            assert(s.take(i as int).drop_last() =~= s.take(i - 1));
            assert(s.take(i as int).last() == s[i - 1]);
            i -= 1;
            assert(s[i as int] == self.directives@[i as int]@);
            if applies_to(&self.directives[i], t) {
                assert(last_applicable(s, t@) == Some(s[i as int]));
                return self.directives[i].level.passes(level);
            }
        }
        false
    }

    /// Decides whether a record passes the filter: it is enabled, and its
    /// message holds the content pattern if there is one. The pattern is not
    /// looked at for a record that is not enabled.
    pub fn matches(&self, target: &str, level: Level, message: &str) -> (r: bool)
        ensures
            r == accepts(
                self@.directives,
                self@.pattern,
                target.spec_bytes(),
                level,
                message.spec_bytes(),
            ),
    {
        if !self.enabled(target, level) {
            return false;
        }
        match &self.pattern {
            Some(p) => contains(message.as_bytes(), p.as_slice()),
            None => true,
        }
    }
}

/// The filter that a directive string stands for when it is read on its own:
/// its directives declared in the order they are written, compiled, with its
/// content pattern.
pub open spec fn filter_for(spec: Seq<u8>) -> FilterView {
    FilterView {
        directives: compile(declare_all(Seq::empty(), parse_spec(spec).directives)),
        pattern: parse_spec(spec).pattern,
    }
}

/// Reads a directive string and compiles it into a filter. What the string
/// holds that cannot be read comes back beside the filter; the rest is in it.
pub fn compile_filters(filters: &str) -> (r: (Filter, Vec<ParseError>))
    ensures
        r.0@ == filter_for(filters.spec_bytes()),
        error_views(r.1@) == parse_spec(filters.spec_bytes()).errors,
{
    let mut builder = Builder::new();
    builder.parse(filters);
    let errors = builder.take_errors();
    let filter = builder.build();
    assert(Seq::<ParseErrorView>::empty() + parse_spec(filters.spec_bytes()).errors
        =~= parse_spec(filters.spec_bytes()).errors);
    (filter, errors)
}

} // verus!
