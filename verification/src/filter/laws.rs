//! What holds of the filter's model: that compiling changes no answer, what
//! the walk over the directives selects, that the maximum level is a safe
//! gate, and that declaring directives is idempotent.

use super::{
    accepts, applies, compile, declare, declare_all, enabled, filter_for, higher,
    last_applicable, max_level, place, position_of, select, sorted, specificity, FilterView,
};
use crate::directive::DirectiveView;
use crate::level::{Level, LevelFilter};
use vstd::prelude::*;

verus! {

proof fn lemma_last_applicable_bound(s: Seq<DirectiveView>, target: Seq<u8>, k: nat)
    requires
        forall|i: int| 0 <= i < s.len() ==> specificity(s[i]) <= k,
    ensures
        last_applicable(s, target) is Some ==> specificity(last_applicable(s, target).unwrap())
            <= k,
    decreases s.len(),
{
    if s.len() != 0 && !applies(s.last(), target) {
        lemma_last_applicable_bound(s.drop_last(), target, k);
    }
}

/// In a sorted list the selected directive is the last that applies.
pub proof fn lemma_select_in_sorted(s: Seq<DirectiveView>, target: Seq<u8>)
    requires
        sorted(s),
    ensures
        select(s, target) == last_applicable(s, target),
    decreases s.len(),
{
    if s.len() != 0 {
        let front = s.drop_last();
        lemma_select_in_sorted(front, target);
        lemma_last_applicable_bound(front, target, specificity(s.last()));
    }
}

proof fn lemma_place_bound(s: Seq<DirectiveView>, d: DirectiveView, k: nat)
    requires
        specificity(d) <= k,
        forall|i: int| 0 <= i < s.len() ==> specificity(s[i]) <= k,
    ensures
        place(s, d).len() == s.len() + 1,
        forall|i: int| 0 <= i < place(s, d).len() ==> specificity(#[trigger] place(s, d)[i]) <= k,
    decreases s.len(),
{
    if s.len() != 0 && specificity(s.last()) > specificity(d) {
        let front = s.drop_last();
        assert forall|i: int| 0 <= i < front.len() implies specificity(front[i]) <= k by {
            assert(front[i] == s[i]);
        }
        lemma_place_bound(front, d, k);
    }
}

/// Placing a directive keeps a sorted list sorted.
pub proof fn lemma_place_sorted(s: Seq<DirectiveView>, d: DirectiveView)
    requires
        sorted(s),
    ensures
        sorted(place(s, d)),
        place(s, d).len() == s.len() + 1,
    decreases s.len(),
{
    if s.len() != 0 && specificity(s.last()) > specificity(d) {
        let front = s.drop_last();
        let bound = specificity(s.last());
        assert forall|m: int| 0 <= m < front.len() implies specificity(front[m]) <= bound by {
            assert(front[m] == s[m]);
        }
        lemma_place_sorted(front, d);
        lemma_place_bound(front, d, bound);
        let p = place(front, d);
        let r = p.push(s.last());
        assert forall|i: int, j: int| 0 <= i <= j < r.len() implies specificity(r[i])
            <= specificity(r[j]) by {
            if j == p.len() && i < p.len() {
                assert(specificity(p[i]) <= bound);
            }
        }
    }
}

/// The compiled order is sorted and leaves no directive out.
pub proof fn lemma_compile_sorted(ds: Seq<DirectiveView>)
    ensures
        sorted(compile(ds)),
        compile(ds).len() == ds.len(),
    decreases ds.len(),
{
    if ds.len() != 0 {
        lemma_compile_sorted(ds.drop_last());
        lemma_place_sorted(compile(ds.drop_last()), ds.last());
    }
}

proof fn lemma_last_applicable_place(s: Seq<DirectiveView>, d: DirectiveView, target: Seq<u8>)
    requires
        sorted(s),
    ensures
        last_applicable(place(s, d), target) == if applies(d, target) && (last_applicable(
            s,
            target,
        ) is None || specificity(last_applicable(s, target).unwrap()) <= specificity(d)) {
            Some(d)
        } else {
            last_applicable(s, target)
        },
    decreases s.len(),
{
    if s.len() == 0 {
        assert(seq![d].drop_last() =~= s);
    } else if specificity(s.last()) <= specificity(d) {
        assert(s.push(d).drop_last() =~= s);
        lemma_last_applicable_bound(s, target, specificity(d));
    } else {
        let front = s.drop_last();
        let p = place(front, d);
        assert(p.push(s.last()).drop_last() =~= p);
        lemma_last_applicable_place(front, d, target);
    }
}

/// Compiling does not change which directive decides: looking a target up in
/// the compiled order gives what the walk over the declared order gives.
pub proof fn law_compiled_select(ds: Seq<DirectiveView>, target: Seq<u8>)
    ensures
        select(compile(ds), target) == select(ds, target),
    decreases ds.len(),
{
    lemma_compile_sorted(ds);
    lemma_select_in_sorted(compile(ds), target);
    if ds.len() != 0 {
        let front = ds.drop_last();
        law_compiled_select(front, target);
        lemma_compile_sorted(front);
        lemma_select_in_sorted(compile(front), target);
        lemma_last_applicable_place(compile(front), ds.last(), target);
    }
}

/// The compiled filter is equivalent to the walk over the declared
/// directives: for every target and level both give the same answer.
pub proof fn law_compiled_agrees_with_scan(ds: Seq<DirectiveView>, target: Seq<u8>, level: Level)
    ensures
        enabled(compile(ds), target, level) == enabled(ds, target, level),
{
    law_compiled_select(ds, target);
}

/// What the walk selects, said without the walk: a directive that applies,
/// such that every other one that applies is less specific, or equally
/// specific and declared earlier. Nothing is selected exactly when no directive
/// applies.
pub proof fn law_select_is_longest_last(ds: Seq<DirectiveView>, target: Seq<u8>)
    ensures
        select(ds, target) is None <==> forall|j: int| 0 <= j < ds.len() ==> !applies(ds[j], target),
        select(ds, target) is Some ==> exists|i: int|
            {
                &&& 0 <= i < ds.len()
                &&& #[trigger] ds[i] == select(ds, target).unwrap()
                &&& applies(ds[i], target)
                &&& forall|j: int|
                    0 <= j < ds.len() && applies(ds[j], target) ==> specificity(ds[j])
                        < specificity(ds[i]) || (specificity(ds[j]) == specificity(ds[i]) && j
                        <= i)
            },
    decreases ds.len(),
{
    if ds.len() != 0 {
        let front = ds.drop_last();
        let last = ds.len() - 1;
        law_select_is_longest_last(front, target);
        assert forall|j: int| 0 <= j < front.len() implies front[j] == ds[j] by {}
        let earlier = select(front, target);
        if applies(ds.last(), target) && (earlier is None || specificity(earlier.unwrap())
            <= specificity(ds.last())) {
            assert(ds[last] == select(ds, target).unwrap());
            if earlier is Some {
                let w = choose|i: int|
                    {
                        &&& 0 <= i < front.len()
                        &&& #[trigger] front[i] == earlier.unwrap()
                        &&& applies(front[i], target)
                        &&& forall|j: int|
                            0 <= j < front.len() && applies(front[j], target) ==> specificity(
                                front[j],
                            ) < specificity(front[i]) || (specificity(front[j]) == specificity(
                                front[i],
                            ) && j <= i)
                    };
                assert forall|j: int| 0 <= j < ds.len() && applies(ds[j], target) implies specificity(
                    ds[j],
                ) < specificity(ds[last]) || (specificity(ds[j]) == specificity(ds[last]) && j
                    <= last) by {
                    if j < last {
                        assert(front[j] == ds[j]);
                    }
                }
            } else {
                assert forall|j: int| 0 <= j < ds.len() && applies(ds[j], target) implies j
                    == last by {
                    if j < last {
                        assert(front[j] == ds[j]);
                    }
                }
            }
        } else if earlier is Some {
            let w = choose|i: int|
                {
                    &&& 0 <= i < front.len()
                    &&& #[trigger] front[i] == earlier.unwrap()
                    &&& applies(front[i], target)
                    &&& forall|j: int|
                        0 <= j < front.len() && applies(front[j], target) ==> specificity(front[j])
                            < specificity(front[i]) || (specificity(front[j]) == specificity(
                            front[i],
                        ) && j <= i)
                };
            assert(ds[w] == select(ds, target).unwrap());
            assert forall|j: int| 0 <= j < ds.len() && applies(ds[j], target) implies specificity(
                ds[j],
            ) < specificity(ds[w]) || (specificity(ds[j]) == specificity(ds[w]) && j <= w) by {
                if j < last {
                    assert(front[j] == ds[j]);
                }
            }
        } else {
            assert forall|j: int| 0 <= j < ds.len() implies !applies(ds[j], target) by {
                if j < last {
                    assert(front[j] == ds[j]);
                }
            }
        }
    }
}

pub(crate) proof fn lemma_max_level_place(s: Seq<DirectiveView>, d: DirectiveView)
    ensures
        max_level(place(s, d)) == higher(max_level(s), d.level),
    decreases s.len(),
{
    if s.len() == 0 {
        assert(seq![d].drop_last() =~= s);
    } else if specificity(s.last()) <= specificity(d) {
        assert(s.push(d).drop_last() =~= s);
    } else {
        let front = s.drop_last();
        let p = place(front, d);
        assert(p.push(s.last()).drop_last() =~= p);
        lemma_max_level_place(front, d);
    }
}

/// Compiling does not change the least restrictive level.
pub proof fn law_compiled_max_level(ds: Seq<DirectiveView>)
    ensures
        max_level(compile(ds)) == max_level(ds),
    decreases ds.len(),
{
    if ds.len() != 0 {
        law_compiled_max_level(ds.drop_last());
        lemma_max_level_place(compile(ds.drop_last()), ds.last());
    }
}

proof fn lemma_max_level_bounds(ds: Seq<DirectiveView>, i: int)
    requires
        0 <= i < ds.len(),
    ensures
        ds[i].level.severity() <= max_level(ds).severity(),
    decreases ds.len(),
{
    if i < ds.len() - 1 {
        lemma_max_level_bounds(ds.drop_last(), i);
    }
}

/// The least restrictive level is a safe gate: a record that it turns away is
/// enabled for no target.
pub proof fn law_max_level_is_a_gate(ds: Seq<DirectiveView>, target: Seq<u8>, level: Level)
    requires
        enabled(ds, target, level),
    ensures
        max_level(ds).allows(level),
{
    law_select_is_longest_last(ds, target);
    let i = choose|i: int| 0 <= i < ds.len() && #[trigger] ds[i] == select(ds, target).unwrap();
    lemma_max_level_bounds(ds, i);
}

/// A record that is enabled stays enabled when it is made more severe.
pub proof fn law_more_severe_still_enabled(
    ds: Seq<DirectiveView>,
    target: Seq<u8>,
    level: Level,
    more_severe: Level,
)
    requires
        enabled(ds, target, level),
        more_severe.severity() <= level.severity(),
    ensures
        enabled(ds, target, more_severe),
{
}

/// A directive at `Off` lets nothing through for the targets it decides.
pub proof fn law_off_disables(ds: Seq<DirectiveView>, target: Seq<u8>, level: Level)
    requires
        select(ds, target) is Some,
        select(ds, target).unwrap().level == LevelFilter::Off,
    ensures
        !enabled(ds, target, level),
{
}

/// Whether no two directives of the list have the same name.
pub open spec fn names_apart(ds: Seq<DirectiveView>) -> bool {
    forall|i: int, j: int| 0 <= i < j < ds.len() ==> ds[i].name != ds[j].name
}

/// What `position_of` means: it stays in range, no directive before it has
/// the name, and unless it ran off the end the directive there has it.
pub proof fn lemma_position_of(ds: Seq<DirectiveView>, name: Option<Seq<u8>>)
    ensures
        0 <= position_of(ds, name) <= ds.len(),
        forall|j: int| 0 <= j < position_of(ds, name) ==> ds[j].name != name,
        position_of(ds, name) < ds.len() ==> ds[position_of(ds, name)].name == name,
    decreases ds.len(),
{
    if ds.len() != 0 && ds[0].name != name {
        let rest = ds.skip(1);
        lemma_position_of(rest, name);
        let r = position_of(rest, name);
        assert forall|j: int| 0 <= j < 1 + r implies ds[j].name != name by {
            if j > 0 {
                assert(rest[j - 1] == ds[j]);
            }
        }
        if 1 + r < ds.len() {
            assert(rest[r] == ds[1 + r]);
        }
    }
}

/// Declaring a directive never brings a name into the list twice: the new
/// directive takes the place of the one with its name.
pub proof fn law_declare_keeps_names_apart(ds: Seq<DirectiveView>, d: DirectiveView)
    requires
        names_apart(ds),
    ensures
        names_apart(declare(ds, d)),
        declare(ds, d).len() == if position_of(ds, d.name) < ds.len() {
            ds.len()
        } else {
            ds.len() + 1
        },
        exists|i: int| 0 <= i < declare(ds, d).len() && declare(ds, d)[i] == d,
{
    lemma_position_of(ds, d.name);
    let p = position_of(ds, d.name);
    let r = declare(ds, d);
    assert(r[p] == d);
    assert forall|i: int, j: int| 0 <= i < j < r.len() implies r[i].name != r[j].name by {
        if p < ds.len() {
            assert(r[i].name == ds[i].name);
            assert(r[j].name == ds[j].name);
        } else if j < ds.len() {
            assert(r[i] == ds[i] && r[j] == ds[j]);
        } else {
            assert(r[i] == ds[i]);
        }
    }
}

/// Declaring any number of directives keeps the names apart. A list that was
/// built from nothing in this way therefore holds no name twice.
pub proof fn law_declared_names_are_apart(ds: Seq<DirectiveView>, more: Seq<DirectiveView>)
    requires
        names_apart(ds),
    ensures
        names_apart(declare_all(ds, more)),
    decreases more.len(),
{
    if more.len() != 0 {
        law_declare_keeps_names_apart(ds, more[0]);
        law_declared_names_are_apart(declare(ds, more[0]), more.skip(1));
    }
}

/// The last directive of the list that has the name `name`.
pub open spec fn last_named(p: Seq<DirectiveView>, name: Option<Seq<u8>>) -> Option<DirectiveView>
    decreases p.len(),
{
    if p.len() == 0 {
        None
    } else if p.last().name == name {
        Some(p.last())
    } else {
        last_named(p.drop_last(), name)
    }
}

proof fn lemma_last_named_skip(p: Seq<DirectiveView>, name: Option<Seq<u8>>)
    requires
        p.len() > 0,
    ensures
        last_named(p, name) == if last_named(p.skip(1), name) is Some {
            last_named(p.skip(1), name)
        } else if p[0].name == name {
            Some(p[0])
        } else {
            None
        },
    decreases p.len(),
{
    if p.len() == 1 {
        assert(p.skip(1).len() == 0);
        assert(p.drop_last().len() == 0);
    } else {
        let tail = p.skip(1);
        assert(tail.last() == p.last());
        assert(tail.drop_last() =~= p.drop_last().skip(1));
        assert(p.drop_last()[0] == p[0]);
        if p.last().name != name {
            lemma_last_named_skip(p.drop_last(), name);
        }
    }
}

/// Declaring a directive changes neither the place nor the bearer of any other
/// name.
proof fn lemma_declare_elsewhere(ds: Seq<DirectiveView>, d: DirectiveView, name: Option<Seq<u8>>)
    requires
        d.name != name,
    ensures
        position_of(ds, name) < ds.len() ==> position_of(declare(ds, d), name) == position_of(
            ds,
            name,
        ) && declare(ds, d)[position_of(ds, name)] == ds[position_of(ds, name)],
{
    lemma_position_of(ds, name);
    lemma_position_of(ds, d.name);
    let r = declare(ds, d);
    let q = position_of(ds, name);
    if q < ds.len() {
        assert(r[q] == ds[q]);
        assert forall|j: int| 0 <= j < q implies r[j].name != name by {
            assert(r[j].name == ds[j].name);
        }
        lemma_position_is(r, name, q);
    }
}

/// The three properties of `lemma_position_of` determine the position.
proof fn lemma_position_is(ds: Seq<DirectiveView>, name: Option<Seq<u8>>, i: int)
    requires
        0 <= i <= ds.len(),
        forall|j: int| 0 <= j < i ==> ds[j].name != name,
        i < ds.len() ==> ds[i].name == name,
    ensures
        position_of(ds, name) == i,
{
    lemma_position_of(ds, name);
    let r = position_of(ds, name);
    if r < i {
        assert(ds[r].name != name);
    } else if i < r {
        assert(ds[i].name == name);
    }
}

/// After declaring `d`, the first directive with its name is `d`.
proof fn lemma_declare_here(ds: Seq<DirectiveView>, d: DirectiveView)
    ensures
        position_of(declare(ds, d), d.name) < declare(ds, d).len(),
        declare(ds, d)[position_of(declare(ds, d), d.name)] == d,
{
    lemma_position_of(ds, d.name);
    let q = position_of(ds, d.name);
    let r = declare(ds, d);
    assert(r[q] == d);
    assert forall|j: int| 0 <= j < q implies r[j].name != d.name by {
        assert(r[j] == ds[j]);
    }
    lemma_position_is(r, d.name, q);
}

/// Directives that do not bear the name leave its first bearer where and as
/// it is.
proof fn lemma_declare_all_elsewhere(
    ds: Seq<DirectiveView>,
    more: Seq<DirectiveView>,
    name: Option<Seq<u8>>,
)
    requires
        last_named(more, name) is None,
        position_of(ds, name) < ds.len(),
    ensures
        position_of(declare_all(ds, more), name) == position_of(ds, name),
        position_of(ds, name) < declare_all(ds, more).len(),
        declare_all(ds, more)[position_of(ds, name)] == ds[position_of(ds, name)],
    decreases more.len(),
{
    lemma_position_of(ds, name);
    if more.len() != 0 {
        lemma_last_named_skip(more, name);
        lemma_declare_elsewhere(ds, more[0], name);
        lemma_position_of(declare(ds, more[0]), name);
        lemma_declare_all_elsewhere(declare(ds, more[0]), more.skip(1), name);
    }
}

/// Whether the list already says what `p` says: for each name that occurs in
/// `p`, its first bearer in the list is the last directive of `p` with that
/// name.
pub open spec fn settled(r: Seq<DirectiveView>, p: Seq<DirectiveView>) -> bool {
    forall|name: Option<Seq<u8>>| #[trigger]
        last_named(p, name) is Some ==> position_of(r, name) < r.len() && r[position_of(r, name)]
            == last_named(p, name).unwrap()
}

/// Once directives have been declared, the list says what they say.
pub proof fn lemma_declared_is_settled(ds: Seq<DirectiveView>, p: Seq<DirectiveView>)
    ensures
        settled(declare_all(ds, p), p),
    decreases p.len(),
{
    let r = declare_all(ds, p);
    if p.len() != 0 {
        let first = declare(ds, p[0]);
        let tail = p.skip(1);
        lemma_declared_is_settled(first, tail);
        assert forall|name: Option<Seq<u8>>| #[trigger]
            last_named(p, name) is Some implies position_of(r, name) < r.len() && r[position_of(
            r,
            name,
        )] == last_named(p, name).unwrap() by {
            lemma_last_named_skip(p, name);
            if last_named(tail, name) is None {
                lemma_declare_here(ds, p[0]);
                lemma_declare_all_elsewhere(first, tail, name);
            }
        }
    }
}

proof fn lemma_settling(r: Seq<DirectiveView>, now: Seq<DirectiveView>, q: Seq<DirectiveView>)
    requires
        settled(r, q),
        now.len() == r.len(),
        forall|i: int| 0 <= i < r.len() ==> now[i].name == r[i].name,
        forall|i: int|
            0 <= i < r.len() && now[i] != r[i] ==> i == position_of(r, r[i].name) && last_named(
                q,
                r[i].name,
            ) is Some,
    ensures
        declare_all(now, q) == r,
    decreases q.len(),
{
    if q.len() == 0 {
        assert(now =~= r);
    } else {
        let d = q[0];
        let tail = q.skip(1);
        lemma_last_named_skip(q, d.name);
        assert(last_named(q, d.name) is Some);
        lemma_position_of(r, d.name);
        let at = position_of(r, d.name);
        assert forall|j: int| 0 <= j < at implies now[j].name != d.name by {
            assert(now[j].name == r[j].name);
        }
        lemma_position_is(now, d.name, at);
        let next = declare(now, d);
        assert(next == now.update(at, d));
        assert forall|name: Option<Seq<u8>>| #[trigger]
            last_named(tail, name) is Some implies position_of(r, name) < r.len() && r[position_of(
            r,
            name,
        )] == last_named(tail, name).unwrap() by {
            lemma_last_named_skip(q, name);
        }
        assert forall|i: int| 0 <= i < r.len() && next[i] != r[i] implies i == position_of(
            r,
            r[i].name,
        ) && last_named(tail, r[i].name) is Some by {
            lemma_last_named_skip(q, r[i].name);
            if i == at {
                if last_named(tail, d.name) is None {
                    assert(r[at] == d);
                }
            } else {
                assert(next[i] == now[i]);
                if r[i].name == d.name {
                    assert(position_of(r, r[i].name) == at);
                }
            }
        }
        lemma_settling(r, next, tail);
    }
}

/// Declaring the same directives a second time changes nothing: the list is
/// then as it was after the first time.
pub proof fn law_declaring_again_changes_nothing(ds: Seq<DirectiveView>, p: Seq<DirectiveView>)
    ensures
        declare_all(declare_all(ds, p), p) == declare_all(ds, p),
{
    let r = declare_all(ds, p);
    lemma_declared_is_settled(ds, p);
    lemma_settling(r, r, p);
}

/// Reading the same directive string twice gives filters that agree on every
/// target and level, and on every message.
pub proof fn law_same_string_same_answers(
    spec: Seq<u8>,
    first: FilterView,
    second: FilterView,
    target: Seq<u8>,
    level: Level,
    message: Seq<u8>,
)
    requires
        first == filter_for(spec),
        second == filter_for(spec),
    ensures
        enabled(first.directives, target, level) == enabled(second.directives, target, level),
        accepts(first.directives, first.pattern, target, level, message) == accepts(
            second.directives,
            second.pattern,
            target,
            level,
            message,
        ),
{
}

} // verus!
