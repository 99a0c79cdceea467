//! Laws of the reconciliation engine, stated and proved over the
//! specification-level run: idempotence, exact-match precision, preservation
//! of foreign hooks, the bound on when `Replace` can be selected, and
//! deduplication on `Append`.

use vstd::prelude::*;
use crate::engine::{
    canonical_view, doc_after_action, doc_groups_or_empty, keep_unrelated, spec_apply,
    spec_run, spec_setup_event,
};
use crate::matcher::{
    group_is_exact, group_related, spec_any_related, spec_exact_match, spec_has_unrelated,
};
use crate::model::{EventView, GroupView, doc_lookup, doc_set, doc_wf};
use crate::engine::BindingView;
use crate::resolve::{HookAction, HookSetupResult, PromptKind, Resolution, spec_resolve};
use crate::text::{contains_seq, occurs_at};

verus! {

/// Every sequence of characters contains itself.
pub proof fn lemma_contains_self(t: Seq<char>)
    ensures
        contains_seq(t, t),
{
    assert(t.subrange(0, t.len() as int) =~= t);
    assert(occurs_at(t, t, 0));
}

/// The canonical group is exact for its own target, and related to it.
pub proof fn lemma_canonical_exact(target: Seq<char>)
    ensures
        group_is_exact(canonical_view(target), target),
        group_related(canonical_view(target), target),
{
    lemma_contains_self(target);
    assert(canonical_view(target).entries[0].command == target);
}

/// An exact group is in particular a related group.
pub proof fn lemma_exact_is_related(g: GroupView, target: Seq<char>)
    requires
        group_is_exact(g, target),
    ensures
        group_related(g, target),
{
    lemma_contains_self(target);
    assert(g.entries[0].command == target);
}

/// Exact-match precision: a group is not exact as soon as its matcher is
/// non-empty, or it holds any number of entries other than one, or its one
/// entry's command differs from the target in any way, even as a
/// superstring or substring of it.
pub proof fn lemma_exact_match_precision(g: GroupView, target: Seq<char>)
    ensures
        g.matcher.len() != 0 ==> !group_is_exact(g, target),
        g.entries.len() != 1 ==> !group_is_exact(g, target),
        g.entries.len() == 1 && g.entries[0].command != target ==> !group_is_exact(g, target),
{
}

/// The bound on destructive replacement: the resolver only ever decides
/// `Replace` on its own when a related match exists and `force` or
/// `auto_approve` authorizes it; the only other road to `Replace` is an
/// explicit interactive choice, and the prompt that can yield it is only
/// raised when a related match exists. With only foreign groups present,
/// `Replace` is never decided without a prompt.
pub proof fn lemma_replace_bound(
    gs: Seq<GroupView>,
    target: Seq<char>,
    force: bool,
    auto_approve: bool,
)
    ensures
        spec_resolve(gs, target, force, auto_approve) == Resolution::Decided(HookAction::Replace)
            ==> spec_any_related(gs, target) && (force || auto_approve),
        spec_resolve(gs, target, force, auto_approve) == Resolution::NeedsPrompt(
            PromptKind::FixRelated,
        ) ==> spec_any_related(gs, target),
        !spec_any_related(gs, target) ==> spec_resolve(gs, target, force, auto_approve)
            != Resolution::Decided(HookAction::Replace),
{
}

/// The groups that survive deduplication are exactly the unrelated ones: a
/// subsequence of the original, each unrelated to the target.
pub proof fn lemma_keep_unrelated_elements(gs: Seq<GroupView>, target: Seq<char>)
    ensures
        forall|i: int|
            0 <= i < keep_unrelated(gs, target).len() ==> !group_related(
                #[trigger] keep_unrelated(gs, target)[i],
                target,
            ),
        keep_unrelated(gs, target).len() <= gs.len(),
    decreases gs.len(),
{
    if gs.len() > 0 {
        lemma_keep_unrelated_elements(gs.drop_last(), target);
    }
}

/// When no group is related, deduplication keeps everything, in order.
pub proof fn lemma_keep_unrelated_identity(gs: Seq<GroupView>, target: Seq<char>)
    requires
        forall|i: int| 0 <= i < gs.len() ==> !group_related(#[trigger] gs[i], target),
    ensures
        keep_unrelated(gs, target) == gs,
    decreases gs.len(),
{
    if gs.len() == 0 {
        assert(keep_unrelated(gs, target) =~= gs);
    } else {
        assert(forall|i: int|
            0 <= i < gs.drop_last().len() ==> !group_related(#[trigger] gs.drop_last()[i], target));
        lemma_keep_unrelated_identity(gs.drop_last(), target);
        assert(keep_unrelated(gs, target) =~= gs.drop_last().push(gs.last()));
        assert(gs.drop_last().push(gs.last()) =~= gs);
    }
}

/// The related groups of a list, in order: the complement of
/// `keep_unrelated`.
pub open spec fn keep_related(gs: Seq<GroupView>, target: Seq<char>) -> Seq<GroupView>
    decreases gs.len(),
{
    if gs.len() == 0 {
        Seq::empty()
    } else {
        let rest = keep_related(gs.drop_last(), target);
        if group_related(gs.last(), target) {
            rest.push(gs.last())
        } else {
            rest
        }
    }
}

/// A list with no related element has no related groups at all.
proof fn lemma_keep_related_empty(gs: Seq<GroupView>, target: Seq<char>)
    requires
        forall|i: int| 0 <= i < gs.len() ==> !group_related(#[trigger] gs[i], target),
    ensures
        keep_related(gs, target) == Seq::<GroupView>::empty(),
    decreases gs.len(),
{
    if gs.len() == 0 {
        assert(keep_related(gs, target) =~= Seq::<GroupView>::empty());
    } else {
        assert(forall|i: int|
            0 <= i < gs.drop_last().len() ==> !group_related(#[trigger] gs.drop_last()[i], target));
        lemma_keep_related_empty(gs.drop_last(), target);
    }
}

/// Deduplication on `Append`: however many stale related groups a list
/// holds, after an `Append` exactly one related group remains — the freshly
/// appended canonical one — and the unrelated groups are exactly those of
/// the original list, untouched and in order.
pub proof fn lemma_dedup_append(gs: Seq<GroupView>, target: Seq<char>)
    ensures
        keep_related(spec_apply(gs, target, HookAction::Append), target) == seq![
            canonical_view(target),
        ],
        keep_unrelated(spec_apply(gs, target, HookAction::Append), target) == keep_unrelated(
            gs,
            target,
        ),
{
    let kept = keep_unrelated(gs, target);
    let out = spec_apply(gs, target, HookAction::Append);
    lemma_canonical_exact(target);
    lemma_keep_unrelated_elements(gs, target);
    assert(out == kept.push(canonical_view(target)));
    assert(out.drop_last() =~= kept);
    assert(out.last() == canonical_view(target));
    lemma_keep_related_empty(kept, target);
    assert(keep_related(out, target) =~= seq![canonical_view(target)]);
    lemma_keep_unrelated_identity(kept, target);
}

/// Foreign-hook preservation: for an event whose groups are all unrelated to
/// the target (and at least one exists), without auto-approval the resolver
/// asks rather than touching anything, and when the prompt answers `Append`
/// the event's new list is exactly the old one with the canonical group
/// appended: every pre-existing group is present, unchanged, in its original
/// position, and the length grew by one.
pub proof fn lemma_foreign_preserved(
    d: Seq<EventView>,
    b: BindingView,
    force: bool,
)
    requires
        doc_wf(d),
        doc_groups_or_empty(d, b.event).len() > 0,
        forall|i: int|
            0 <= i < doc_groups_or_empty(d, b.event).len() ==> !group_related(
                #[trigger] doc_groups_or_empty(d, b.event)[i],
                b.command,
            ),
    ensures
        spec_resolve(doc_groups_or_empty(d, b.event), b.command, force, false)
            == Resolution::NeedsPrompt(PromptKind::OtherHooks),
        spec_setup_event(d, b, force, false, seq![HookAction::Append]) matches Option::Some((
            d2,
            outcome,
            used,
        )) && {
            &&& doc_lookup(d2, b.event) == Option::Some(
                doc_groups_or_empty(d, b.event).push(canonical_view(b.command)),
            )
            &&& outcome is Added
            &&& used == 1
        },
{
    let gs = doc_groups_or_empty(d, b.event);
    assert forall|i: int| 0 <= i < gs.len() implies !group_is_exact(#[trigger] gs[i], b.command) by {
        if group_is_exact(gs[i], b.command) {
            lemma_exact_is_related(gs[i], b.command);
        }
    }
    assert(!spec_exact_match(gs, b.command));
    assert(!spec_any_related(gs, b.command));
    assert(!group_related(gs[0], b.command));
    assert(spec_has_unrelated(gs, b.command));
    lemma_keep_unrelated_identity(gs, b.command);
    assert(spec_apply(gs, b.command, HookAction::Append) == gs.push(canonical_view(b.command)));
    crate::model::lemma_doc_set_index(d, b.event, spec_apply(gs, b.command, HookAction::Append));
}

/// `doc_set` on one name leaves every other name's lookup unchanged.
pub proof fn lemma_doc_set_lookup_other(
    d: Seq<EventView>,
    name: Seq<char>,
    gs: Seq<GroupView>,
    other: Seq<char>,
)
    requires
        other != name,
    ensures
        doc_lookup(doc_set(d, name, gs), other) == doc_lookup(d, other),
    decreases d.len(),
{
    if d.len() == 0 {
        assert(doc_set(d, name, gs) =~= seq![EventView { event: name, groups: gs }]);
        assert(doc_lookup(doc_set(d, name, gs), other) == doc_lookup(
            seq![EventView { event: name, groups: gs }].drop_first(),
            other,
        ));
        assert(seq![EventView { event: name, groups: gs }].drop_first() =~= d);
    } else if d[0].event == name {
        let d2 = doc_set(d, name, gs);
        assert(d2 == seq![EventView { event: name, groups: gs }] + d.drop_first());
        assert(d2[0].event == name);
        assert(d2.drop_first() =~= d.drop_first());
    } else {
        lemma_doc_set_lookup_other(d.drop_first(), name, gs, other);
        let d2 = doc_set(d, name, gs);
        assert(d2 == seq![d[0]] + doc_set(d.drop_first(), name, gs));
        assert(d2[0] == d[0]);
        assert(d2.drop_first() =~= doc_set(d.drop_first(), name, gs));
    }
}

/// A run over bindings that never mention an event leaves that event's
/// lookup unchanged.
pub proof fn lemma_run_preserves_other(
    d: Seq<EventView>,
    bs: Seq<BindingView>,
    force: bool,
    auto_approve: bool,
    script: Seq<HookAction>,
    other: Seq<char>,
)
    requires
        forall|i: int| 0 <= i < bs.len() ==> (#[trigger] bs[i]).event != other,
        spec_run(d, bs, force, auto_approve, script) is Some,
    ensures
        doc_lookup(spec_run(d, bs, force, auto_approve, script)->Some_0.0, other) == doc_lookup(
            d,
            other,
        ),
    decreases bs.len(),
{
    if bs.len() > 0 {
        let step = spec_setup_event(d, bs[0], force, auto_approve, script);
        let (d1, outcome, used) = step->Some_0;
        match spec_resolve(doc_groups_or_empty(d, bs[0].event), bs[0].command, force,
            auto_approve) {
            Resolution::AlreadyExists => {
                assert(d1 == d);
            },
            Resolution::Decided(a) => {
                lemma_after_action_lookup_other(d, bs[0], a, other);
            },
            Resolution::NeedsPrompt(_) => {
                lemma_after_action_lookup_other(d, bs[0], script[0], other);
            },
        }
        assert(doc_lookup(d1, other) == doc_lookup(d, other));
        assert(forall|i: int|
            0 <= i < bs.drop_first().len() ==> (#[trigger] bs.drop_first()[i]).event != other);
        lemma_run_preserves_other(d1, bs.drop_first(), force, auto_approve, script.skip(used),
            other);
    }
}

/// The outcomes of a run over a document that already holds every desired
/// binding: `AlreadyExists` for each.
pub open spec fn all_already_exists(n: nat) -> Seq<HookSetupResult> {
    Seq::new(n, |i: int| HookSetupResult::AlreadyExists)
}

/// A mutating action leaves an exact canonical group in the list.
proof fn lemma_apply_gives_exact(gs: Seq<GroupView>, target: Seq<char>, action: HookAction)
    requires
        action != HookAction::Skip,
    ensures
        spec_exact_match(spec_apply(gs, target, action), target),
{
    lemma_canonical_exact(target);
    let out = spec_apply(gs, target, action);
    assert(out.last() == canonical_view(target));
    assert(group_is_exact(out[out.len() - 1], target));
}

/// Idempotence: after a run in which no event was skipped, a second run with
/// the same desired bindings — whatever its flags, and with no prompt
/// answers at all — reports `AlreadyExists` for every event and leaves the
/// document identical.
pub proof fn lemma_idempotent(
    d: Seq<EventView>,
    bs: Seq<BindingView>,
    force: bool,
    auto_approve: bool,
    script: Seq<HookAction>,
    d1: Seq<EventView>,
    outs: Seq<HookSetupResult>,
    force2: bool,
    auto2: bool,
)
    requires
        doc_wf(d),
        forall|i: int, j: int| 0 <= i < j < bs.len() ==> bs[i].event != bs[j].event,
        spec_run(d, bs, force, auto_approve, script) == Option::Some((d1, outs)),
        forall|i: int| 0 <= i < outs.len() ==> outs[i] != HookSetupResult::Skipped,
    ensures
        spec_run(d1, bs, force2, auto2, Seq::empty()) == Option::Some(
            (d1, all_already_exists(bs.len())),
        ),
    decreases bs.len(),
{
    if bs.len() == 0 {
        assert(d1 == d);
        assert(all_already_exists(0) =~= Seq::<HookSetupResult>::empty());
    } else {
        let b = bs[0];
        let gs = doc_groups_or_empty(d, b.event);
        let step = spec_setup_event(d, b, force, auto_approve, script);
        let (da, o0, used) = step->Some_0;
        let rest = bs.drop_first();
        let outs1 = spec_run(da, rest, force, auto_approve, script.skip(used))->Some_0.1;
        assert(outs == seq![o0] + outs1);
        assert(o0 == outs[0]);
        assert(o0 != HookSetupResult::Skipped);
        let resolution = spec_resolve(gs, b.command, force, auto_approve);
        // The first event's groups hold an exact canonical group after the
        // step, and the step keeps the document well formed.
        match resolution {
            Resolution::AlreadyExists => {
                assert(da == d);
                assert(spec_exact_match(doc_groups_or_empty(da, b.event), b.command));
            },
            Resolution::Decided(a) => {
                assert(o0 == crate::engine::action_outcome(a));
                assert(a != HookAction::Skip);
                lemma_apply_gives_exact(gs, b.command, a);
                crate::model::lemma_doc_set_index(d, b.event, spec_apply(gs, b.command, a));
                crate::model::lemma_doc_set_wf(d, b.event, spec_apply(gs, b.command, a));
            },
            Resolution::NeedsPrompt(_) => {
                let a = script[0];
                assert(o0 == crate::engine::action_outcome(a));
                assert(a != HookAction::Skip);
                lemma_apply_gives_exact(gs, b.command, a);
                crate::model::lemma_doc_set_index(d, b.event, spec_apply(gs, b.command, a));
                crate::model::lemma_doc_set_wf(d, b.event, spec_apply(gs, b.command, a));
            },
        }
        assert(doc_wf(da));
        assert(spec_exact_match(doc_groups_or_empty(da, b.event), b.command));
        // The rest of the run does not touch the first event.
        assert(forall|i: int| 0 <= i < rest.len() ==> (#[trigger] rest[i]).event != b.event);
        lemma_run_preserves_other(da, rest, force, auto_approve, script.skip(used), b.event);
        assert(doc_lookup(d1, b.event) == doc_lookup(da, b.event));
        assert(doc_groups_or_empty(d1, b.event) == doc_groups_or_empty(da, b.event));
        // Induction over the remaining bindings.
        assert(forall|i: int, j: int|
            0 <= i < j < rest.len() ==> rest[i].event != rest[j].event);
        assert(forall|i: int| 0 <= i < outs1.len() ==> outs1[i] == outs[i + 1]);
        lemma_idempotent(da, rest, force, auto_approve, script.skip(used), d1, outs1, force2,
            auto2);
        // The second run sees the exact match first and recurses unchanged.
        assert(spec_resolve(doc_groups_or_empty(d1, b.event), b.command, force2, auto2)
            == Resolution::AlreadyExists);
        assert(spec_setup_event(d1, b, force2, auto2, Seq::empty()) == Option::Some(
            (d1, HookSetupResult::AlreadyExists, 0int),
        ));
        assert(Seq::<HookAction>::empty().skip(0) =~= Seq::<HookAction>::empty());
        assert(spec_run(d1, bs, force2, auto2, Seq::empty()) == Option::Some(
            (d1, seq![HookSetupResult::AlreadyExists] + all_already_exists(rest.len())),
        ));
        assert(seq![HookSetupResult::AlreadyExists] + all_already_exists(rest.len())
            =~= all_already_exists(bs.len()));
    }
}

/// An action applied to one event leaves every other event's lookup
/// unchanged.
proof fn lemma_after_action_lookup_other(
    d: Seq<EventView>,
    b: BindingView,
    action: HookAction,
    other: Seq<char>,
)
    requires
        b.event != other,
    ensures
        doc_lookup(doc_after_action(d, b.event, b.command, action), other) == doc_lookup(d, other),
{
    match action {
        HookAction::Skip => {
        },
        _ => {
            lemma_doc_set_lookup_other(
                d,
                b.event,
                spec_apply(doc_groups_or_empty(d, b.event), b.command, action),
                other,
            );
        },
    }
}

} // verus!
