//! The reconciliation engine: the canonical hook group, the mutation rules
//! for each action, the per-event step, and a full run over a list of
//! desired bindings with a scripted prompt responder.

use vstd::prelude::*;
use crate::model::{
    EntryView, EventView, GroupView, HookEntry, HookGroup, SettingsHooks, doc_lookup, doc_set,
    groups_view,
};
use crate::matcher::{command_type, group_contains_command, group_related};
use crate::resolve::{HookAction, HookSetupResult, Resolution, resolve, spec_resolve};
use crate::errors::ConfigError;

verus! {

/// The single entry this tool installs for a target command.
pub open spec fn canonical_entry(target: Seq<char>) -> EntryView {
    EntryView { entry_type: command_type(), command: target }
}

/// The single group this tool installs: empty matcher, one command entry.
pub open spec fn canonical_view(target: Seq<char>) -> GroupView {
    GroupView { matcher: Seq::empty(), entries: seq![canonical_entry(target)] }
}

/// Build the canonical group for a target command.
pub fn canonical_group(target: &str) -> (g: HookGroup)
    ensures
        g@ == canonical_view(target@),
{
    let entry = HookEntry {
        entry_type: String::from_str("command"),
        command: String::from_str(target),
    };
    let mut entries: Vec<HookEntry> = Vec::new();
    entries.push(entry);
    let g = HookGroup { matcher: String::new(), entries };
    proof {
        assert(g@.entries =~= seq![canonical_entry(target@)]);
        assert(g@ =~= canonical_view(target@));
    }
    g
}

/// Copy of a hook entry, field for field.
pub fn copy_entry(e: &HookEntry) -> (r: HookEntry)
    ensures
        r@ == e@,
{
    HookEntry { entry_type: e.entry_type.clone(), command: e.command.clone() }
}

/// Copy of a hook group, entry for entry.
pub fn copy_group(g: &HookGroup) -> (r: HookGroup)
    ensures
        r@ == g@,
{
    let n = g.entries.len();
    let mut entries: Vec<HookEntry> = Vec::new();
    let mut j: usize = 0;
    while j < n
        invariant
            n == g.entries@.len(),
            j <= n,
            entries@.len() == j,
            forall|k: int| 0 <= k < j ==> entries@[k]@ == g.entries@[k]@,
        decreases n - j,
    {
        entries.push(copy_entry(&g.entries[j]));
        j = j + 1;
    }
    let r = HookGroup { matcher: g.matcher.clone(), entries };
    proof {
        assert(r@.entries =~= g@.entries);
        assert(r@ =~= g@);
    }
    r
}

/// The groups that survive deduplication before an append: every group
/// related to the target is removed, the rest keep their order.
pub open spec fn keep_unrelated(gs: Seq<GroupView>, target: Seq<char>) -> Seq<GroupView>
    decreases gs.len(),
{
    if gs.len() == 0 {
        Seq::empty()
    } else {
        let rest = keep_unrelated(gs.drop_last(), target);
        if group_related(gs.last(), target) {
            rest
        } else {
            rest.push(gs.last())
        }
    }
}

/// The group list after an action is applied: `Replace` installs the
/// canonical group alone, `Append` removes stale related groups and appends
/// the canonical one, `Skip` changes nothing.
pub open spec fn spec_apply(gs: Seq<GroupView>, target: Seq<char>, action: HookAction) -> Seq<
    GroupView,
> {
    match action {
        HookAction::Replace => seq![canonical_view(target)],
        HookAction::Append => keep_unrelated(gs, target).push(canonical_view(target)),
        HookAction::Skip => gs,
    }
}

/// Apply an action to one event's group list, producing the new list.
pub fn apply_action(gs: &Vec<HookGroup>, target: &str, action: HookAction) -> (r: Vec<HookGroup>)
    ensures
        groups_view(r@) == spec_apply(groups_view(gs@), target@, action),
{
    let ghost gv = groups_view(gs@);
    match action {
        HookAction::Replace => {
            let mut r: Vec<HookGroup> = Vec::new();
            r.push(canonical_group(target));
            proof {
                assert(groups_view(r@) =~= seq![canonical_view(target@)]);
            }
            r
        },
        HookAction::Skip => {
            let n = gs.len();
            let mut r: Vec<HookGroup> = Vec::new();
            let mut i: usize = 0;
            while i < n
                invariant
                    n == gs@.len(),
                    i <= n,
                    r@.len() == i,
                    forall|k: int| 0 <= k < i ==> r@[k]@ == gs@[k]@,
                decreases n - i,
            {
                r.push(copy_group(&gs[i]));
                i = i + 1;
            }
            proof {
                assert(groups_view(r@) =~= groups_view(gs@));
            }
            r
        },
        HookAction::Append => {
            let n = gs.len();
            let mut r: Vec<HookGroup> = Vec::new();
            let mut i: usize = 0;
            while i < n
                invariant
                    n == gs@.len(),
                    gv == groups_view(gs@),
                    i <= n,
                    groups_view(r@) == keep_unrelated(gv.subrange(0, i as int), target@),
                decreases n - i,
            {
                let ghost pre = gv.subrange(0, i as int);
                let ghost cur = gv.subrange(0, i + 1);
                let keep = !group_contains_command(&gs[i], target);
                if keep {
                    r.push(copy_group(&gs[i]));
                }
                proof {
                    assert(cur.drop_last() =~= pre);
                    assert(cur.last() == gv[i as int]);
                    assert(gv[i as int] == gs@[i as int]@);
                    if keep {
                        assert(groups_view(r@) =~= keep_unrelated(pre, target@).push(
                            gv[i as int],
                        ));
                    }
                }
                i = i + 1;
            }
            r.push(canonical_group(target));
            proof {
                assert(gv.subrange(0, n as int) =~= gv);
                assert(groups_view(r@) =~= keep_unrelated(gv, target@).push(
                    canonical_view(target@),
                ));
            }
            r
        },
    }
}

/// The group list an event currently has: its binding in the document, or
/// the empty list when the event is absent, which is treated identically.
pub open spec fn doc_groups_or_empty(d: Seq<EventView>, name: Seq<char>) -> Seq<GroupView> {
    match doc_lookup(d, name) {
        Option::Some(gs) => gs,
        Option::None => Seq::empty(),
    }
}

/// The outcome reported for an action: mutating actions report `Added`,
/// `Skip` reports `Skipped`.
pub open spec fn action_outcome(action: HookAction) -> HookSetupResult {
    match action {
        HookAction::Replace => HookSetupResult::Added,
        HookAction::Append => HookSetupResult::Added,
        HookAction::Skip => HookSetupResult::Skipped,
    }
}

/// The document after an action on one event: `Skip` leaves it untouched,
/// the mutating actions rebind the event to the applied group list.
pub open spec fn doc_after_action(
    d: Seq<EventView>,
    name: Seq<char>,
    target: Seq<char>,
    action: HookAction,
) -> Seq<EventView> {
    match action {
        HookAction::Skip => d,
        _ => doc_set(d, name, spec_apply(doc_groups_or_empty(d, name), target, action)),
    }
}

/// Resolve one event of the document against the target command.
pub fn resolve_event(
    doc: &SettingsHooks,
    event: &str,
    target: &str,
    force: bool,
    auto_approve: bool,
) -> (r: Resolution)
    ensures
        r == spec_resolve(doc_groups_or_empty(doc@, event@), target@, force, auto_approve),
{
    match doc.get_groups(event) {
        Option::Some(gs) => resolve(gs, target, force, auto_approve),
        Option::None => {
            let empty: Vec<HookGroup> = Vec::new();
            let r = resolve(&empty, target, force, auto_approve);
            proof {
                assert(groups_view(empty@) =~= Seq::<GroupView>::empty());
            }
            r
        },
    }
}

/// Apply a decided action to one event of the document and report the
/// outcome.
pub fn apply_event(
    doc: &mut SettingsHooks,
    event: &str,
    target: &str,
    action: HookAction,
) -> (r: HookSetupResult)
    requires
        old(doc).wf(),
    ensures
        final(doc).wf(),
        final(doc)@ == doc_after_action(old(doc)@, event@, target@, action),
        r == action_outcome(action),
{
    match action {
        HookAction::Skip => HookSetupResult::Skipped,
        _ => {
            let new_groups = match doc.get_groups(event) {
                Option::Some(gs) => apply_action(gs, target, action),
                Option::None => {
                    let empty: Vec<HookGroup> = Vec::new();
                    let r = apply_action(&empty, target, action);
                    proof {
                        assert(groups_view(empty@) =~= Seq::<GroupView>::empty());
                    }
                    r
                },
            };
            doc.set_groups(event, new_groups);
            HookSetupResult::Added
        },
    }
}

/// One desired binding: an event name and the command to install for it.
#[derive(Debug, Clone, PartialEq, Eq)]
pub struct Binding {
    pub event: String,
    pub command: String,
}

/// Mathematical view of a desired binding.
#[verifier::ext_equal]
pub ghost struct BindingView {
    pub event: Seq<char>,
    pub command: Seq<char>,
}

impl View for Binding {
    type V = BindingView;

    open spec fn view(&self) -> BindingView {
        BindingView { event: self.event@, command: self.command@ }
    }
}

/// View of a vector of bindings.
pub open spec fn bindings_view(bs: Seq<Binding>) -> Seq<BindingView> {
    bs.map_values(|b: Binding| b@)
}

/// One step of a run: resolve the event, let the script answer a prompt if
/// one is needed, and apply. Yields the new document, the outcome, and how
/// many script answers were consumed; yields nothing when an answer was
/// needed and the script was exhausted.
pub open spec fn spec_setup_event(
    d: Seq<EventView>,
    b: BindingView,
    force: bool,
    auto_approve: bool,
    script: Seq<HookAction>,
) -> Option<(Seq<EventView>, HookSetupResult, int)> {
    match spec_resolve(doc_groups_or_empty(d, b.event), b.command, force, auto_approve) {
        Resolution::AlreadyExists => Option::Some((d, HookSetupResult::AlreadyExists, 0)),
        Resolution::Decided(a) => Option::Some(
            (doc_after_action(d, b.event, b.command, a), action_outcome(a), 0),
        ),
        Resolution::NeedsPrompt(_) => if script.len() == 0 {
            Option::None
        } else {
            Option::Some(
                (
                    doc_after_action(d, b.event, b.command, script[0]),
                    action_outcome(script[0]),
                    1,
                ),
            )
        },
    }
}

/// A whole run: the bindings processed strictly in order, each prompt
/// answered by the next unconsumed script entry. Yields the final document
/// and the per-event outcomes, or nothing when the script ran out.
pub open spec fn spec_run(
    d: Seq<EventView>,
    bs: Seq<BindingView>,
    force: bool,
    auto_approve: bool,
    script: Seq<HookAction>,
) -> Option<(Seq<EventView>, Seq<HookSetupResult>)>
    decreases bs.len(),
{
    if bs.len() == 0 {
        Option::Some((d, Seq::empty()))
    } else {
        match spec_setup_event(d, bs[0], force, auto_approve, script) {
            Option::None => Option::None,
            Option::Some((d1, outcome, used)) => {
                match spec_run(d1, bs.drop_first(), force, auto_approve, script.skip(used)) {
                    Option::None => Option::None,
                    Option::Some((fd, outs)) => Option::Some((fd, seq![outcome] + outs)),
                }
            },
        }
    }
}

/// How many outcomes report `Added`.
pub open spec fn count_added(outs: Seq<HookSetupResult>) -> int
    decreases outs.len(),
{
    if outs.len() == 0 {
        0
    } else {
        count_added(outs.drop_last()) + if outs.last() is Added {
            1int
        } else {
            0int
        }
    }
}

/// The event names whose outcome was `Skipped`, in binding order.
pub open spec fn spec_skipped(bs: Seq<BindingView>, outs: Seq<HookSetupResult>) -> Seq<Seq<char>>
    decreases outs.len(),
{
    if outs.len() == 0 {
        Seq::empty()
    } else {
        spec_skipped(bs, outs.drop_last()) + if outs.last() is Skipped {
            seq![bs[outs.len() - 1].event]
        } else {
            Seq::empty()
        }
    }
}

/// The aggregate of one run: each event's outcome in binding order, the
/// number of hooks added, and the names of the skipped events.
#[derive(Debug, Clone, PartialEq, Eq)]
pub struct RunSummary {
    pub outcomes: Vec<HookSetupResult>,
    pub added: usize,
    pub skipped: Vec<String>,
}

/// Names of the skipped events, viewed as character sequences.
pub open spec fn names_view(ns: Seq<String>) -> Seq<Seq<char>> {
    ns.map_values(|n: String| n@)
}

/// Drive one full reconciliation pass over the desired bindings, in order,
/// against the in-memory document. Prompts are answered by the script, in
/// order; if an answer is needed beyond its end, the run aborts with
/// `PromptIo` and nothing is handed back to be persisted.
#[verifier::loop_isolation(false)]
pub fn run(
    doc: SettingsHooks,
    bindings: &Vec<Binding>,
    force: bool,
    auto_approve: bool,
    script: &Vec<HookAction>,
) -> (r: Result<(SettingsHooks, RunSummary), ConfigError>)
    requires
        doc.wf(),
    ensures
        match r {
            Result::Ok((d2, s)) => {
                &&& spec_run(doc@, bindings_view(bindings@), force, auto_approve, script@)
                    == Option::Some((d2@, s.outcomes@))
                &&& d2.wf()
                &&& s.added == count_added(s.outcomes@)
                &&& names_view(s.skipped@) == spec_skipped(bindings_view(bindings@), s.outcomes@)
            },
            Result::Err(e) => {
                &&& e is PromptIo
                &&& spec_run(doc@, bindings_view(bindings@), force, auto_approve, script@)
                    is None
            },
        },
{
    let ghost d0 = doc@;
    let ghost bv = bindings_view(bindings@);
    let ghost sv = script@;
    let mut doc = doc;
    let mut outcomes: Vec<HookSetupResult> = Vec::new();
    let mut added: usize = 0;
    let mut skipped: Vec<String> = Vec::new();
    let n = bindings.len();
    let mut i: usize = 0;
    let mut j: usize = 0;
    proof {
        assert(bv.skip(0) =~= bv);
        assert(sv.skip(0) =~= sv);
        assert forall|fd: Seq<EventView>, outs: Seq<HookSetupResult>|
            spec_run(doc@, #[trigger] bv.skip(0), force, auto_approve, sv.skip(0)) == Option::<(
                Seq<EventView>,
                Seq<HookSetupResult>,
            )>::Some((fd, outs)) implies spec_run(d0, bv, force, auto_approve, sv) == Option::<(
            Seq<EventView>,
            Seq<HookSetupResult>,
        )>::Some((fd, outcomes@ + outs)) by {
            assert(outcomes@ + outs =~= outs);
        }
    }
    while i < n
        invariant
            n == bindings@.len(),
            bv == bindings_view(bindings@),
            sv == script@,
            i <= n,
            j <= sv.len(),
            doc.wf(),
            outcomes@.len() == i,
            added == count_added(outcomes@),
            added <= i,
            names_view(skipped@) == spec_skipped(bv, outcomes@),
            forall|fd: Seq<EventView>, outs: Seq<HookSetupResult>|
                spec_run(doc@, #[trigger] bv.skip(i as int), force, auto_approve, sv.skip(j as int))
                    == Option::<(Seq<EventView>, Seq<HookSetupResult>)>::Some((fd, outs))
                    ==> spec_run(d0, bv, force, auto_approve, sv) == Option::<(
                    Seq<EventView>,
                    Seq<HookSetupResult>,
                )>::Some((fd, outcomes@ + outs)),
            spec_run(doc@, bv.skip(i as int), force, auto_approve, sv.skip(j as int)) is None
                ==> spec_run(d0, bv, force, auto_approve, sv) is None,
        decreases n - i,
    {
        let ghost pre_doc = doc@;
        let ghost rest = bv.skip(i as int);
        let ghost rest_script = sv.skip(j as int);
        let b = &bindings[i];
        proof {
            assert(rest[0] == bv[i as int]);
            assert(bv[i as int] == bindings@[i as int]@);
            assert(rest.drop_first() =~= bv.skip(i + 1));
        }
        let resolution = resolve_event(&doc, b.event.as_str(), b.command.as_str(), force,
            auto_approve);
        let action_opt: Option<HookAction> = match resolution {
            Resolution::AlreadyExists => Option::None,
            Resolution::Decided(a) => Option::Some(a),
            Resolution::NeedsPrompt(_) => {
                if j < script.len() {
                    let a = script[j];
                    j = j + 1;
                    Option::Some(a)
                } else {
                    proof {
                        assert(rest_script.len() == 0);
                        assert(spec_setup_event(pre_doc, bv[i as int], force, auto_approve,
                            rest_script) is None);
                        assert(spec_run(pre_doc, rest, force, auto_approve, rest_script) is None);
                    }
                    return Result::Err(ConfigError::PromptIo);
                }
            },
        };
        let ghost used: int = match resolution {
            Resolution::NeedsPrompt(_) => 1,
            _ => 0,
        };
        let outcome = match action_opt {
            Option::None => HookSetupResult::AlreadyExists,
            Option::Some(a) => apply_event(&mut doc, b.event.as_str(), b.command.as_str(), a),
        };
        proof {
            assert(spec_setup_event(pre_doc, bv[i as int], force, auto_approve, rest_script)
                == Option::Some((doc@, outcome, used)));
            assert(rest_script.skip(used) =~= sv.skip(j as int));
        }
        let ghost pre_outs = outcomes@;
        let ghost pre_skipped = skipped@;
        outcomes.push(outcome);
        if match outcome {
            HookSetupResult::Added => true,
            _ => false,
        } {
            added = added + 1;
        }
        if match outcome {
            HookSetupResult::Skipped => true,
            _ => false,
        } {
            skipped.push(String::from_str(b.event.as_str()));
        }
        proof {
            assert(outcomes@.drop_last() =~= pre_outs);
            assert(outcomes@.last() == outcome);
            assert(added == count_added(outcomes@));
            if outcome is Skipped {
                assert(skipped@.last()@ == bv[i as int].event);
                assert(names_view(skipped@) =~= names_view(pre_skipped) + seq![
                    bv[i as int].event,
                ]);
            } else {
                assert(names_view(skipped@) =~= names_view(pre_skipped));
            }
            assert(names_view(skipped@) =~= spec_skipped(bv, outcomes@));
            assert forall|fd: Seq<EventView>, outs: Seq<HookSetupResult>|
                spec_run(doc@, #[trigger] bv.skip(i + 1), force, auto_approve, sv.skip(j as int))
                    == Option::<(Seq<EventView>, Seq<HookSetupResult>)>::Some((
                fd,
                outs,
            )) implies spec_run(d0, bv, force, auto_approve, sv) == Option::<(
                Seq<EventView>,
                Seq<HookSetupResult>,
            )>::Some((fd, outcomes@ + outs)) by {
                assert(spec_run(pre_doc, rest, force, auto_approve, rest_script) == Option::<(
                    Seq<EventView>,
                    Seq<HookSetupResult>,
                )>::Some((fd, seq![outcome] + outs)));
                assert(outcomes@.drop_last() + (seq![outcome] + outs) =~= outcomes@ + outs);
            }
            if spec_run(doc@, bv.skip(i + 1), force, auto_approve, sv.skip(j as int)) is None {
                assert(spec_run(pre_doc, rest, force, auto_approve, rest_script) is None);
            }
        }
        i = i + 1;
    }
    proof {
        assert(bv.skip(n as int).len() == 0);
        assert(spec_run(doc@, bv.skip(n as int), force, auto_approve, sv.skip(j as int))
            == Option::<(Seq<EventView>, Seq<HookSetupResult>)>::Some((
            doc@,
            Seq::<HookSetupResult>::empty(),
        )));
        assert(outcomes@ + Seq::<HookSetupResult>::empty() =~= outcomes@);
    }
    let summary = RunSummary { outcomes, added, skipped };
    Result::Ok((doc, summary))
}

/// All hook configurations this tool installs: every supported event bound
/// to the trigger command.
pub fn get_all_hooks_config() -> (r: Vec<Binding>)
    ensures
        bindings_view(r@) =~= seq![
            BindingView { event: "UserPromptSubmit"@, command: "ccgadget trigger"@ },
            BindingView { event: "PreToolUse"@, command: "ccgadget trigger"@ },
            BindingView { event: "PostToolUse"@, command: "ccgadget trigger"@ },
            BindingView { event: "Notification"@, command: "ccgadget trigger"@ },
            BindingView { event: "Stop"@, command: "ccgadget trigger"@ },
        ],
{
    let mut r: Vec<Binding> = Vec::new();
    r.push(Binding {
        event: String::from_str("UserPromptSubmit"),
        command: String::from_str("ccgadget trigger"),
    });
    r.push(Binding {
        event: String::from_str("PreToolUse"),
        command: String::from_str("ccgadget trigger"),
    });
    r.push(Binding {
        event: String::from_str("PostToolUse"),
        command: String::from_str("ccgadget trigger"),
    });
    r.push(Binding {
        event: String::from_str("Notification"),
        command: String::from_str("ccgadget trigger"),
    });
    r.push(Binding {
        event: String::from_str("Stop"),
        command: String::from_str("ccgadget trigger"),
    });
    r
}

} // verus!
