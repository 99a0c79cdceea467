//! The conflict resolver: a fixed-order decision procedure that, for one
//! event's classification and the run flags, picks an action or defers to an
//! interactive prompt, and the parsing of a prompt answer.

use vstd::prelude::*;
use crate::model::{GroupView, HookGroup, groups_view};
use crate::matcher::{
    any_related_match, has_unrelated_groups, is_exact_match, spec_any_related, spec_exact_match,
    spec_has_unrelated,
};
use crate::text::{lower_of, str_eq, to_lowercase, trim, trimmed_of};

verus! {

/// What to do with an event's existing hook groups.
#[derive(Clone, Copy, Debug, PartialEq, Eq, Structural)]
pub enum HookAction {
    /// Replace every existing group with the canonical one.
    Replace,
    /// Append the canonical group, removing stale related groups first.
    Append,
    /// Leave the existing groups untouched.
    Skip,
}

/// Outcome reported for one event, consumed only by the run summary.
#[derive(Clone, Copy, Debug, PartialEq, Eq, Structural)]
pub enum HookSetupResult {
    /// The canonical hook was installed for this event.
    Added,
    /// The event was left untouched by choice.
    Skipped,
    /// The canonical hook was already in place; nothing was done.
    AlreadyExists,
}

/// Which question an interactive prompt must answer.
#[derive(Clone, Copy, Debug, PartialEq, Eq, Structural)]
pub enum PromptKind {
    /// A related but imperfect installation exists: fix the mismatched hook?
    FixRelated,
    /// Only foreign hooks exist: how to add alongside them?
    OtherHooks,
}

/// The resolver's verdict for one event.
#[derive(Clone, Copy, Debug, PartialEq, Eq, Structural)]
pub enum Resolution {
    /// The exact hook is already configured; stop, never prompt.
    AlreadyExists,
    /// An action was decided without interaction.
    Decided(HookAction),
    /// A prompt of the given kind must choose the action.
    NeedsPrompt(PromptKind),
}

/// The decision procedure, evaluated in this fixed order: exact match wins
/// and never prompts; a related match is replaced under `force` or
/// `auto_approve` and otherwise prompted; foreign-only groups are appended
/// under `auto_approve` and otherwise prompted; an empty list is appended
/// outright.
pub open spec fn spec_resolve(
    gs: Seq<GroupView>,
    target: Seq<char>,
    force: bool,
    auto_approve: bool,
) -> Resolution {
    if spec_exact_match(gs, target) {
        Resolution::AlreadyExists
    } else if spec_any_related(gs, target) {
        if force || auto_approve {
            Resolution::Decided(HookAction::Replace)
        } else {
            Resolution::NeedsPrompt(PromptKind::FixRelated)
        }
    } else if spec_has_unrelated(gs, target) {
        if auto_approve {
            Resolution::Decided(HookAction::Append)
        } else {
            Resolution::NeedsPrompt(PromptKind::OtherHooks)
        }
    } else {
        Resolution::Decided(HookAction::Append)
    }
}

/// Classify the list and decide, exactly as `spec_resolve` states.
pub fn resolve(gs: &Vec<HookGroup>, target: &str, force: bool, auto_approve: bool) -> (r:
    Resolution)
    ensures
        r == spec_resolve(groups_view(gs@), target@, force, auto_approve),
{
    if is_exact_match(gs, target) {
        Resolution::AlreadyExists
    } else if any_related_match(gs, target) {
        if force || auto_approve {
            Resolution::Decided(HookAction::Replace)
        } else {
            Resolution::NeedsPrompt(PromptKind::FixRelated)
        }
    } else if has_unrelated_groups(gs, target) {
        if auto_approve {
            Resolution::Decided(HookAction::Append)
        } else {
            Resolution::NeedsPrompt(PromptKind::OtherHooks)
        }
    } else {
        Resolution::Decided(HookAction::Append)
    }
}

/// The action a normalized (trimmed, lowercased) prompt answer selects, or
/// nothing when the answer is invalid and must be asked again.
pub open spec fn spec_choice(ans: Seq<char>) -> Option<HookAction> {
    if ans == "r"@ || ans == "replace"@ {
        Option::Some(HookAction::Replace)
    } else if ans == "a"@ || ans == "append"@ {
        Option::Some(HookAction::Append)
    } else if ans == "s"@ || ans == "skip"@ {
        Option::Some(HookAction::Skip)
    } else {
        Option::None
    }
}

/// Map a normalized answer to its action.
pub fn choice_of_answer(ans: &str) -> (r: Option<HookAction>)
    ensures
        r == spec_choice(ans@),
{
    if str_eq(ans, "r") || str_eq(ans, "replace") {
        Option::Some(HookAction::Replace)
    } else if str_eq(ans, "a") || str_eq(ans, "append") {
        Option::Some(HookAction::Append)
    } else if str_eq(ans, "s") || str_eq(ans, "skip") {
        Option::Some(HookAction::Skip)
    } else {
        Option::None
    }
}

/// Parse one raw line of prompt input: trim it, lowercase it, and map it to
/// an action; invalid input yields nothing and is re-prompted by the caller.
pub fn parse_prompt_answer(line: &str) -> (r: Option<HookAction>)
    ensures
        r == spec_choice(lower_of(trimmed_of(line@))),
{
    let trimmed = trim(line);
    let lowered = to_lowercase(trimmed);
    choice_of_answer(lowered.as_str())
}

} // verus!
