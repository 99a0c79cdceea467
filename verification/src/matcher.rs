//! Classification of an event's hook-group list against a target command:
//! exact match, related (substring) match, and presence of unrelated groups.

use vstd::prelude::*;
use crate::model::{EntryView, GroupView, HookGroup, groups_view};
use crate::text::{contains_seq, str_contains, str_eq};

verus! {

/// The entry type this tool creates and recognizes.
pub open spec fn command_type() -> Seq<char> {
    "command"@
}

/// The entry is exactly the one this tool installs: type `"command"` and the
/// target command, character for character.
pub open spec fn entry_is_exact(e: EntryView, target: Seq<char>) -> bool {
    e.entry_type == command_type() && e.command == target
}

/// The group is exactly the one this tool installs: empty matcher and a
/// single exact entry.
pub open spec fn group_is_exact(g: GroupView, target: Seq<char>) -> bool {
    g.matcher.len() == 0 && g.entries.len() == 1 && entry_is_exact(g.entries[0], target)
}

/// Some group in the list is exactly the installed shape.
pub open spec fn spec_exact_match(gs: Seq<GroupView>, target: Seq<char>) -> bool {
    exists|i: int| 0 <= i < gs.len() && group_is_exact(gs[i], target)
}

/// The entry's command contains the target command as a substring.
pub open spec fn entry_related(e: EntryView, target: Seq<char>) -> bool {
    contains_seq(e.command, target)
}

/// The group holds at least one related entry.
pub open spec fn group_related(g: GroupView, target: Seq<char>) -> bool {
    exists|j: int| 0 <= j < g.entries.len() && entry_related(g.entries[j], target)
}

/// Some group in the list is related to the target command.
pub open spec fn spec_any_related(gs: Seq<GroupView>, target: Seq<char>) -> bool {
    exists|i: int| 0 <= i < gs.len() && group_related(gs[i], target)
}

/// Some group in the list holds no related entry at all: a foreign hook that
/// must be preserved.
pub open spec fn spec_has_unrelated(gs: Seq<GroupView>, target: Seq<char>) -> bool {
    exists|i: int| 0 <= i < gs.len() && !group_related(gs[i], target)
}

/// Whether this group is exactly the installed shape.
pub fn is_exact_group(g: &HookGroup, target: &str) -> (r: bool)
    ensures
        r == group_is_exact(g@, target@),
{
    if g.matcher.as_str().unicode_len() != 0 {
        return false;
    }
    if g.entries.len() != 1 {
        return false;
    }
    let e = &g.entries[0];
    let r = str_eq(e.entry_type.as_str(), "command") && str_eq(e.command.as_str(), target);
    assert(g@.entries[0] == g.entries@[0]@);
    r
}

/// Whether some group in the list is exactly the installed shape
/// (`IsExactMatch`).
pub fn is_exact_match(gs: &Vec<HookGroup>, target: &str) -> (r: bool)
    ensures
        r == spec_exact_match(groups_view(gs@), target@),
{
    let ghost gv = groups_view(gs@);
    let n = gs.len();
    let mut i: usize = 0;
    while i < n
        invariant
            n == gs@.len(),
            gv == groups_view(gs@),
            i <= n,
            forall|k: int| 0 <= k < i ==> !group_is_exact(gv[k], target@),
        decreases n - i,
    {
        if is_exact_group(&gs[i], target) {
            assert(gv[i as int] == gs@[i as int]@);
            return true;
        }
        assert(gv[i as int] == gs@[i as int]@);
        i = i + 1;
    }
    false
}

/// Whether this group holds an entry whose command contains the target.
pub fn group_contains_command(g: &HookGroup, target: &str) -> (r: bool)
    ensures
        r == group_related(g@, target@),
{
    let n = g.entries.len();
    let mut j: usize = 0;
    while j < n
        invariant
            n == g.entries@.len(),
            j <= n,
            forall|k: int| 0 <= k < j ==> !entry_related(g@.entries[k], target@),
        decreases n - j,
    {
        if str_contains(g.entries[j].command.as_str(), target) {
            assert(g@.entries[j as int] == g.entries@[j as int]@);
            return true;
        }
        assert(g@.entries[j as int] == g.entries@[j as int]@);
        j = j + 1;
    }
    false
}

/// Whether any group in the list is related to the target
/// (`AnyRelatedMatch`).
pub fn any_related_match(gs: &Vec<HookGroup>, target: &str) -> (r: bool)
    ensures
        r == spec_any_related(groups_view(gs@), target@),
{
    let ghost gv = groups_view(gs@);
    let n = gs.len();
    let mut i: usize = 0;
    while i < n
        invariant
            n == gs@.len(),
            gv == groups_view(gs@),
            i <= n,
            forall|k: int| 0 <= k < i ==> !group_related(gv[k], target@),
        decreases n - i,
    {
        if group_contains_command(&gs[i], target) {
            assert(gv[i as int] == gs@[i as int]@);
            return true;
        }
        assert(gv[i as int] == gs@[i as int]@);
        i = i + 1;
    }
    false
}

/// Whether any group in the list holds no related entry
/// (`HasUnrelatedGroups`).
pub fn has_unrelated_groups(gs: &Vec<HookGroup>, target: &str) -> (r: bool)
    ensures
        r == spec_has_unrelated(groups_view(gs@), target@),
{
    let ghost gv = groups_view(gs@);
    let n = gs.len();
    let mut i: usize = 0;
    while i < n
        invariant
            n == gs@.len(),
            gv == groups_view(gs@),
            i <= n,
            forall|k: int| 0 <= k < i ==> group_related(gv[k], target@),
        decreases n - i,
    {
        if !group_contains_command(&gs[i], target) {
            assert(gv[i as int] == gs@[i as int]@);
            return true;
        }
        assert(gv[i as int] == gs@[i as int]@);
        i = i + 1;
    }
    false
}

} // verus!
