use ccgadget_hooks::matcher::{
    any_related_match, group_contains_command, has_unrelated_groups, is_exact_group,
    is_exact_match,
};
use ccgadget_hooks::model::{HookEntry, HookGroup};
use ccgadget_hooks::text::{str_contains, str_eq, str_starts_with};

const TARGET: &str = "ccgadget trigger";

fn entry(entry_type: &str, command: &str) -> HookEntry {
    HookEntry { entry_type: entry_type.to_string(), command: command.to_string() }
}

fn group(matcher: &str, commands: &[&str]) -> HookGroup {
    HookGroup {
        matcher: matcher.to_string(),
        entries: commands.iter().map(|c| entry("command", c)).collect(),
    }
}

#[test]
fn exact_group_recognizes_canonical_shape() {
    assert!(is_exact_group(&group("", &[TARGET]), TARGET));
}

#[test]
fn exact_group_rejects_nonempty_matcher() {
    assert!(!is_exact_group(&group("*.py", &[TARGET]), TARGET));
    assert!(!is_exact_group(&group(" ", &[TARGET]), TARGET));
}

#[test]
fn exact_group_rejects_two_entries() {
    assert!(!is_exact_group(&group("", &[TARGET, TARGET]), TARGET));
    assert!(!is_exact_group(&group("", &[]), TARGET));
}

#[test]
fn exact_group_rejects_command_off_by_one() {
    assert!(!is_exact_group(&group("", &["ccgadget trigge"]), TARGET));
    assert!(!is_exact_group(&group("", &["ccgadget triggers"]), TARGET));
    // superstring and substring of the target are not exact
    assert!(!is_exact_group(&group("", &["run ccgadget trigger"]), TARGET));
    assert!(!is_exact_group(&group("", &["ccgadget"]), TARGET));
}

#[test]
fn exact_group_rejects_wrong_entry_type() {
    let g = HookGroup { matcher: String::new(), entries: vec![entry("script", TARGET)] };
    assert!(!is_exact_group(&g, TARGET));
}

#[test]
fn exact_match_searches_whole_list() {
    let gs = vec![group("*.py", &["lint.sh"]), group("", &[TARGET])];
    assert!(is_exact_match(&gs, TARGET));
    let gs2 = vec![group("*.py", &["lint.sh"])];
    assert!(!is_exact_match(&gs2, TARGET));
    assert!(!is_exact_match(&Vec::new(), TARGET));
}

#[test]
fn related_match_is_substring_containment() {
    // containment, not equality: a superstring of the target is related
    assert!(group_contains_command(&group("", &["run ccgadget trigger --now"]), TARGET));
    assert!(group_contains_command(&group("x", &[TARGET]), TARGET));
    // a proper substring of the target is not related
    assert!(!group_contains_command(&group("", &["ccgadget"]), TARGET));
    assert!(!group_contains_command(&group("", &["lint.sh"]), TARGET));
    assert!(!group_contains_command(&group("", &[]), TARGET));
}

#[test]
fn any_related_match_searches_all_entries() {
    let gs = vec![
        group("", &["lint.sh"]),
        group("*.rs", &["fmt", "old ccgadget trigger cmd"]),
    ];
    assert!(any_related_match(&gs, TARGET));
    let gs2 = vec![group("", &["lint.sh"]), group("*.rs", &["fmt"])];
    assert!(!any_related_match(&gs2, TARGET));
    assert!(!any_related_match(&Vec::new(), TARGET));
}

#[test]
fn unrelated_groups_detection() {
    // a group with no related entry is foreign
    assert!(has_unrelated_groups(&vec![group("*.py", &["lint.sh"])], TARGET));
    // a group with an empty entry list holds no related entry either
    assert!(has_unrelated_groups(&vec![group("", &[])], TARGET));
    // a mixed list still reports the foreign group
    assert!(has_unrelated_groups(&vec![group("", &[TARGET]), group("", &["lint.sh"])], TARGET));
    // all groups related: nothing foreign
    assert!(!has_unrelated_groups(&vec![group("", &[TARGET])], TARGET));
    // empty list: nothing foreign
    assert!(!has_unrelated_groups(&Vec::new(), TARGET));
}

#[test]
fn string_primitives() {
    assert!(str_eq("abc", "abc"));
    assert!(!str_eq("abc", "abd"));
    assert!(!str_eq("abc", "abcd"));
    assert!(str_eq("", ""));
    assert!(str_contains("hello world", "lo wo"));
    assert!(str_contains("abc", ""));
    assert!(!str_contains("", "a"));
    assert!(!str_contains("abc", "abcd"));
    assert!(str_starts_with("ccg-office", "ccg-"));
    assert!(!str_starts_with("my-ccg-office", "ccg-"));
    // multi-byte characters are compared by character, not by byte
    assert!(str_contains("héllo", "él"));
    assert!(str_eq("héllo", "héllo"));
}
