use ccgadget_hooks::model::{HookEntry, HookGroup};
use ccgadget_hooks::resolve::{
    HookAction, PromptKind, Resolution, choice_of_answer, parse_prompt_answer, resolve,
};

const TARGET: &str = "ccgadget trigger";

fn group(matcher: &str, commands: &[&str]) -> HookGroup {
    HookGroup {
        matcher: matcher.to_string(),
        entries: commands
            .iter()
            .map(|c| HookEntry { entry_type: "command".to_string(), command: c.to_string() })
            .collect(),
    }
}

#[test]
fn exact_match_short_circuits_before_any_prompt() {
    // even with foreign hooks present and no flags, an exact match stops it
    let gs = vec![group("*.py", &["lint.sh"]), group("", &[TARGET])];
    assert_eq!(resolve(&gs, TARGET, false, false), Resolution::AlreadyExists);
    // flags make no difference
    assert_eq!(resolve(&gs, TARGET, true, true), Resolution::AlreadyExists);
}

#[test]
fn related_mismatch_replaces_under_force_or_auto() {
    let gs = vec![group("*.py", &["old ccgadget trigger"])];
    assert_eq!(resolve(&gs, TARGET, true, false), Resolution::Decided(HookAction::Replace));
    assert_eq!(resolve(&gs, TARGET, false, true), Resolution::Decided(HookAction::Replace));
    assert_eq!(resolve(&gs, TARGET, true, true), Resolution::Decided(HookAction::Replace));
}

#[test]
fn related_mismatch_prompts_without_flags() {
    let gs = vec![group("*.py", &["old ccgadget trigger"])];
    assert_eq!(resolve(&gs, TARGET, false, false), Resolution::NeedsPrompt(PromptKind::FixRelated));
}

#[test]
fn foreign_hooks_append_under_auto_only() {
    let gs = vec![group("*.py", &["lint.sh"])];
    assert_eq!(resolve(&gs, TARGET, false, true), Resolution::Decided(HookAction::Append));
    assert_eq!(resolve(&gs, TARGET, false, false), Resolution::NeedsPrompt(PromptKind::OtherHooks));
    // force alone never authorizes touching foreign hooks
    assert_eq!(resolve(&gs, TARGET, true, false), Resolution::NeedsPrompt(PromptKind::OtherHooks));
}

#[test]
fn empty_list_appends_without_prompt() {
    let gs: Vec<HookGroup> = Vec::new();
    assert_eq!(resolve(&gs, TARGET, false, false), Resolution::Decided(HookAction::Append));
}

#[test]
fn related_branch_is_checked_before_foreign_branch() {
    // one related and one foreign group: the related branch wins
    let gs = vec![group("*.py", &["lint.sh"]), group("", &["ccgadget trigger --old"])];
    assert_eq!(resolve(&gs, TARGET, true, false), Resolution::Decided(HookAction::Replace));
    assert_eq!(resolve(&gs, TARGET, false, false), Resolution::NeedsPrompt(PromptKind::FixRelated));
}

#[test]
fn prompt_answer_parsing() {
    assert_eq!(parse_prompt_answer("r"), Some(HookAction::Replace));
    assert_eq!(parse_prompt_answer("replace"), Some(HookAction::Replace));
    assert_eq!(parse_prompt_answer("a"), Some(HookAction::Append));
    assert_eq!(parse_prompt_answer("append"), Some(HookAction::Append));
    assert_eq!(parse_prompt_answer("s"), Some(HookAction::Skip));
    assert_eq!(parse_prompt_answer("skip"), Some(HookAction::Skip));
    // whitespace is trimmed, case is folded
    assert_eq!(parse_prompt_answer("  R\n"), Some(HookAction::Replace));
    assert_eq!(parse_prompt_answer("\tSKIP "), Some(HookAction::Skip));
    // invalid answers yield nothing and are asked again by the caller
    assert_eq!(parse_prompt_answer("x"), None);
    assert_eq!(parse_prompt_answer(""), None);
    assert_eq!(parse_prompt_answer("rep lace"), None);
}

#[test]
fn choice_of_answer_is_exact() {
    assert_eq!(choice_of_answer("r"), Some(HookAction::Replace));
    assert_eq!(choice_of_answer("R"), None); // not normalized here
    assert_eq!(choice_of_answer(" a"), None);
}
