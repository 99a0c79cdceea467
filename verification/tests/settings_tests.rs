use ccgadget_hooks::engine::{Binding, canonical_group};
use ccgadget_hooks::errors::ConfigError;
use ccgadget_hooks::model::{HookEntry, HookGroup};
use ccgadget_hooks::resolve::{HookAction, HookSetupResult};
use ccgadget_hooks::schema::{RawMember, RawValue, groups_to_raw, validate_groups};
use ccgadget_hooks::settings::{hooks_from_settings, hooks_to_raw, run_on_settings};

const TARGET: &str = "ccgadget trigger";

fn member(key: &str, value: RawValue) -> RawMember {
    RawMember { key: key.to_string(), value }
}

fn text(s: &str) -> RawValue {
    RawValue::Text(s.to_string())
}

fn entry_raw(entry_type: &str, command: &str) -> RawValue {
    RawValue::Object(vec![member("type", text(entry_type)), member("command", text(command))])
}

fn group_raw(matcher: &str, commands: &[&str]) -> RawValue {
    RawValue::Object(vec![
        member("matcher", text(matcher)),
        member("hooks", RawValue::Array(commands.iter().map(|c| entry_raw("command", c)).collect())),
    ])
}

fn group(matcher: &str, commands: &[&str]) -> HookGroup {
    HookGroup {
        matcher: matcher.to_string(),
        entries: commands
            .iter()
            .map(|c| HookEntry { entry_type: "command".to_string(), command: c.to_string() })
            .collect(),
    }
}

fn settings_with(event: &str, groups: RawValue) -> RawValue {
    RawValue::Object(vec![member(
        "hooks",
        RawValue::Object(vec![member(event, groups)]),
    )])
}

fn binding(event: &str, command: &str) -> Binding {
    Binding { event: event.to_string(), command: command.to_string() }
}

fn arr(v: RawValue) -> RawValue {
    RawValue::Array(vec![v])
}

fn get_member<'a>(v: &'a RawValue, key: &str) -> Option<&'a RawValue> {
    match v {
        RawValue::Object(ms) => ms.iter().find(|m| m.key == key).map(|m| &m.value),
        _ => None,
    }
}

#[test]
fn validation_round_trips_a_group_list() {
    let gs = vec![group("*.py", &["lint.sh"]), group("", &[TARGET, "x"])];
    let raw = groups_to_raw(&gs);
    assert_eq!(validate_groups(&raw).unwrap(), gs);
}

#[test]
fn validation_accepts_members_in_any_order() {
    let g = RawValue::Object(vec![
        member("hooks", RawValue::Array(vec![entry_raw("command", "x")])),
        member("matcher", text("")),
    ]);
    let gs = validate_groups(&RawValue::Array(vec![g])).unwrap();
    assert_eq!(gs, vec![group("", &["x"])]);
}

#[test]
fn validation_rejects_malformed_shapes() {
    // an event value that is not an array
    assert_eq!(validate_groups(&text("nope")).unwrap_err(), ConfigError::SettingsSchema);
    // a group that is not an object
    assert_eq!(
        validate_groups(&RawValue::Array(vec![RawValue::Null])).unwrap_err(),
        ConfigError::SettingsSchema
    );
    // a group whose hooks member is missing
    let g = RawValue::Object(vec![member("matcher", text(""))]);
    assert_eq!(
        validate_groups(&RawValue::Array(vec![g])).unwrap_err(),
        ConfigError::SettingsSchema
    );
    // a group whose hooks member is not an array
    let g = RawValue::Object(vec![member("matcher", text("")), member("hooks", text("x"))]);
    assert_eq!(
        validate_groups(&RawValue::Array(vec![g])).unwrap_err(),
        ConfigError::SettingsSchema
    );
    // a group with an extra member
    let g = RawValue::Object(vec![
        member("matcher", text("")),
        member("hooks", RawValue::Array(vec![])),
        member("timeout", RawValue::Number("5".to_string())),
    ]);
    assert_eq!(
        validate_groups(&RawValue::Array(vec![g])).unwrap_err(),
        ConfigError::SettingsSchema
    );
    // an entry without a command
    let e = RawValue::Object(vec![member("type", text("command")), member("x", text("y"))]);
    let g = RawValue::Object(vec![member("matcher", text("")), member("hooks", RawValue::Array(vec![e]))]);
    assert_eq!(
        validate_groups(&RawValue::Array(vec![g])).unwrap_err(),
        ConfigError::SettingsSchema
    );
    // an entry whose command is not a string
    let e = RawValue::Object(vec![member("type", text("command")), member("command", RawValue::Bool(true))]);
    let g = RawValue::Object(vec![member("matcher", text("")), member("hooks", RawValue::Array(vec![e]))]);
    assert_eq!(
        validate_groups(&RawValue::Array(vec![g])).unwrap_err(),
        ConfigError::SettingsSchema
    );
}

#[test]
fn hooks_extraction_from_settings() {
    // absent hooks member: empty table
    let d = hooks_from_settings(&RawValue::Object(vec![])).unwrap();
    assert!(d.events.is_empty());
    // a present hooks member is read event by event
    let s = settings_with("Stop", arr(group_raw("", &[TARGET])));
    let d = hooks_from_settings(&s).unwrap();
    assert_eq!(d.get_groups("Stop"), Some(&vec![group("", &[TARGET])]));
}

#[test]
fn hooks_extraction_errors() {
    // the document itself is not an object: a parse error
    assert_eq!(hooks_from_settings(&text("[]")).unwrap_err(), ConfigError::SettingsParse);
    assert_eq!(hooks_from_settings(&RawValue::Array(vec![])).unwrap_err(), ConfigError::SettingsParse);
    // a hooks member that is not an object: a schema error
    let s = RawValue::Object(vec![member("hooks", RawValue::Array(vec![]))]);
    assert_eq!(hooks_from_settings(&s).unwrap_err(), ConfigError::SettingsSchema);
    // an event value without the hook shape: a schema error
    let s = settings_with("Stop", text("bad"));
    assert_eq!(hooks_from_settings(&s).unwrap_err(), ConfigError::SettingsSchema);
}

#[test]
fn duplicate_event_members_last_one_wins() {
    let hooks_obj = RawValue::Object(vec![
        member("Stop", arr(group_raw("", &["first"]))),
        member("Stop", arr(group_raw("", &["second"]))),
    ]);
    let s = RawValue::Object(vec![member("hooks", hooks_obj)]);
    let d = hooks_from_settings(&s).unwrap();
    assert_eq!(d.get_groups("Stop"), Some(&vec![group("", &["second"])]));
}

#[test]
fn scenario_empty_settings_file_gains_canonical_structure() {
    // desired binding on `{}`: hooks.UserPromptSubmit becomes the canonical
    // single-group list and the outcome is Added
    let settings = RawValue::Object(vec![]);
    let bindings = vec![binding("UserPromptSubmit", TARGET)];
    let script: Vec<HookAction> = Vec::new();
    let (out, summary) = run_on_settings(settings, &bindings, false, false, &script).unwrap();
    assert_eq!(summary.outcomes, vec![HookSetupResult::Added]);
    let hooks = get_member(&out, "hooks").unwrap();
    let groups = get_member(hooks, "UserPromptSubmit").unwrap();
    assert_eq!(*groups, arr(group_raw("", &[TARGET])));
}

#[test]
fn scenario_existing_canonical_structure_is_untouched() {
    let settings = settings_with("UserPromptSubmit", arr(group_raw("", &[TARGET])));
    let bindings = vec![binding("UserPromptSubmit", TARGET)];
    let script: Vec<HookAction> = Vec::new();
    let (out, summary) = run_on_settings(settings, &bindings, false, false, &script).unwrap();
    assert_eq!(summary.outcomes, vec![HookSetupResult::AlreadyExists]);
    // the whole document is identical, not just the event's list
    assert_eq!(out, settings_with("UserPromptSubmit", arr(group_raw("", &[TARGET]))));
}

#[test]
fn scenario_auto_approve_appends_after_foreign_group() {
    let settings = settings_with("UserPromptSubmit", arr(group_raw("*.py", &["lint.sh"])));
    let bindings = vec![binding("UserPromptSubmit", TARGET)];
    let script: Vec<HookAction> = Vec::new();
    let (out, summary) = run_on_settings(settings, &bindings, false, true, &script).unwrap();
    assert_eq!(summary.outcomes, vec![HookSetupResult::Added]);
    let hooks = get_member(&out, "hooks").unwrap();
    let groups = get_member(hooks, "UserPromptSubmit").unwrap();
    assert_eq!(
        *groups,
        RawValue::Array(vec![group_raw("*.py", &["lint.sh"]), group_raw("", &[TARGET])])
    );
}

#[test]
fn unrelated_top_level_members_are_preserved() {
    let settings = RawValue::Object(vec![
        member("theme", text("dark")),
        member("retries", RawValue::Number("3".to_string())),
    ]);
    let bindings = vec![binding("Stop", TARGET)];
    let script: Vec<HookAction> = Vec::new();
    let (out, _) = run_on_settings(settings, &bindings, false, false, &script).unwrap();
    assert_eq!(get_member(&out, "theme"), Some(&text("dark")));
    assert_eq!(get_member(&out, "retries"), Some(&RawValue::Number("3".to_string())));
    assert!(get_member(&out, "hooks").is_some());
}

#[test]
fn run_on_settings_aborts_cleanly_on_errors() {
    let bindings = vec![binding("Stop", TARGET)];
    let script: Vec<HookAction> = Vec::new();
    assert_eq!(
        run_on_settings(RawValue::Null, &bindings, false, false, &script).unwrap_err(),
        ConfigError::SettingsParse
    );
    let bad = settings_with("Stop", text("bad"));
    assert_eq!(
        run_on_settings(bad, &bindings, false, false, &script).unwrap_err(),
        ConfigError::SettingsSchema
    );
    let foreign = settings_with("Stop", arr(group_raw("*.py", &["lint.sh"])));
    assert_eq!(
        run_on_settings(foreign, &bindings, false, false, &script).unwrap_err(),
        ConfigError::PromptIo
    );
}

#[test]
fn error_messages_name_each_kind() {
    assert_eq!(ConfigError::SettingsIo.message(), "cannot read or write the settings file");
    assert_eq!(ConfigError::SettingsParse.message(), "settings file content is not a JSON object");
    assert_eq!(ConfigError::SettingsSchema.message(), "hooks entry does not have the expected shape");
    assert_eq!(
        ConfigError::PromptIo.message(),
        "interactive input closed before an answer was given"
    );
}

#[test]
fn hooks_to_raw_renders_each_event() {
    let mut doc = ccgadget_hooks::model::SettingsHooks::new();
    doc.set_groups("Stop", vec![canonical_group(TARGET)]);
    let raw = hooks_to_raw(&doc);
    assert_eq!(get_member(&raw, "Stop"), Some(&arr(group_raw("", &[TARGET]))));
}
