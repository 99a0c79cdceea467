//! The raw JSON tree the settings file is made of, and validation of the
//! two-level hook schema: an event's value must be an array of groups
//! `{ "matcher": string, "hooks": [ { "type": string, "command": string } ] }`,
//! and anything else is a schema error that aborts the run.

use vstd::prelude::*;
use crate::errors::ConfigError;
use crate::model::{EntryView, GroupView, HookEntry, HookGroup, groups_view};

verus! {

/// A JSON value, structurally. A number carries its literal text, so that
/// rewriting a document never alters a value this engine does not understand.
#[derive(Debug, PartialEq, Eq)]
pub enum RawValue {
    Null,
    Bool(bool),
    Number(String),
    Text(String),
    Array(Vec<RawValue>),
    Object(Vec<RawMember>),
}

/// One key/value member of a JSON object.
#[derive(Debug, PartialEq, Eq)]
pub struct RawMember {
    pub key: String,
    pub value: RawValue,
}

/// The first member with the given key, if any: JSON objects are looked up
/// by key, first occurrence winning.
pub open spec fn member_lookup(ms: Seq<RawMember>, key: Seq<char>) -> Option<RawValue>
    decreases ms.len(),
{
    if ms.len() == 0 {
        Option::None
    } else if ms[0].key@ == key {
        Option::Some(ms[0].value)
    } else {
        member_lookup(ms.drop_first(), key)
    }
}

/// The raw value is exactly the JSON form of the hook entry `e`: an object
/// of precisely a `"type"` and a `"command"` string member.
pub open spec fn entry_matches(v: RawValue, e: EntryView) -> bool {
    match v {
        RawValue::Object(ms) => {
            &&& ms@.len() == 2
            &&& match member_lookup(ms@, "type"@) {
                Option::Some(RawValue::Text(s)) => s@ == e.entry_type,
                _ => false,
            }
            &&& match member_lookup(ms@, "command"@) {
                Option::Some(RawValue::Text(s)) => s@ == e.command,
                _ => false,
            }
        },
        _ => false,
    }
}

/// The raw value is exactly the JSON form of the hook group `g`: an object
/// of precisely a `"matcher"` string member and a `"hooks"` array of
/// matching entries.
pub open spec fn group_matches(v: RawValue, g: GroupView) -> bool {
    match v {
        RawValue::Object(ms) => {
            &&& ms@.len() == 2
            &&& match member_lookup(ms@, "matcher"@) {
                Option::Some(RawValue::Text(s)) => s@ == g.matcher,
                _ => false,
            }
            &&& match member_lookup(ms@, "hooks"@) {
                Option::Some(RawValue::Array(items)) => {
                    &&& items@.len() == g.entries.len()
                    &&& forall|i: int|
                        0 <= i < items@.len() ==> entry_matches(#[trigger] items@[i], g.entries[i])
                },
                _ => false,
            }
        },
        _ => false,
    }
}

/// The raw value is exactly the JSON form of the group list `gs`.
pub open spec fn groups_match(v: RawValue, gs: Seq<GroupView>) -> bool {
    match v {
        RawValue::Array(items) => {
            &&& items@.len() == gs.len()
            &&& forall|i: int|
                0 <= i < items@.len() ==> group_matches(#[trigger] items@[i], gs[i])
        },
        _ => false,
    }
}

/// The raw value has the two-level hook shape: some group list matches it.
pub open spec fn groups_shape_ok(v: RawValue) -> bool {
    exists|gs: Seq<GroupView>| groups_match(v, gs)
}

/// Find a member of a JSON object by key.
#[verifier::loop_isolation(false)]
pub fn object_get<'a>(ms: &'a Vec<RawMember>, key: &str) -> (r: Option<&'a RawValue>)
    ensures
        match r {
            Option::Some(v) => member_lookup(ms@, key@) == Option::Some(*v),
            Option::None => member_lookup(ms@, key@) is None,
        },
{
    proof {
        lemma_member_lookup_is_first(ms@, key@);
    }
    let n = ms.len();
    let mut i: usize = 0;
    while i < n
        invariant
            n == ms@.len(),
            i <= n,
            forall|k: int| 0 <= k < i ==> ms@[k].key@ != key@,
        decreases n - i,
    {
        if crate::text::str_eq(ms[i].key.as_str(), key) {
            return Option::Some(&ms[i].value);
        }
        i = i + 1;
    }
    Option::None
}

/// `member_lookup` agrees with a first-index description.
pub proof fn lemma_member_lookup_is_first(ms: Seq<RawMember>, key: Seq<char>)
    ensures
        forall|i: int|
            0 <= i < ms.len() && ms[i].key@ == key && (forall|k: int|
                0 <= k < i ==> ms[k].key@ != key) ==> member_lookup(ms, key) == Option::Some(
                ms[i].value,
            ),
        (forall|k: int| 0 <= k < ms.len() ==> ms[k].key@ != key) ==> member_lookup(ms, key)
            is None,
    decreases ms.len(),
{
    if ms.len() > 0 {
        lemma_member_lookup_is_first(ms.drop_first(), key);
        assert forall|i: int|
            0 <= i < ms.len() && ms[i].key@ == key && (forall|k: int|
                0 <= k < i ==> ms[k].key@ != key) implies member_lookup(ms, key) == Option::Some(
            ms[i].value,
        ) by {
            if i > 0 {
                assert(ms.drop_first()[i - 1] == ms[i]);
                assert(forall|k: int| 0 <= k < i - 1 ==> ms.drop_first()[k] == ms[k + 1]);
            }
        }
        if forall|k: int| 0 <= k < ms.len() ==> ms[k].key@ != key {
            assert(forall|k: int|
                0 <= k < ms.drop_first().len() ==> ms.drop_first()[k].key@ != key);
        }
    }
}

/// Validate one raw entry against the expected `{ "type", "command" }`
/// shape, handing back the typed entry.
fn validate_entry(v: &RawValue) -> (r: Result<HookEntry, ConfigError>)
    ensures
        match r {
            Result::Ok(e) => entry_matches(*v, e@),
            Result::Err(err) => {
                &&& err is SettingsSchema
                &&& forall|e: EntryView| !entry_matches(*v, e)
            },
        },
{
    match v {
        RawValue::Object(ms) => {
            if ms.len() != 2 {
                return Result::Err(ConfigError::SettingsSchema);
            }
            let t = match object_get(ms, "type") {
                Option::Some(RawValue::Text(s)) => s,
                _ => {
                    return Result::Err(ConfigError::SettingsSchema);
                },
            };
            let c = match object_get(ms, "command") {
                Option::Some(RawValue::Text(s)) => s,
                _ => {
                    return Result::Err(ConfigError::SettingsSchema);
                },
            };
            Result::Ok(HookEntry { entry_type: t.clone(), command: c.clone() })
        },
        _ => Result::Err(ConfigError::SettingsSchema),
    }
}

/// Validate one raw group against the expected `{ "matcher", "hooks" }`
/// shape, handing back the typed group.
#[verifier::loop_isolation(false)]
fn validate_group(v: &RawValue) -> (r: Result<HookGroup, ConfigError>)
    ensures
        match r {
            Result::Ok(g) => group_matches(*v, g@),
            Result::Err(err) => {
                &&& err is SettingsSchema
                &&& forall|g: GroupView| !group_matches(*v, g)
            },
        },
{
    match v {
        RawValue::Object(ms) => {
            if ms.len() != 2 {
                return Result::Err(ConfigError::SettingsSchema);
            }
            let m = match object_get(ms, "matcher") {
                Option::Some(RawValue::Text(s)) => s,
                _ => {
                    return Result::Err(ConfigError::SettingsSchema);
                },
            };
            let items = match object_get(ms, "hooks") {
                Option::Some(RawValue::Array(items)) => items,
                _ => {
                    return Result::Err(ConfigError::SettingsSchema);
                },
            };
            let n = items.len();
            let mut entries: Vec<HookEntry> = Vec::new();
            let mut i: usize = 0;
            while i < n
                invariant
                    n == items@.len(),
                    i <= n,
                    entries@.len() == i,
                    forall|k: int| 0 <= k < i ==> entry_matches(items@[k], entries@[k]@),
                decreases n - i,
            {
                match validate_entry(&items[i]) {
                    Result::Ok(e) => {
                        entries.push(e);
                    },
                    Result::Err(err) => {
                        proof {
                            assert forall|g: GroupView| !group_matches(*v, g) by {
                                if group_matches(*v, g) {
                                    assert(entry_matches(items@[i as int], g.entries[i as int]));
                                }
                            }
                        }
                        return Result::Err(err);
                    },
                }
                i = i + 1;
            }
            let g = HookGroup { matcher: m.clone(), entries };
            proof {
                assert(g@.entries.len() == n);
                assert(forall|k: int|
                    0 <= k < n ==> entry_matches(items@[k], #[trigger] g@.entries[k]));
            }
            Result::Ok(g)
        },
        _ => Result::Err(ConfigError::SettingsSchema),
    }
}

/// Validate an event's raw value against the hook schema, handing back the
/// typed group list. The error is precisely a schema error, and it occurs
/// exactly when no group list has this JSON form.
#[verifier::loop_isolation(false)]
pub fn validate_groups(v: &RawValue) -> (r: Result<Vec<HookGroup>, ConfigError>)
    ensures
        match r {
            Result::Ok(gs) => groups_match(*v, groups_view(gs@)),
            Result::Err(err) => {
                &&& err is SettingsSchema
                &&& !groups_shape_ok(*v)
            },
        },
{
    match v {
        RawValue::Array(items) => {
            let n = items.len();
            let mut gs: Vec<HookGroup> = Vec::new();
            let mut i: usize = 0;
            while i < n
                invariant
                    n == items@.len(),
                    i <= n,
                    gs@.len() == i,
                    forall|k: int| 0 <= k < i ==> group_matches(items@[k], groups_view(gs@)[k]),
                decreases n - i,
            {
                let ghost pre = groups_view(gs@);
                match validate_group(&items[i]) {
                    Result::Ok(g) => {
                        gs.push(g);
                        proof {
                            assert(groups_view(gs@) =~= pre.push(g@));
                        }
                    },
                    Result::Err(err) => {
                        proof {
                            assert forall|cand: Seq<GroupView>| !groups_match(*v, cand) by {
                                if groups_match(*v, cand) {
                                    assert(group_matches(items@[i as int], cand[i as int]));
                                }
                            }
                        }
                        return Result::Err(err);
                    },
                }
                i = i + 1;
            }
            Result::Ok(gs)
        },
        _ => {
            proof {
                assert forall|cand: Seq<GroupView>| !groups_match(*v, cand) by {}
            }
            Result::Err(ConfigError::SettingsSchema)
        },
    }
}

/// Render a group list back into its raw JSON form.
pub fn groups_to_raw(gs: &Vec<HookGroup>) -> (r: RawValue)
    ensures
        groups_match(r, groups_view(gs@)),
{
    let n = gs.len();
    let mut items: Vec<RawValue> = Vec::new();
    let mut i: usize = 0;
    while i < n
        invariant
            n == gs@.len(),
            i <= n,
            items@.len() == i,
            forall|k: int| 0 <= k < i ==> group_matches(items@[k], groups_view(gs@)[k]),
        decreases n - i,
    {
        items.push(group_to_raw(&gs[i]));
        i = i + 1;
    }
    RawValue::Array(items)
}

/// Render one group into its raw JSON form.
fn group_to_raw(g: &HookGroup) -> (r: RawValue)
    ensures
        group_matches(r, g@),
{
    let n = g.entries.len();
    let mut items: Vec<RawValue> = Vec::new();
    let mut i: usize = 0;
    while i < n
        invariant
            n == g.entries@.len(),
            i <= n,
            items@.len() == i,
            forall|k: int| 0 <= k < i ==> entry_matches(items@[k], g@.entries[k]),
        decreases n - i,
    {
        items.push(entry_to_raw(&g.entries[i]));
        i = i + 1;
    }
    let mut ms: Vec<RawMember> = Vec::new();
    ms.push(RawMember { key: String::from_str("matcher"), value: RawValue::Text(g.matcher.clone()) });
    ms.push(RawMember { key: String::from_str("hooks"), value: RawValue::Array(items) });
    let r = RawValue::Object(ms);
    proof {
        reveal_strlit("matcher");
        reveal_strlit("hooks");
        reveal_with_fuel(member_lookup, 3);
        assert(ms@[0].key@ == "matcher"@);
        assert(ms@[1].key@ == "hooks"@);
        assert(ms@.drop_first()[0] == ms@[1]);
    }
    r
}

/// Render one entry into its raw JSON form.
fn entry_to_raw(e: &HookEntry) -> (r: RawValue)
    ensures
        entry_matches(r, e@),
{
    let mut ms: Vec<RawMember> = Vec::new();
    ms.push(RawMember { key: String::from_str("type"), value: RawValue::Text(e.entry_type.clone()) });
    ms.push(RawMember { key: String::from_str("command"), value: RawValue::Text(e.command.clone()) });
    let r = RawValue::Object(ms);
    proof {
        reveal_strlit("type");
        reveal_strlit("command");
        reveal_with_fuel(member_lookup, 3);
        assert(ms@[0].key@ == "type"@);
        assert(ms@[1].key@ == "command"@);
        assert(ms@.drop_first()[0] == ms@[1]);
    }
    r
}

} // verus!
