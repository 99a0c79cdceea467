//! The settings document as a whole: extracting and validating its `hooks`
//! table, splicing a reconciled table back in while preserving every other
//! member untouched, and the full load-reconcile-store pass over an
//! in-memory document.

use vstd::prelude::*;
use crate::errors::ConfigError;
use crate::engine::{
    Binding, RunSummary, bindings_view, count_added, names_view, run, spec_run, spec_skipped,
};
use crate::model::{EventView, GroupView, SettingsHooks, doc_set, groups_view};
use crate::resolve::HookAction;
use crate::schema::{
    RawMember, RawValue, entry_matches, group_matches, groups_match, groups_shape_ok,
    groups_to_raw, member_lookup, validate_groups,
};

verus! {

/// Two group lists with the same JSON form are the same list: the hook
/// schema pins every field.
pub proof fn lemma_groups_match_unique(v: RawValue, a: Seq<GroupView>, b: Seq<GroupView>)
    requires
        groups_match(v, a),
        groups_match(v, b),
    ensures
        a == b,
{
    match v {
        RawValue::Array(items) => {
            assert forall|i: int| 0 <= i < a.len() implies a[i] == b[i] by {
                assert(group_matches(items@[i], a[i]));
                assert(group_matches(items@[i], b[i]));
                lemma_group_matches_unique(items@[i], a[i], b[i]);
            }
            assert(a =~= b);
        },
        _ => {
            assert(false);
        },
    }
}

/// Two groups with the same JSON form are the same group.
proof fn lemma_group_matches_unique(v: RawValue, a: GroupView, b: GroupView)
    requires
        group_matches(v, a),
        group_matches(v, b),
    ensures
        a == b,
{
    match v {
        RawValue::Object(ms) => {
            match member_lookup(ms@, "hooks"@) {
                Option::Some(RawValue::Array(items)) => {
                    assert forall|i: int| 0 <= i < a.entries.len() implies a.entries[i]
                        == b.entries[i] by {
                        assert(entry_matches(items@[i], a.entries[i]));
                        assert(entry_matches(items@[i], b.entries[i]));
                    }
                    assert(a.entries =~= b.entries);
                    assert(a =~= b);
                },
                _ => {
                    assert(false);
                },
            }
        },
        _ => {
            assert(false);
        },
    }
}

/// Folding a raw `hooks` object is deterministic: the relation pins the
/// resulting table.
pub proof fn lemma_members_fold_unique(
    d0: Seq<EventView>,
    ms: Seq<RawMember>,
    a: Seq<EventView>,
    b: Seq<EventView>,
)
    requires
        members_fold_rel(d0, ms, a),
        members_fold_rel(d0, ms, b),
    ensures
        a == b,
    decreases ms.len(),
{
    if ms.len() > 0 {
        let wa = choose|w: Seq<GroupView>|
            #[trigger] groups_match(ms[0].value, w) && members_fold_rel(
                doc_set(d0, ms[0].key@, w),
                ms.drop_first(),
                a,
            );
        let wb = choose|w: Seq<GroupView>|
            #[trigger] groups_match(ms[0].value, w) && members_fold_rel(
                doc_set(d0, ms[0].key@, w),
                ms.drop_first(),
                b,
            );
        lemma_groups_match_unique(ms[0].value, wa, wb);
        lemma_members_fold_unique(doc_set(d0, ms[0].key@, wa), ms.drop_first(), a, b);
    }
}

/// A settings document yields at most one hooks table: the contract of
/// `hooks_from_settings` pins its result.
pub proof fn lemma_settings_hooks_unique(settings: RawValue, a: Seq<EventView>, b: Seq<EventView>)
    requires
        settings_hooks_rel(settings, a),
        settings_hooks_rel(settings, b),
    ensures
        a == b,
{
    match settings {
        RawValue::Object(ms) => match member_lookup(ms@, "hooks"@) {
            Option::None => {
            },
            Option::Some(h) => match h {
                RawValue::Object(hm) => {
                    lemma_members_fold_unique(Seq::empty(), hm@, a, b);
                },
                _ => {
                    assert(false);
                },
            },
        },
        _ => {
            assert(false);
        },
    }
}

/// The document view obtained by folding the members of a raw `hooks`
/// object, in order, onto `d0`: each member's value must have the hook
/// shape, and later members for the same event replace earlier ones, as
/// they would in a JSON object read key by key.
pub open spec fn members_fold_rel(d0: Seq<EventView>, ms: Seq<RawMember>, d: Seq<EventView>) -> bool
    decreases ms.len(),
{
    if ms.len() == 0 {
        d == d0
    } else {
        exists|gs: Seq<GroupView>|
            #[trigger] groups_match(ms[0].value, gs) && members_fold_rel(
                doc_set(d0, ms[0].key@, gs),
                ms.drop_first(),
                d,
            )
    }
}

/// Every member of a raw `hooks` object has the hook shape.
pub open spec fn hooks_members_ok(ms: Seq<RawMember>) -> bool {
    forall|i: int| 0 <= i < ms.len() ==> groups_shape_ok(#[trigger] ms[i].value)
}

/// The settings document yields the hooks table `d`: the document is a JSON
/// object, and its `hooks` member (an empty table when absent) folds to `d`.
pub open spec fn settings_hooks_rel(settings: RawValue, d: Seq<EventView>) -> bool {
    match settings {
        RawValue::Object(ms) => match member_lookup(ms@, "hooks"@) {
            Option::None => d == Seq::<EventView>::empty(),
            Option::Some(h) => match h {
                RawValue::Object(hm) => members_fold_rel(Seq::empty(), hm@, d),
                _ => false,
            },
        },
        _ => false,
    }
}

/// Extract and validate the hooks table of a settings document. A document
/// that is not a JSON object is a parse error; a `hooks` member that is not
/// an object, or an event value without the hook shape, is a schema error;
/// an absent `hooks` member is an empty table.
#[verifier::loop_isolation(false)]
pub fn hooks_from_settings(settings: &RawValue) -> (r: Result<SettingsHooks, ConfigError>)
    ensures
        match r {
            Result::Ok(d) => {
                &&& d.wf()
                &&& settings_hooks_rel(*settings, d@)
            },
            Result::Err(err) => match *settings {
                RawValue::Object(ms) => {
                    &&& err is SettingsSchema
                    &&& match member_lookup(ms@, "hooks"@) {
                        Option::Some(RawValue::Object(hm)) => !hooks_members_ok(hm@),
                        Option::Some(_) => true,
                        Option::None => false,
                    }
                },
                _ => err is SettingsParse,
            },
        },
{
    let ms = match settings {
        RawValue::Object(ms) => ms,
        _ => {
            return Result::Err(ConfigError::SettingsParse);
        },
    };
    let hm = match crate::schema::object_get(ms, "hooks") {
        Option::None => {
            let d = SettingsHooks::new();
            return Result::Ok(d);
        },
        Option::Some(RawValue::Object(hm)) => hm,
        Option::Some(_) => {
            return Result::Err(ConfigError::SettingsSchema);
        },
    };
    let n = hm.len();
    let mut doc = SettingsHooks::new();
    let mut i: usize = 0;
    proof {
        assert(hm@.skip(0) =~= hm@);
    }
    while i < n
        invariant
            n == hm@.len(),
            i <= n,
            doc.wf(),
            forall|d: Seq<EventView>|
                #[trigger] members_fold_rel(Seq::empty(), hm@, d) <==> members_fold_rel(
                    doc@,
                    hm@.skip(i as int),
                    d,
                ),
        decreases n - i,
    {
        let ghost pre_doc = doc@;
        let ghost rest = hm@.skip(i as int);
        proof {
            assert(rest[0] == hm@[i as int]);
            assert(rest.drop_first() =~= hm@.skip(i + 1));
        }
        let gs = match validate_groups(&hm[i].value) {
            Result::Ok(gs) => gs,
            Result::Err(err) => {
                proof {
                    assert(!groups_shape_ok(hm@[i as int].value));
                }
                return Result::Err(err);
            },
        };
        let ghost gv = groups_view(gs@);
        doc.set_groups(hm[i].key.as_str(), gs);
        proof {
            assert forall|d: Seq<EventView>| #[trigger] members_fold_rel(
                Seq::empty(),
                hm@,
                d,
            ) implies members_fold_rel(doc@, hm@.skip(i + 1), d) by {
                assert(members_fold_rel(pre_doc, rest, d));
                let w = choose|w: Seq<GroupView>|
                    #[trigger] groups_match(rest[0].value, w) && members_fold_rel(
                        doc_set(pre_doc, rest[0].key@, w),
                        rest.drop_first(),
                        d,
                    );
                lemma_groups_match_unique(hm@[i as int].value, w, gv);
            }
            assert forall|d: Seq<EventView>| members_fold_rel(
                doc@,
                hm@.skip(i + 1),
                d,
            ) implies #[trigger] members_fold_rel(Seq::empty(), hm@, d) by {
                assert(groups_match(rest[0].value, gv) && members_fold_rel(
                    doc_set(pre_doc, rest[0].key@, gv),
                    rest.drop_first(),
                    d,
                ));
                assert(members_fold_rel(pre_doc, rest, d));
            }
        }
        i = i + 1;
    }
    proof {
        assert(hm@.skip(n as int).len() == 0);
        assert(members_fold_rel(doc@, hm@.skip(n as int), doc@));
        assert(members_fold_rel(Seq::empty(), hm@, doc@));
    }
    Result::Ok(doc)
}

/// A raw value is the JSON form of the hooks table `d`: an object with one
/// member per event, in table order.
pub open spec fn hooks_raw_matches(h: RawValue, d: Seq<EventView>) -> bool {
    match h {
        RawValue::Object(hm) => {
            &&& hm@.len() == d.len()
            &&& forall|i: int|
                0 <= i < d.len() ==> (#[trigger] hm@[i]).key@ == d[i].event && groups_match(
                    hm@[i].value,
                    d[i].groups,
                )
        },
        _ => false,
    }
}

/// Render the hooks table back into its raw JSON object form.
pub fn hooks_to_raw(doc: &SettingsHooks) -> (r: RawValue)
    ensures
        hooks_raw_matches(r, doc@),
{
    let n = doc.events.len();
    let mut hm: Vec<RawMember> = Vec::new();
    let mut i: usize = 0;
    while i < n
        invariant
            n == doc.events@.len(),
            i <= n,
            hm@.len() == i,
            forall|k: int|
                0 <= k < i ==> (#[trigger] hm@[k]).key@ == doc@[k].event && groups_match(
                    hm@[k].value,
                    doc@[k].groups,
                ),
        decreases n - i,
    {
        let ev = &doc.events[i];
        hm.push(RawMember { key: ev.event.clone(), value: groups_to_raw(&ev.groups) });
        proof {
            assert(doc@[i as int] == doc.events@[i as int]@);
        }
        i = i + 1;
    }
    RawValue::Object(hm)
}

/// Replace the first member with the given key, or append one at the end
/// when the key is absent; every other member is kept in place, untouched.
#[verifier::loop_isolation(false)]
pub fn object_set_member(ms: &mut Vec<RawMember>, key: &str, v: RawValue)
    ensures
        member_lookup(final(ms)@, key@) == Option::Some(v),
        forall|i: int|
            0 <= i < old(ms)@.len() ==> (#[trigger] final(ms)@[i]).key@ == old(ms)@[i].key@,
        match member_lookup(old(ms)@, key@) {
            Option::Some(_) => {
                &&& final(ms)@.len() == old(ms)@.len()
                &&& exists|idx: int|
                    {
                        &&& 0 <= idx < old(ms)@.len()
                        &&& (#[trigger] old(ms)@[idx]).key@ == key@
                        &&& (forall|k: int| 0 <= k < idx ==> old(ms)@[k].key@ != key@)
                        &&& final(ms)@[idx].value == v
                        &&& forall|i: int|
                            0 <= i < old(ms)@.len() && i != idx ==> final(ms)@[i] == old(ms)@[i]
                    }
            },
            Option::None => {
                &&& final(ms)@.len() == old(ms)@.len() + 1
                &&& forall|i: int| 0 <= i < old(ms)@.len() ==> final(ms)@[i] == old(ms)@[i]
                &&& final(ms)@.last().key@ == key@
                &&& final(ms)@.last().value == v
            },
        },
{
    proof {
        crate::schema::lemma_member_lookup_is_first(old(ms)@, key@);
    }
    let n = ms.len();
    let mut i: usize = 0;
    while i < n
        invariant
            n == ms@.len(),
            i <= n,
            *ms == *old(ms),
            forall|k: int| 0 <= k < i ==> ms@[k].key@ != key@,
        decreases n - i,
    {
        if crate::text::str_eq(ms[i].key.as_str(), key) {
            let key_owned = String::from_str(key);
            ms.set(i, RawMember { key: key_owned, value: v });
            proof {
                assert(forall|k: int| 0 <= k < i ==> ms@[k] == old(ms)@[k]);
                assert(ms@[i as int].key@ == key@);
                crate::schema::lemma_member_lookup_is_first(ms@, key@);
                assert(member_lookup(ms@, key@) == Option::Some(ms@[i as int].value));
                assert(member_lookup(old(ms)@, key@) == Option::Some(old(ms)@[i as int].value));
                let ghost ii = i as int;
                assert(old(ms)@[ii].key@ == key@);
                assert(forall|k: int| 0 <= k < ii ==> old(ms)@[k].key@ != key@);
                assert(ms@[ii].value == v);
                assert(forall|j: int| 0 <= j < old(ms)@.len() && j != ii ==> ms@[j] == old(
                    ms,
                )@[j]);
            }
            return ;
        }
        i = i + 1;
    }
    let key_owned = String::from_str(key);
    ms.push(RawMember { key: key_owned, value: v });
    proof {
        crate::schema::lemma_member_lookup_is_first(ms@, key@);
        assert(forall|k: int| 0 <= k < n ==> ms@[k] == old(ms)@[k]);
    }
}


/// The document after reconciliation, relative to the one before: every
/// member other than `hooks` is kept in place and untouched, and the
/// `hooks` member holds the JSON form of the reconciled table `d`.
pub open spec fn settings_updated_rel(before: RawValue, after: RawValue, d: Seq<EventView>) -> bool {
    match (before, after) {
        (RawValue::Object(oms), RawValue::Object(nms)) => {
            &&& match member_lookup(nms@, "hooks"@) {
                Option::Some(h) => hooks_raw_matches(h, d),
                _ => false,
            }
            &&& forall|i: int| 0 <= i < oms@.len() ==> (#[trigger] nms@[i]).key@ == oms@[i].key@
            &&& forall|i: int|
                0 <= i < oms@.len() && (#[trigger] oms@[i]).key@ != "hooks"@ ==> nms@[i] == oms@[i]
            &&& (member_lookup(oms@, "hooks"@) is Some ==> nms@.len() == oms@.len())
            &&& (member_lookup(oms@, "hooks"@) is None ==> nms@.len() == oms@.len() + 1
                && nms@.last().key@ == "hooks"@)
        },
        _ => false,
    }
}

/// One full reconciliation pass over an in-memory settings document: the
/// hooks table is extracted and validated, the desired bindings are
/// reconciled against it in order with prompts answered by the script, and
/// the new table is spliced back, every unrelated member preserved. Any
/// error aborts the pass and hands nothing back to be persisted.
pub fn run_on_settings(
    settings: RawValue,
    bindings: &Vec<Binding>,
    force: bool,
    auto_approve: bool,
    script: &Vec<HookAction>,
) -> (r: Result<(RawValue, RunSummary), ConfigError>)
    ensures
        match r {
            Result::Ok((out, s)) => exists|d0: Seq<EventView>, d2: Seq<EventView>|
                {
                    &&& settings_hooks_rel(settings, d0)
                    &&& #[trigger] spec_run(
                        d0,
                        bindings_view(bindings@),
                        force,
                        auto_approve,
                        script@,
                    ) == Option::Some((d2, s.outcomes@))
                    &&& s.added == count_added(s.outcomes@)
                    &&& names_view(s.skipped@) == spec_skipped(
                        bindings_view(bindings@),
                        s.outcomes@,
                    )
                    &&& #[trigger] settings_updated_rel(settings, out, d2)
                },
            Result::Err(err) => match err {
                ConfigError::SettingsParse => !(settings is Object),
                ConfigError::SettingsSchema => match settings {
                    RawValue::Object(ms) => match member_lookup(ms@, "hooks"@) {
                        Option::Some(RawValue::Object(hm)) => !hooks_members_ok(hm@),
                        Option::Some(_) => true,
                        Option::None => false,
                    },
                    _ => false,
                },
                ConfigError::PromptIo => exists|d0: Seq<EventView>|
                    #[trigger] settings_hooks_rel(settings, d0) && spec_run(
                        d0,
                        bindings_view(bindings@),
                        force,
                        auto_approve,
                        script@,
                    ) is None,
                ConfigError::SettingsIo => false,
            },
        },
{
    let doc = match hooks_from_settings(&settings) {
        Result::Ok(d) => d,
        Result::Err(err) => {
            return Result::Err(err);
        },
    };
    let ghost d0 = doc@;
    let (doc2, summary) = match run(doc, bindings, force, auto_approve, script) {
        Result::Ok(x) => x,
        Result::Err(err) => {
            return Result::Err(err);
        },
    };
    let h = hooks_to_raw(&doc2);
    let mut ms = match settings {
        RawValue::Object(ms) => ms,
        _ => {
            proof {
                assert(false);
            }
            return Result::Err(ConfigError::SettingsParse);
        },
    };
    let ghost oms = ms@;
    object_set_member(&mut ms, "hooks", h);
    let out = RawValue::Object(ms);
    proof {
        assert(settings_updated_rel(settings, out, doc2@));
        assert(settings_hooks_rel(settings, d0) && spec_run(
            d0,
            bindings_view(bindings@),
            force,
            auto_approve,
            script@,
        ) == Option::Some((doc2@, summary.outcomes@)) && settings_updated_rel(
            settings,
            out,
            doc2@,
        ));
    }
    Result::Ok((out, summary))
}

} // verus!
