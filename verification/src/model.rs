//! The hook data model: entries, groups, and the per-event hook table of a
//! settings document, together with their mathematical views.

use vstd::prelude::*;

verus! {

/// One hook entry: `{ "type": ..., "command": ... }`.
#[derive(Debug, Clone, PartialEq, Eq)]
pub struct HookEntry {
    pub entry_type: String,
    pub command: String,
}

/// One hook group: `{ "matcher": ..., "hooks": [entries...] }`.
#[derive(Debug, Clone, PartialEq, Eq)]
pub struct HookGroup {
    pub matcher: String,
    pub entries: Vec<HookEntry>,
}

/// The hooks of a single event: the event name and its ordered group list.
#[derive(Debug, Clone, PartialEq, Eq)]
pub struct EventHooks {
    pub event: String,
    pub groups: Vec<HookGroup>,
}

/// The `hooks` table of a settings document: an ordered association of event
/// names to group lists, with pairwise-distinct names.
#[derive(Debug, Clone, PartialEq, Eq)]
pub struct SettingsHooks {
    pub events: Vec<EventHooks>,
}

/// Mathematical view of a hook entry.
#[verifier::ext_equal]
pub ghost struct EntryView {
    pub entry_type: Seq<char>,
    pub command: Seq<char>,
}

/// Mathematical view of a hook group.
#[verifier::ext_equal]
pub ghost struct GroupView {
    pub matcher: Seq<char>,
    pub entries: Seq<EntryView>,
}

/// Mathematical view of one event's hooks.
#[verifier::ext_equal]
pub ghost struct EventView {
    pub event: Seq<char>,
    pub groups: Seq<GroupView>,
}

impl View for HookEntry {
    type V = EntryView;

    open spec fn view(&self) -> EntryView {
        EntryView { entry_type: self.entry_type@, command: self.command@ }
    }
}

impl View for HookGroup {
    type V = GroupView;

    open spec fn view(&self) -> GroupView {
        GroupView { matcher: self.matcher@, entries: self.entries@.map_values(|e: HookEntry| e@) }
    }
}

impl View for EventHooks {
    type V = EventView;

    open spec fn view(&self) -> EventView {
        EventView { event: self.event@, groups: groups_view(self.groups@) }
    }
}

impl View for SettingsHooks {
    type V = Seq<EventView>;

    open spec fn view(&self) -> Seq<EventView> {
        self.events@.map_values(|e: EventHooks| e@)
    }
}

/// View of a vector of groups as a sequence of group views.
pub open spec fn groups_view(gs: Seq<HookGroup>) -> Seq<GroupView> {
    gs.map_values(|g: HookGroup| g@)
}

/// Event names of a document view are pairwise distinct, as the keys of a
/// JSON object are.
pub open spec fn doc_wf(d: Seq<EventView>) -> bool {
    forall|i: int, j: int| 0 <= i < j < d.len() ==> d[i].event != d[j].event
}

/// The group list registered for `name`, if any: the first entry with that
/// event name.
pub open spec fn doc_lookup(d: Seq<EventView>, name: Seq<char>) -> Option<Seq<GroupView>>
    decreases d.len(),
{
    if d.len() == 0 {
        Option::None
    } else if d[0].event == name {
        Option::Some(d[0].groups)
    } else {
        doc_lookup(d.drop_first(), name)
    }
}

/// The document with `name` bound to `gs`: replaced in place if present,
/// appended at the end if absent.
pub open spec fn doc_set(d: Seq<EventView>, name: Seq<char>, gs: Seq<GroupView>) -> Seq<EventView>
    decreases d.len(),
{
    if d.len() == 0 {
        seq![EventView { event: name, groups: gs }]
    } else if d[0].event == name {
        seq![EventView { event: name, groups: gs }] + d.drop_first()
    } else {
        seq![d[0]] + doc_set(d.drop_first(), name, gs)
    }
}

impl SettingsHooks {
    /// The well-formedness invariant: distinct event names.
    pub open spec fn wf(&self) -> bool {
        doc_wf(self@)
    }

    /// An empty hooks table.
    pub fn new() -> (r: SettingsHooks)
        ensures
            r@ =~= Seq::<EventView>::empty(),
            r.wf(),
    {
        SettingsHooks { events: Vec::new() }
    }

    /// Position of the entry for `name`, if one exists.
    fn find_index(&self, name: &str) -> (r: Option<usize>)
        ensures
            match r {
                Option::Some(i) => {
                    &&& i < self.events@.len()
                    &&& self@[i as int].event == name@
                    &&& forall|k: int| 0 <= k < i ==> self@[k].event != name@
                },
                Option::None => forall|k: int| 0 <= k < self@.len() ==> self@[k].event != name@,
            },
    {
        let n = self.events.len();
        let mut i: usize = 0;
        while i < n
            invariant
                n == self.events@.len(),
                i <= n,
                forall|k: int| 0 <= k < i ==> self@[k].event != name@,
            decreases n - i,
        {
            if crate::text::str_eq(self.events[i].event.as_str(), name) {
                assert(self@[i as int].event == name@);
                return Option::Some(i);
            }
            assert(self@[i as int].event != name@);
            i = i + 1;
        }
        Option::None
    }

    /// Whether `name` is bound in the table.
    pub fn contains_event(&self, name: &str) -> (r: bool)
        ensures
            r == doc_lookup(self@, name@).is_some(),
    {
        proof {
            lemma_doc_lookup_index(self@, name@);
        }
        self.find_index(name).is_some()
    }

    /// A reference to the group list bound to `name`, if any.
    pub fn get_groups(&self, name: &str) -> (r: Option<&Vec<HookGroup>>)
        ensures
            match r {
                Option::Some(gs) => doc_lookup(self@, name@) == Option::Some(groups_view(gs@)),
                Option::None => doc_lookup(self@, name@).is_none(),
            },
    {
        proof {
            lemma_doc_lookup_index(self@, name@);
        }
        match self.find_index(name) {
            Option::Some(i) => Option::Some(&self.events[i].groups),
            Option::None => Option::None,
        }
    }

    /// Bind `name` to `groups`, replacing any existing binding in place and
    /// otherwise appending a new entry at the end.
    pub fn set_groups(&mut self, name: &str, groups: Vec<HookGroup>)
        requires
            old(self).wf(),
        ensures
            final(self).wf(),
            final(self)@ == doc_set(old(self)@, name@, groups_view(groups@)),
    {
        proof {
            lemma_doc_lookup_index(old(self)@, name@);
            lemma_doc_set_index(old(self)@, name@, groups_view(groups@));
        }
        let idx = self.find_index(name);
        match idx {
            Option::Some(i) => {
                let name_owned = String::from_str(name);
                self.events.set(i, EventHooks { event: name_owned, groups });
                proof {
                    let d = doc_set(old(self)@, name@, groups_view(groups@));
                    assert forall|k: int| 0 <= k < d.len() implies self@[k] == d[k] by {
                        if k == i {
                            assert(self@[k].event == name@);
                        } else {
                            if old(self)@[k].event == name@ {
                                assert(old(self)@[i as int].event == name@);
                                if k < i {
                                    assert(old(self)@[k].event != name@);
                                } else {
                                    assert(old(self)@[i as int].event != old(self)@[k].event);
                                }
                            }
                            assert(d[k] == old(self)@[k]);
                            assert(self@[k] == old(self)@[k]);
                        }
                    }
                    assert(self@ =~= d);
                    lemma_doc_set_wf(old(self)@, name@, groups_view(groups@));
                }
            },
            Option::None => {
                let name_owned = String::from_str(name);
                self.events.push(EventHooks { event: name_owned, groups });
                proof {
                    let d = doc_set(old(self)@, name@, groups_view(groups@));
                    assert(self@ =~= d);
                    lemma_doc_set_wf(old(self)@, name@, groups_view(groups@));
                }
            },
        }
    }
}

/// `doc_lookup` agrees with a first-index description: if some index holds
/// `name` and no earlier one does, the lookup returns that entry's groups;
/// if no index holds `name`, the lookup returns nothing.
pub proof fn lemma_doc_lookup_index(d: Seq<EventView>, name: Seq<char>)
    ensures
        forall|i: int|
            0 <= i < d.len() && d[i].event == name && (forall|k: int|
                0 <= k < i ==> d[k].event != name) ==> doc_lookup(d, name) == Option::Some(
                d[i].groups,
            ),
        (forall|k: int| 0 <= k < d.len() ==> d[k].event != name) ==> doc_lookup(
            d,
            name,
        ) is None,
    decreases d.len(),
{
    if d.len() > 0 {
        lemma_doc_lookup_index(d.drop_first(), name);
        assert forall|i: int|
            0 <= i < d.len() && d[i].event == name && (forall|k: int|
                0 <= k < i ==> d[k].event != name) implies doc_lookup(d, name) == Option::Some(
            d[i].groups,
        ) by {
            if i > 0 {
                assert(d.drop_first()[i - 1] == d[i]);
                assert(forall|k: int| 0 <= k < i - 1 ==> d.drop_first()[k] == d[k + 1]);
            }
        }
        if forall|k: int| 0 <= k < d.len() ==> d[k].event != name {
            assert(forall|k: int| 0 <= k < d.drop_first().len() ==> d.drop_first()[k].event != name);
        }
    }
}

/// Dropping the first entry of a well-formed document leaves it well-formed.
pub proof fn lemma_wf_drop_first(d: Seq<EventView>)
    requires
        d.len() > 0,
        doc_wf(d),
    ensures
        doc_wf(d.drop_first()),
{
    let t = d.drop_first();
    assert forall|i: int, j: int| 0 <= i < j < t.len() implies t[i].event != t[j].event by {
        assert(t[i] == d[i + 1]);
        assert(t[j] == d[j + 1]);
    }
}

/// What `doc_set` does, index by index: entries for other names are kept in
/// place, the entry for `name` holds `gs`, and the length grows by one
/// exactly when `name` was absent.
pub proof fn lemma_doc_set_index(d: Seq<EventView>, name: Seq<char>, gs: Seq<GroupView>)
    requires
        doc_wf(d),
    ensures
        doc_lookup(d, name) is Some ==> {
            &&& doc_set(d, name, gs).len() == d.len()
            &&& forall|i: int|
                0 <= i < d.len() && d[i].event != name ==> doc_set(d, name, gs)[i] == d[i]
            &&& forall|i: int|
                0 <= i < d.len() && d[i].event == name ==> doc_set(d, name, gs)[i] == (EventView {
                    event: name,
                    groups: gs,
                })
        },
        doc_lookup(d, name) is None ==> doc_set(d, name, gs) == d.push(
            EventView { event: name, groups: gs },
        ),
        doc_lookup(doc_set(d, name, gs), name) == Option::Some(gs),
    decreases d.len(),
{
    let new_entry = EventView { event: name, groups: gs };
    if d.len() == 0 {
        assert(doc_set(d, name, gs) =~= d.push(new_entry));
        assert(doc_set(d, name, gs)[0].event == name);
    } else if d[0].event == name {
        let d2 = doc_set(d, name, gs);
        assert(d2 =~= seq![new_entry] + d.drop_first());
        assert(d2.len() == d.len());
        assert forall|i: int| 0 <= i < d.len() && d[i].event != name implies d2[i] == d[i] by {
            assert(i > 0);
            assert(d2[i] == d.drop_first()[i - 1]);
        }
        assert forall|i: int| 0 <= i < d.len() && d[i].event == name implies d2[i] == new_entry by {
            if i > 0 {
                assert(d[i].event != d[0].event);
            }
        }
        assert(doc_lookup(d2, name) == Option::Some(gs));
    } else {
        lemma_wf_drop_first(d);
        lemma_doc_set_index(d.drop_first(), name, gs);
        let rest = doc_set(d.drop_first(), name, gs);
        let d2 = doc_set(d, name, gs);
        assert(d2 =~= seq![d[0]] + rest);
        assert(d2.drop_first() =~= rest);
        assert(doc_lookup(d2, name) == doc_lookup(rest, name));
        if doc_lookup(d, name) is Some {
            assert(doc_lookup(d.drop_first(), name) is Some);
            assert forall|i: int| 0 <= i < d.len() && d[i].event != name implies d2[i] == d[i] by {
                if i > 0 {
                    assert(d2[i] == rest[i - 1]);
                    assert(d.drop_first()[i - 1] == d[i]);
                }
            }
            assert forall|i: int| 0 <= i < d.len() && d[i].event == name implies d2[i]
                == new_entry by {
                assert(i > 0);
                assert(d2[i] == rest[i - 1]);
                assert(d.drop_first()[i - 1] == d[i]);
            }
        } else {
            assert(doc_lookup(d.drop_first(), name) is None);
            assert(rest == d.drop_first().push(new_entry));
            assert(d2 =~= d.push(new_entry));
        }
    }
}

/// `doc_set` preserves well-formedness.
pub proof fn lemma_doc_set_wf(d: Seq<EventView>, name: Seq<char>, gs: Seq<GroupView>)
    requires
        doc_wf(d),
    ensures
        doc_wf(doc_set(d, name, gs)),
    decreases d.len(),
{
    lemma_doc_set_index(d, name, gs);
    if doc_lookup(d, name) is Some {
        let d2 = doc_set(d, name, gs);
        assert forall|i: int, j: int| 0 <= i < j < d2.len() implies d2[i].event != d2[j].event by {
            assert(d[i].event != d[j].event);
        }
    } else {
        let d2 = d.push(EventView { event: name, groups: gs });
        lemma_doc_lookup_index(d, name);
        if exists|k: int| 0 <= k < d.len() && d[k].event == name {
            let k = choose|k: int| 0 <= k < d.len() && d[k].event == name;
            let k0 = first_with_name(d, name, k);
            assert(doc_lookup(d, name) is Some);
        }
        assert forall|i: int, j: int| 0 <= i < j < d2.len() implies d2[i].event != d2[j].event by {
            if j < d.len() {
                assert(d[i].event != d[j].event);
            } else {
                assert(d2[j].event == name);
                assert(d[i].event != name);
            }
        }
    }
}

/// The least index at or below `k` holding `name`.
proof fn first_with_name(d: Seq<EventView>, name: Seq<char>, k: int) -> (r: int)
    requires
        0 <= k < d.len(),
        d[k].event == name,
    ensures
        0 <= r < d.len(),
        d[r].event == name,
        forall|m: int| 0 <= m < r ==> d[m].event != name,
    decreases k,
{
    if exists|m: int| 0 <= m < k && d[m].event == name {
        let m = choose|m: int| 0 <= m < k && d[m].event == name;
        first_with_name(d, name, m)
    } else {
        k
    }
}

} // verus!
