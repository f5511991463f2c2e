//! Grouping of entries by application: totals, and the first and the last
//! category of each.
use crate::model::Category;
use crate::seqs::{distinct, lemma_sum_step, lemma_views_push, lemma_views_update, sum, views};
use crate::text::text_eq;
use vstd::prelude::*;

verus! {

/// What one session adds to its application.
pub struct Entry {
    pub app_name: String,
    pub category: Category,
    pub weight: i128,
}

pub struct EntryView {
    pub app_name: Seq<char>,
    pub category: Category,
    pub weight: int,
}

impl View for Entry {
    type V = EntryView;

    open spec fn view(&self) -> EntryView {
        EntryView { app_name: self.app_name@, category: self.category, weight: self.weight as int }
    }
}

/// One application with what its entries add up to.
pub struct Group {
    pub app_name: String,
    pub oldest: Category,
    pub newest: Category,
    pub total: i128,
}

pub struct GroupView {
    pub app_name: Seq<char>,
    pub oldest: Category,
    pub newest: Category,
    pub total: int,
}

impl View for Group {
    type V = GroupView;

    open spec fn view(&self) -> GroupView {
        GroupView {
            app_name: self.app_name@,
            oldest: self.oldest,
            newest: self.newest,
            total: self.total as int,
        }
    }
}

/// The weight of an entry, if it is of the application.
pub open spec fn weight_for(app_name: Seq<char>) -> spec_fn(EntryView) -> int {
    |e: EntryView|
        if e.app_name == app_name {
            e.weight
        } else {
            0
        }
}

pub open spec fn is_first(es: Seq<EntryView>, app_name: Seq<char>, j: int) -> bool {
    &&& 0 <= j < es.len()
    &&& es[j].app_name == app_name
    &&& forall|i: int| 0 <= i < j ==> (#[trigger] es[i]).app_name != app_name
}

pub open spec fn is_last(es: Seq<EntryView>, app_name: Seq<char>, j: int) -> bool {
    &&& 0 <= j < es.len()
    &&& es[j].app_name == app_name
    &&& forall|i: int| j < i < es.len() ==> (#[trigger] es[i]).app_name != app_name
}

/// A group sums up the entries of its application and knows the category of
/// the first and the last of them.
pub open spec fn sums_up(es: Seq<EntryView>, g: GroupView) -> bool {
    &&& g.total == sum(es, weight_for(g.app_name))
    &&& exists|j: int| #[trigger] is_first(es, g.app_name, j) && es[j].category == g.oldest
    &&& exists|j: int| #[trigger] is_last(es, g.app_name, j) && es[j].category == g.newest
}

pub open spec fn group_key() -> spec_fn(GroupView) -> Seq<char> {
    |g: GroupView| g.app_name
}

pub open spec fn has_group(gs: Seq<GroupView>, app_name: Seq<char>) -> bool {
    exists|k: int| 0 <= k < gs.len() && (#[trigger] gs[k]).app_name == app_name
}

/// One group for each application that has an entry.
pub open spec fn grouped(es: Seq<EntryView>, gs: Seq<GroupView>) -> bool {
    &&& distinct(gs, group_key())
    &&& forall|k: int| 0 <= k < gs.len() ==> sums_up(es, #[trigger] gs[k])
    &&& forall|j: int| 0 <= j < es.len() ==> has_group(gs, (#[trigger] es[j]).app_name)
}

/// A group of another application stays as it is.
proof fn lemma_other_app(es: Seq<EntryView>, i: int, g: GroupView)
    requires
        0 <= i < es.len(),
        sums_up(es.take(i), g),
        g.app_name != es[i].app_name,
    ensures
        sums_up(es.take(i + 1), g),
{
    let a = es.take(i);
    let b = es.take(i + 1);
    lemma_sum_step(es, weight_for(g.app_name), i);
    let j = choose|j: int| #[trigger] is_first(a, g.app_name, j) && a[j].category == g.oldest;
    assert(is_first(b, g.app_name, j)) by {
        assert forall|k: int| 0 <= k < j implies (#[trigger] b[k]).app_name != g.app_name by {
            assert(a[k].app_name != g.app_name);
        }
    }
    let l = choose|j: int| #[trigger] is_last(a, g.app_name, j) && a[j].category == g.newest;
    assert(is_last(b, g.app_name, l)) by {
        assert forall|k: int| l < k < b.len() implies (#[trigger] b[k]).app_name != g.app_name by {
            if k < i {
                assert(a[k].app_name != g.app_name);
            }
        }
    }
    assert(b[j] == a[j] && b[l] == a[l]);
}

/// A group of the same application takes the entry in.
proof fn lemma_same_app(es: Seq<EntryView>, i: int, g: GroupView, after: GroupView)
    requires
        0 <= i < es.len(),
        sums_up(es.take(i), g),
        g.app_name == es[i].app_name,
        after == (GroupView { newest: es[i].category, total: g.total + es[i].weight, ..g }),
    ensures
        sums_up(es.take(i + 1), after),
{
    let a = es.take(i);
    let b = es.take(i + 1);
    lemma_sum_step(es, weight_for(g.app_name), i);
    let j = choose|j: int| #[trigger] is_first(a, g.app_name, j) && a[j].category == g.oldest;
    assert(is_first(b, g.app_name, j)) by {
        assert forall|k: int| 0 <= k < j implies (#[trigger] b[k]).app_name != g.app_name by {
            assert(a[k].app_name != g.app_name);
        }
    }
    assert(is_first(b, after.app_name, j) && b[j].category == after.oldest);
    assert(is_last(b, after.app_name, i) && b[i].category == after.newest);
    assert(after.total == sum(b, weight_for(after.app_name)));
}

/// The first entry of an application makes a group.
proof fn lemma_new_app(es: Seq<EntryView>, i: int, gs: Seq<GroupView>, g: GroupView)
    requires
        0 <= i < es.len(),
        grouped(es.take(i), gs),
        !has_group(gs, es[i].app_name),
        g == (GroupView {
            app_name: es[i].app_name,
            oldest: es[i].category,
            newest: es[i].category,
            total: es[i].weight,
        }),
    ensures
        sums_up(es.take(i + 1), g),
{
    let a = es.take(i);
    let b = es.take(i + 1);
    assert forall|k: int| 0 <= k < i implies (#[trigger] a[k]).app_name != g.app_name by {
        assert(has_group(gs, a[k].app_name));
    }
    lemma_sum_step(es, weight_for(g.app_name), i);
    lemma_sum_none(a, g.app_name);
    assert(is_first(b, g.app_name, i)) by {
        assert forall|k: int| 0 <= k < i implies (#[trigger] b[k]).app_name != g.app_name by {
            assert(a[k] == b[k]);
        }
    }
    assert(is_last(b, g.app_name, i));
}

proof fn lemma_sum_none(es: Seq<EntryView>, app_name: Seq<char>)
    requires
        forall|k: int| 0 <= k < es.len() ==> (#[trigger] es[k]).app_name != app_name,
    ensures
        sum(es, weight_for(app_name)) == 0,
    decreases es.len(),
{
    if es.len() > 0 {
        assert forall|k: int| 0 <= k < es.drop_last().len() implies (
        #[trigger] es.drop_last()[k]).app_name != app_name by {
            assert(es[k].app_name != app_name);
        }
        lemma_sum_none(es.drop_last(), app_name);
        assert(es[es.len() - 1].app_name != app_name);
    }
}

fn group_at(groups: &Vec<Group>, app_name: &str) -> (res: Option<usize>)
    ensures
        match res {
            Some(k) => k < groups.len() && views(groups@)[k as int].app_name == app_name@,
            None => !has_group(views(groups@), app_name@),
        },
{
    let mut k: usize = 0;
    while k < groups.len()
        invariant
            k <= groups.len(),
            forall|l: int| 0 <= l < k ==> (#[trigger] views(groups@)[l]).app_name != app_name@,
        decreases groups.len() - k,
    {
        if text_eq(groups[k].app_name.as_str(), app_name) {
            return Some(k);
        }
        k += 1;
    }
    None
}

/// Groups entries by application.
pub fn group_by_app(entries: &Vec<Entry>) -> (groups: Vec<Group>)
    requires
        forall|i: int|
            0 <= i < entries.len() ==> -0x8000_0000_0000_0000 <= (#[trigger] entries@[i]).weight
                <= 0x8000_0000_0000_0000,
    ensures
        grouped(views(entries@), views(groups@)),
{
    let ghost es = views(entries@);
    let mut groups: Vec<Group> = Vec::new();
    let mut i: usize = 0;
    while i < entries.len()
        invariant
            i <= entries.len(),
            es == views(entries@),
            forall|i: int|
                0 <= i < entries.len() ==> -0x8000_0000_0000_0000 <= (
                #[trigger] entries@[i]).weight <= 0x8000_0000_0000_0000,
            grouped(es.take(i as int), views(groups@)),
            forall|k: int|
                0 <= k < groups.len() ==> -(i * 0x8000_0000_0000_0000) <= (
                #[trigger] groups@[k]).total <= i * 0x8000_0000_0000_0000,
        decreases entries.len() - i,
    {
        let e = &entries[i];
        let ghost before = views(groups@);
        let ghost a = es.take(i as int);
        let ghost b = es.take(i + 1);
        assert(es[i as int] == e@);
        match group_at(&groups, e.app_name.as_str()) {
            Some(k) => {
                let ghost rows = groups@;
                groups[k].newest = e.category;
                groups[k].total = groups[k].total + e.weight;
                proof {
                    let g = groups@[k as int];
                    assert(groups@ =~= rows.update(k as int, g));
                    lemma_views_update(rows, k as int, g);
                    lemma_same_app(es, i as int, before[k as int], g@);
                    let after = views(groups@);
                    assert forall|l: int| 0 <= l < after.len() implies sums_up(
                        b,
                        #[trigger] after[l],
                    ) by {
                        if l != k {
                            assert(group_key()(before[l]) != group_key()(before[k as int]));
                            lemma_other_app(es, i as int, before[l]);
                        }
                    }
                    assert forall|l: int, m: int|
                        0 <= l < after.len() && 0 <= m < after.len() && l != m implies group_key()(
                        #[trigger] after[l],
                    ) != group_key()(#[trigger] after[m]) by {
                        assert(group_key()(before[l]) != group_key()(before[m]));
                    }
                    assert forall|j: int| 0 <= j < b.len() implies has_group(
                        after,
                        (#[trigger] b[j]).app_name,
                    ) by {
                        if j < i {
                            assert(has_group(before, a[j].app_name));
                            let l = choose|l: int|
                                0 <= l < before.len() && (#[trigger] before[l]).app_name
                                    == a[j].app_name;
                            assert(after[l].app_name == b[j].app_name);
                        } else {
                            assert(after[k as int].app_name == b[j].app_name);
                        }
                    }
                }
            },
            None => {
                let g = Group {
                    app_name: e.app_name.clone(),
                    oldest: e.category,
                    newest: e.category,
                    total: e.weight,
                };
                proof {
                    lemma_new_app(es, i as int, before, g@);
                    lemma_views_push(groups@, g);
                    let after = before.push(g@);
                    assert forall|l: int| 0 <= l < after.len() implies sums_up(
                        b,
                        #[trigger] after[l],
                    ) by {
                        if l < before.len() {
                            assert(before[l].app_name != e.app_name@);
                            lemma_other_app(es, i as int, before[l]);
                        }
                    }
                    assert forall|l: int, m: int|
                        0 <= l < after.len() && 0 <= m < after.len() && l != m implies group_key()(
                        #[trigger] after[l],
                    ) != group_key()(#[trigger] after[m]) by {
                        if l < before.len() && m < before.len() {
                            assert(group_key()(before[l]) != group_key()(before[m]));
                        } else if l < before.len() {
                            assert(before[l].app_name != g@.app_name);
                        } else {
                            assert(before[m].app_name != g@.app_name);
                        }
                    }
                    assert forall|j: int| 0 <= j < b.len() implies has_group(
                        after,
                        (#[trigger] b[j]).app_name,
                    ) by {
                        if j < i {
                            assert(has_group(before, a[j].app_name));
                            let l = choose|l: int|
                                0 <= l < before.len() && (#[trigger] before[l]).app_name
                                    == a[j].app_name;
                            assert(after[l].app_name == b[j].app_name);
                        } else {
                            assert(after[before.len() as int].app_name == b[j].app_name);
                        }
                    }
                }
                groups.push(g);
            },
        }
        i += 1;
    }
    assert(es.take(es.len() as int) =~= es);
    groups
}

} // verus!
