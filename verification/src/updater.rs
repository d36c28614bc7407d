//! Applying version updates to Maven POM files.
//!
//! Outdated results are grouped by the POM they come from; each POM gets its
//! property updates and its inline version updates, and each result in the
//! group becomes an update result once the POM is written (or fails to be).
//! Reading and writing the files is left to the caller.

use vstd::prelude::*;

use crate::discovery::seq_le;
use crate::error::DepupError;
use crate::model::{DependencyInfo, UpdateResult, UpdateStatus, VersionResult};
use crate::pom_writer::{update_views, InlineUpdateView, InlineVersionUpdate};
use crate::props::{pairs_insert, PropertyMap};
use crate::sorting::{by_key, insert_by, insertion_sort, lemma_insertion_sort, lemma_key_order_total};
use crate::text::str_eq;

verus! {

/// The updates for one POM: the results with a version property (one per
/// property name, the last result for a name winning) and the results with an
/// inline version, as positions in the list of outdated results.
#[derive(Debug)]
pub struct PomUpdates {
    pub source: String,
    pub properties: Vec<(String, usize)>,
    pub inline: Vec<usize>,
}

/// The view of a [`PomUpdates`].
pub struct PomUpdatesView {
    pub source: Seq<char>,
    pub properties: Seq<(Seq<char>, int)>,
    pub inline: Seq<int>,
}

impl View for PomUpdates {
    type V = PomUpdatesView;

    open spec fn view(&self) -> PomUpdatesView {
        PomUpdatesView {
            source: self.source@,
            properties: self.properties@.map_values(|p: (String, usize)| (p.0@, p.1 as int)),
            inline: self.inline@.map_values(|i: usize| i as int),
        }
    }
}

/// The views of a list of POM updates.
pub open spec fn plan_views(v: Seq<PomUpdates>) -> Seq<PomUpdatesView> {
    v.map_values(|p: PomUpdates| p@)
}

/// The position of the first entry of `p` with key `k`.
pub open spec fn first_key(p: Seq<(Seq<char>, int)>, k: Seq<char>, from: int) -> Option<int>
    decreases p.len() - from,
{
    if from < 0 || from >= p.len() {
        None
    } else if p[from].0 == k {
        Some(from)
    } else {
        first_key(p, k, from + 1)
    }
}

/// `p` with `(k, v)` stored: replacing the entry with key `k`, or appended.
pub open spec fn keyed_insert(p: Seq<(Seq<char>, int)>, k: Seq<char>, v: int) -> Seq<(Seq<char>, int)> {
    match first_key(p, k, 0) {
        Some(i) => p.update(i, (k, v)),
        None => p.push((k, v)),
    }
}

/// The position of the first plan for POM `source`.
pub open spec fn plan_for(plans: Seq<PomUpdatesView>, source: Seq<char>, from: int) -> Option<int>
    decreases plans.len() - from,
{
    if from < 0 || from >= plans.len() {
        None
    } else if plans[from].source == source {
        Some(from)
    } else {
        plan_for(plans, source, from + 1)
    }
}

/// The plans after taking in result `r` at position `i`.
pub open spec fn plan_add(plans: Seq<PomUpdatesView>, r: VersionResult, i: int) -> Seq<PomUpdatesView> {
    let source = r.dep.source@;
    let (plans2, at) = match plan_for(plans, source, 0) {
        Some(j) => (plans, j),
        None => (plans.push(PomUpdatesView { source, properties: Seq::empty(), inline: Seq::empty() }), plans.len() as int),
    };
    let p = plans2[at];
    let p2 = match r.dep.property {
        Some(prop) => PomUpdatesView { properties: keyed_insert(p.properties, prop@, i), ..p },
        None => PomUpdatesView { inline: p.inline.push(i), ..p },
    };
    plans2.update(at, p2)
}

/// The plans for the outdated results, one per POM in order of first appearance.
pub open spec fn spec_plan(outdated: Seq<VersionResult>) -> Seq<PomUpdatesView>
    decreases outdated.len(),
{
    if outdated.len() == 0 {
        Seq::empty()
    } else {
        plan_add(spec_plan(outdated.drop_last()), outdated.last(), outdated.len() - 1)
    }
}

fn first_key_exec(p: &Vec<(String, usize)>, k: &str) -> (r: Option<usize>)
    ensures
        match r {
            Some(i) => first_key(p@.map_values(|e: (String, usize)| (e.0@, e.1 as int)), k@, 0) == Some(i as int) && i < p@.len(),
            None => first_key(p@.map_values(|e: (String, usize)| (e.0@, e.1 as int)), k@, 0) is None,
        },
{
    let ghost pv = p@.map_values(|e: (String, usize)| (e.0@, e.1 as int));
    let mut i: usize = 0;
    while i < p.len()
        invariant
            pv == p@.map_values(|e: (String, usize)| (e.0@, e.1 as int)),
            i <= p@.len(),
            first_key(pv, k@, 0) == first_key(pv, k@, i as int),
        decreases p@.len() - i,
    {
        assert(pv[i as int].0 == p@[i as int].0@);
        if str_eq(p[i].0.as_str(), k) {
            return Some(i);
        }
        i = i + 1;
    }
    None
}

fn plan_for_exec(plans: &Vec<PomUpdates>, source: &str) -> (r: Option<usize>)
    ensures
        match r {
            Some(i) => plan_for(plan_views(plans@), source@, 0) == Some(i as int) && i < plans@.len(),
            None => plan_for(plan_views(plans@), source@, 0) is None,
        },
{
    let ghost pv = plan_views(plans@);
    let mut i: usize = 0;
    while i < plans.len()
        invariant
            pv == plan_views(plans@),
            i <= plans@.len(),
            plan_for(pv, source@, 0) == plan_for(pv, source@, i as int),
        decreases plans@.len() - i,
    {
        assert(pv[i as int].source == plans@[i as int].source@);
        if str_eq(plans[i].source.as_str(), source) {
            return Some(i);
        }
        i = i + 1;
    }
    None
}

/// Every position the plans hold is below `n`.
pub open spec fn indices_below(plans: Seq<PomUpdatesView>, n: int) -> bool {
    &&& forall|j: int, k: int| 0 <= j < plans.len() && 0 <= k < plans[j].properties.len() ==> 0 <= #[trigger] plans[j].properties[k].1 < n
    &&& forall|j: int, k: int| 0 <= j < plans.len() && 0 <= k < plans[j].inline.len() ==> 0 <= #[trigger] plans[j].inline[k] < n
}

/// Groups the outdated results by the POM they come from.
pub fn plan_pom_updates(outdated: &Vec<VersionResult>) -> (r: Vec<PomUpdates>)
    ensures
        plan_views(r@) == spec_plan(outdated@),
        indices_below(plan_views(r@), outdated@.len() as int),
{
    let ghost os = outdated@;
    let mut plans: Vec<PomUpdates> = Vec::new();
    let mut i: usize = 0;
    assert(os.subrange(0, 0) =~= Seq::<VersionResult>::empty());
    assert(plan_views(plans@) =~= spec_plan(os.subrange(0, 0)));
    while i < outdated.len()
        invariant
            os == outdated@,
            i <= os.len(),
            plan_views(plans@) == spec_plan(os.subrange(0, i as int)),
        decreases os.len() - i,
    {
        let r = &outdated[i];
        assert(os.subrange(0, i as int + 1).drop_last() =~= os.subrange(0, i as int));
        assert(os.subrange(0, i as int + 1).last() == *r);
        let ghost pv0 = plan_views(plans@);
        let at = match plan_for_exec(&plans, r.source()) {
            Some(j) => j,
            None => {
                plans.push(PomUpdates { source: String::from_str(r.source()), properties: Vec::new(), inline: Vec::new() });
                proof {
                    let e = PomUpdatesView { source: r.dep.source@, properties: Seq::empty(), inline: Seq::empty() };
                    assert(plans@.last()@.properties =~= e.properties);
                    assert(plans@.last()@.inline =~= e.inline);
                    assert(plan_views(plans@) =~= pv0.push(e));
                }
                plans.len() - 1
            },
        };
        let ghost pv1 = plan_views(plans@);
        let mut plans_tmp = plans;
        let mut removed = plans_tmp.remove(at);
        let ghost rest = plans_tmp@;
        match &r.dep.property {
            Some(prop) => {
                let ghost before = removed@.properties;
                match first_key_exec(&removed.properties, prop.as_str()) {
                    Some(k) => {
                        removed.properties.set(k, (prop.clone(), i));
                    },
                    None => {
                        removed.properties.push((prop.clone(), i));
                    },
                }
                assert(removed@.properties =~= keyed_insert(before, prop@, i as int));
            },
            None => {
                let ghost before = removed@.inline;
                removed.inline.push(i);
                assert(removed@.inline =~= before.push(i as int));
            },
        }
        plans_tmp.insert(at, removed);
        plans = plans_tmp;
        proof {
            assert(plan_views(plans@) =~= pv1.update(at as int, plans@[at as int]@));
        }
        i = i + 1;
    }
    assert(os.subrange(0, os.len() as int) =~= os);
    proof {
        lemma_plan_indices(os);
    }
    plans
}

proof fn lemma_first_key_range(p: Seq<(Seq<char>, int)>, k: Seq<char>, from: int)
    ensures
        first_key(p, k, from) matches Some(i) ==> 0 <= i < p.len(),
    decreases p.len() - from,
{
    if 0 <= from < p.len() && p[from].0 != k {
        lemma_first_key_range(p, k, from + 1);
    }
}

proof fn lemma_plan_for_range(plans: Seq<PomUpdatesView>, source: Seq<char>, from: int)
    ensures
        plan_for(plans, source, from) matches Some(i) ==> 0 <= i < plans.len(),
    decreases plans.len() - from,
{
    if 0 <= from < plans.len() && plans[from].source != source {
        lemma_plan_for_range(plans, source, from + 1);
    }
}

proof fn lemma_keyed_insert(p: Seq<(Seq<char>, int)>, k: Seq<char>, v: int, n: int)
    requires
        forall|j: int| 0 <= j < p.len() ==> 0 <= #[trigger] p[j].1 < n,
        0 <= v < n,
    ensures
        forall|j: int| 0 <= j < keyed_insert(p, k, v).len() ==> 0 <= #[trigger] keyed_insert(p, k, v)[j].1 < n,
{
    lemma_first_key_range(p, k, 0);
    let q = keyed_insert(p, k, v);
    assert forall|j: int| 0 <= j < q.len() implies 0 <= #[trigger] q[j].1 < n by {
        match first_key(p, k, 0) {
            Some(i) => {
                if j != i {
                    assert(q[j] == p[j]);
                }
            },
            None => {
                if j < p.len() {
                    assert(q[j] == p[j]);
                }
            },
        }
    }
}

proof fn lemma_plan_indices(os: Seq<VersionResult>)
    ensures
        indices_below(spec_plan(os), os.len() as int),
    decreases os.len(),
{
    if os.len() > 0 {
        let t = os.drop_last();
        lemma_plan_indices(t);
        let plans = spec_plan(t);
        let r = os.last();
        let i = os.len() - 1;
        let source = r.dep.source@;
        let (plans2, at) = match plan_for(plans, source, 0) {
            Some(j) => (plans, j),
            None => (plans.push(PomUpdatesView { source, properties: Seq::empty(), inline: Seq::empty() }), plans.len() as int),
        };
        lemma_plan_for_range(plans, source, 0);
        let n = os.len() as int;
        assert forall|j: int, k: int| 0 <= j < plans2.len() && 0 <= k < plans2[j].properties.len() implies 0 <= #[trigger] plans2[j].properties[k].1 < n by {
            if j < plans.len() {
                assert(plans2[j] == plans[j]);
                assert(0 <= plans[j].properties[k].1 < n - 1);
            }
        }
        assert forall|j: int, k: int| 0 <= j < plans2.len() && 0 <= k < plans2[j].inline.len() implies 0 <= #[trigger] plans2[j].inline[k] < n by {
            if j < plans.len() {
                assert(plans2[j] == plans[j]);
                assert(0 <= plans[j].inline[k] < n - 1);
            }
        }
        assert(0 <= at < plans2.len());
        let p = plans2[at];
        assert(forall|k: int| 0 <= k < p.properties.len() ==> 0 <= #[trigger] p.properties[k].1 < n) by {
            assert forall|k: int| 0 <= k < p.properties.len() implies 0 <= #[trigger] p.properties[k].1 < n by {
                assert(0 <= plans2[at].properties[k].1 < n);
            }
        }
        let p2 = match r.dep.property {
            Some(prop) => {
                lemma_keyed_insert(p.properties, prop@, i, n);
                PomUpdatesView { properties: keyed_insert(p.properties, prop@, i), ..p }
            },
            None => PomUpdatesView { inline: p.inline.push(i), ..p },
        };
        let result = plans2.update(at, p2);
        assert(result == spec_plan(os));
        assert forall|j: int, k: int| 0 <= j < result.len() && 0 <= k < result[j].properties.len() implies 0 <= #[trigger] result[j].properties[k].1 < n by {
            if j != at {
                assert(result[j] == plans2[j]);
                assert(0 <= plans2[j].properties[k].1 < n);
            }
        }
        assert forall|j: int, k: int| 0 <= j < result.len() && 0 <= k < result[j].inline.len() implies 0 <= #[trigger] result[j].inline[k] < n by {
            if j != at {
                assert(result[j] == plans2[j]);
                assert(0 <= plans2[j].inline[k] < n);
            } else if k < p.inline.len() {
                assert(0 <= plans2[at].inline[k] < n);
            }
        }
    }
}

/// The positions of the results of POM `source` that have no version property,
/// in order.
pub open spec fn inline_positions(os: Seq<VersionResult>, source: Seq<char>) -> Seq<int>
    decreases os.len(),
{
    if os.len() == 0 {
        Seq::empty()
    } else {
        let rest = inline_positions(os.drop_last(), source);
        if os.last().dep.source@ == source && os.last().dep.property is None {
            rest.push(os.len() - 1)
        } else {
            rest
        }
    }
}

proof fn lemma_inline_positions_members(os: Seq<VersionResult>, source: Seq<char>)
    ensures
        forall|k: int| 0 <= k < inline_positions(os, source).len() ==> {
            let x = #[trigger] inline_positions(os, source)[k];
            0 <= x < os.len() && os[x].dep.source@ == source && os[x].dep.property is None
        },
    decreases os.len(),
{
    if os.len() > 0 {
        let t = os.drop_last();
        lemma_inline_positions_members(t, source);
        let rest = inline_positions(t, source);
        let out = inline_positions(os, source);
        assert forall|k: int| 0 <= k < out.len() implies {
            let x = #[trigger] out[k];
            0 <= x < os.len() && os[x].dep.source@ == source && os[x].dep.property is None
        } by {
            if k < rest.len() {
                assert(out[k] == rest[k]);
                assert(os[rest[k]] == t[rest[k]]);
            }
        }
    }
}

/// Result `r` is of POM `source` and has version property `name`.
pub open spec fn sets_property(r: VersionResult, source: Seq<char>, name: Seq<char>) -> bool {
    r.dep.source@ == source && crate::pom::opt_view(r.dep.property) == Some(name)
}

/// The property entries of a plan: no two share a name, and each stands for the
/// last result of the plan's POM with that property.
pub open spec fn properties_last_wins(p: PomUpdatesView, os: Seq<VersionResult>) -> bool {
    &&& forall|a: int, b: int| 0 <= a < b < p.properties.len() ==> (#[trigger] p.properties[a]).0 != (#[trigger] p.properties[b]).0
    &&& forall|k: int, m: int| 0 <= k < p.properties.len() && (#[trigger] p.properties[k]).1 < m < os.len()
        ==> !sets_property(#[trigger] os[m], p.source, p.properties[k].0)
}

/// Each plan holds, as inline updates, exactly the results of its POM without a
/// version property, in order; and, as property updates, one entry per property
/// name: the last result of its POM with that property.
pub proof fn lemma_plan_exact(os: Seq<VersionResult>)
    ensures
        forall|j: int| 0 <= j < spec_plan(os).len() ==> (#[trigger] spec_plan(os)[j]).inline == inline_positions(os, spec_plan(os)[j].source),
        forall|j: int| 0 <= j < spec_plan(os).len() ==> properties_last_wins(#[trigger] spec_plan(os)[j], os),
    decreases os.len(),
{
    if os.len() > 0 {
        let t = os.drop_last();
        lemma_plan_exact(t);
        lemma_plan_covers_every_result(t);
        let plans = spec_plan(t);
        let r = os.last();
        let i = os.len() - 1;
        let source = r.dep.source@;
        lemma_plan_for_spec(plans, source, 0);
        let (plans2, at) = match plan_for(plans, source, 0) {
            Some(j) => (plans, j),
            None => (plans.push(PomUpdatesView { source, properties: Seq::empty(), inline: Seq::empty() }), plans.len() as int),
        };
        let p = plans2[at];
        let p2 = match r.dep.property {
            Some(prop) => PomUpdatesView { properties: keyed_insert(p.properties, prop@, i), ..p },
            None => PomUpdatesView { inline: p.inline.push(i), ..p },
        };
        let result = plans2.update(at, p2);
        assert(result == spec_plan(os));
        assert(os[i] == r);
        assert forall|m: int| 0 <= m < t.len() implies #[trigger] os[m] == t[m] by {}
        // Other plans are of other POMs.
        assert forall|j: int| 0 <= j < plans2.len() && j != at implies (#[trigger] plans2[j]).source != source by {
            if j < plans.len() {
                assert(plans2[j] == plans[j]);
            }
        }
        // The plan for `source`, before the update, matches `t`.
        assert(p.inline == inline_positions(t, source) && properties_last_wins(p, t)) by {
            if plan_for(plans, source, 0) is None {
                lemma_inline_positions_members(t, source);
                let ip = inline_positions(t, source);
                if ip.len() > 0 {
                    let x = ip[0];
                    assert(covered(plans, t, x));
                    let j = choose|j: int| 0 <= j < plans.len() && covers(#[trigger] plans[j], t, x);
                    assert(false);
                }
                assert(ip =~= Seq::<int>::empty());
            }
        }
        assert forall|j: int| 0 <= j < result.len() implies (#[trigger] result[j]).inline == inline_positions(os, result[j].source) by {
            if j != at {
                assert(result[j] == plans2[j]);
                assert(plans2[j] == plans[j]);
            }
        }
        assert forall|j: int| 0 <= j < result.len() implies properties_last_wins(#[trigger] result[j], os) by {
            if j != at {
                assert(result[j] == plans2[j]);
                assert(plans2[j] == plans[j]);
                assert(properties_last_wins(plans[j], t));
                let q = plans[j];
                assert forall|k: int, m: int| 0 <= k < q.properties.len() && (#[trigger] q.properties[k]).1 < m < os.len()
                    implies !sets_property(#[trigger] os[m], q.source, q.properties[k].0) by {
                    if m < t.len() {
                        assert(os[m] == t[m]);
                    }
                }
            } else {
                match r.dep.property {
                    Some(prop) => {
                        lemma_first_key_spec(p.properties, prop@, 0);
                        let q = keyed_insert(p.properties, prop@, i);
                        assert forall|a: int, b: int| 0 <= a < b < q.len() implies (#[trigger] q[a]).0 != (#[trigger] q[b]).0 by {
                            match first_key(p.properties, prop@, 0) {
                                Some(fi) => {
                                    if a != fi { assert(q[a] == p.properties[a]); }
                                    if b != fi { assert(q[b] == p.properties[b]); }
                                },
                                None => {
                                    if a < p.properties.len() { assert(q[a] == p.properties[a]); }
                                    if b < p.properties.len() { assert(q[b] == p.properties[b]); }
                                },
                            }
                        }
                        assert forall|k: int, m: int| 0 <= k < q.len() && (#[trigger] q[k]).1 < m < os.len()
                            implies !sets_property(#[trigger] os[m], p2.source, q[k].0) by {
                            match first_key(p.properties, prop@, 0) {
                                Some(fi) => {
                                    if k != fi {
                                        assert(q[k] == p.properties[k]);
                                        if m < t.len() {
                                            assert(os[m] == t[m]);
                                        } else {
                                            assert(p.properties[k].0 != p.properties[fi].0);
                                        }
                                    }
                                },
                                None => {
                                    if k < p.properties.len() {
                                        assert(q[k] == p.properties[k]);
                                        if m < t.len() {
                                            assert(os[m] == t[m]);
                                        }
                                    }
                                },
                            }
                        }
                    },
                    None => {
                        assert forall|k: int, m: int| 0 <= k < p.properties.len() && (#[trigger] p.properties[k]).1 < m < os.len()
                            implies !sets_property(#[trigger] os[m], p.source, p.properties[k].0) by {
                            if m < t.len() {
                                assert(os[m] == t[m]);
                            }
                        }
                        assert(p2.inline =~= inline_positions(t, source).push(i));
                    },
                }
            }
        }
    }
}

/// What [`first_key`] finds: the first entry with key `k` from `from` on.
proof fn lemma_first_key_spec(p: Seq<(Seq<char>, int)>, k: Seq<char>, from: int)
    requires
        0 <= from,
    ensures
        match first_key(p, k, from) {
            Some(i) => from <= i < p.len() && p[i].0 == k,
            None => forall|m: int| from <= m < p.len() ==> (#[trigger] p[m]).0 != k,
        },
    decreases p.len() - from,
{
    if from < p.len() && p[from].0 != k {
        lemma_first_key_spec(p, k, from + 1);
    }
}

/// What [`plan_for`] finds: the first plan for `source` from `from` on.
proof fn lemma_plan_for_spec(plans: Seq<PomUpdatesView>, source: Seq<char>, from: int)
    requires
        0 <= from,
    ensures
        match plan_for(plans, source, from) {
            Some(j) => from <= j < plans.len() && plans[j].source == source,
            None => forall|m: int| from <= m < plans.len() ==> (#[trigger] plans[m]).source != source,
        },
    decreases plans.len() - from,
{
    if from < plans.len() && plans[from].source != source {
        lemma_plan_for_spec(plans, source, from + 1);
    }
}

/// The plan `p` covers result `i` of `os`: under its property name, or in its
/// inline list.
pub open spec fn covers(p: PomUpdatesView, os: Seq<VersionResult>, i: int) -> bool {
    &&& p.source == os[i].dep.source@
    &&& match os[i].dep.property {
        Some(name) => exists|k: int| 0 <= k < p.properties.len() && (#[trigger] p.properties[k]).0 == name@,
        None => p.inline.contains(i),
    }
}

/// Some plan of `plans` covers result `i` of `os`.
pub open spec fn covered(plans: Seq<PomUpdatesView>, os: Seq<VersionResult>, i: int) -> bool {
    exists|j: int| 0 <= j < plans.len() && covers(#[trigger] plans[j], os, i)
}

/// Every entry of plan `p` stands for a result of its own POM: a property entry
/// for a result with that property, an inline entry for one without.
pub open spec fn entries_belong(p: PomUpdatesView, os: Seq<VersionResult>) -> bool {
    &&& forall|k: int| 0 <= k < p.properties.len() ==> {
        let idx = (#[trigger] p.properties[k]).1;
        &&& 0 <= idx < os.len()
        &&& os[idx].dep.source@ == p.source
        &&& os[idx].dep.property matches Some(name) && name@ == p.properties[k].0
    }
    &&& forall|k: int| 0 <= k < p.inline.len() ==> {
        let idx = #[trigger] p.inline[k];
        &&& 0 <= idx < os.len()
        &&& os[idx].dep.source@ == p.source
        &&& os[idx].dep.property is None
    }
}

/// Planning covers every outdated result: there is one plan per POM, the plan
/// of a result's POM holds it (under its property name, or as an inline
/// version), and every entry of a plan stands for a result of that POM.
pub proof fn lemma_plan_covers_every_result(os: Seq<VersionResult>)
    ensures
        forall|a: int, b: int| 0 <= a < b < spec_plan(os).len() ==> (#[trigger] spec_plan(os)[a]).source != (#[trigger] spec_plan(os)[b]).source,
        forall|i: int| 0 <= i < os.len() ==> #[trigger] covered(spec_plan(os), os, i),
        forall|j: int| 0 <= j < spec_plan(os).len() ==> entries_belong(#[trigger] spec_plan(os)[j], os),
    decreases os.len(),
{
    if os.len() > 0 {
        let t = os.drop_last();
        lemma_plan_covers_every_result(t);
        let plans = spec_plan(t);
        let r = os.last();
        let i = os.len() - 1;
        let source = r.dep.source@;
        lemma_plan_for_spec(plans, source, 0);
        let (plans2, at) = match plan_for(plans, source, 0) {
            Some(j) => (plans, j),
            None => (plans.push(PomUpdatesView { source, properties: Seq::empty(), inline: Seq::empty() }), plans.len() as int),
        };
        let p = plans2[at];
        let p2 = match r.dep.property {
            Some(prop) => PomUpdatesView { properties: keyed_insert(p.properties, prop@, i), ..p },
            None => PomUpdatesView { inline: p.inline.push(i), ..p },
        };
        let result = plans2.update(at, p2);
        assert(result == spec_plan(os));
        assert(os[i] == r);
        assert forall|m: int| 0 <= m < t.len() implies #[trigger] os[m] == t[m] by {}
        // The plans before the update, seen against all results.
        assert forall|j: int| 0 <= j < plans2.len() implies entries_belong(#[trigger] plans2[j], os) by {
            if j < plans.len() {
                assert(plans2[j] == plans[j]);
                assert(entries_belong(plans[j], t));
            }
        }
        // The updated plan.
        match r.dep.property {
            Some(prop) => {
                lemma_first_key_spec(p.properties, prop@, 0);
            },
            None => {},
        }
        assert(entries_belong(p2, os)) by {
            match r.dep.property {
                Some(prop) => {
                    let q = keyed_insert(p.properties, prop@, i);
                    assert forall|k: int| 0 <= k < q.len() implies {
                        let idx = (#[trigger] q[k]).1;
                        &&& 0 <= idx < os.len()
                        &&& os[idx].dep.source@ == p2.source
                        &&& os[idx].dep.property matches Some(name) && name@ == q[k].0
                    } by {
                        match first_key(p.properties, prop@, 0) {
                            Some(fi) => {
                                if k != fi {
                                    assert(q[k] == p.properties[k]);
                                }
                            },
                            None => {
                                if k < p.properties.len() {
                                    assert(q[k] == p.properties[k]);
                                }
                            },
                        }
                    }
                    assert forall|k: int| 0 <= k < p2.inline.len() implies {
                        let idx = #[trigger] p2.inline[k];
                        &&& 0 <= idx < os.len()
                        &&& os[idx].dep.source@ == p2.source
                        &&& os[idx].dep.property is None
                    } by {
                        assert(p2.inline[k] == p.inline[k]);
                    }
                },
                None => {
                    assert forall|k: int| 0 <= k < p2.inline.len() implies {
                        let idx = #[trigger] p2.inline[k];
                        &&& 0 <= idx < os.len()
                        &&& os[idx].dep.source@ == p2.source
                        &&& os[idx].dep.property is None
                    } by {
                        if k < p.inline.len() {
                            assert(p2.inline[k] == p.inline[k]);
                        }
                    }
                    assert forall|k: int| 0 <= k < p2.properties.len() implies {
                        let idx = (#[trigger] p2.properties[k]).1;
                        &&& 0 <= idx < os.len()
                        &&& os[idx].dep.source@ == p2.source
                        &&& os[idx].dep.property matches Some(name) && name@ == p2.properties[k].0
                    } by {
                        assert(p2.properties[k] == p.properties[k]);
                    }
                },
            }
        }
        assert forall|j: int| 0 <= j < result.len() implies entries_belong(#[trigger] result[j], os) by {
            if j != at {
                assert(result[j] == plans2[j]);
            }
        }
        // Sources stay distinct.
        assert forall|a: int, b: int| 0 <= a < b < result.len() implies (#[trigger] result[a]).source != (#[trigger] result[b]).source by {
            assert(result[a].source == plans2[a].source);
            assert(result[b].source == plans2[b].source);
            if b == plans.len() {
                assert(plans2[a] == plans[a]);
            } else {
                assert(plans2[a] == plans[a] && plans2[b] == plans[b]);
            }
        }
        // Every result is covered.
        assert(covers(p2, os, i)) by {
            match r.dep.property {
                Some(prop) => {
                    let q = keyed_insert(p.properties, prop@, i);
                    match first_key(p.properties, prop@, 0) {
                        Some(fi) => {
                            assert(q[fi].0 == prop@);
                        },
                        None => {
                            assert(q[p.properties.len() as int].0 == prop@);
                        },
                    }
                },
                None => {
                    assert(p2.inline[p.inline.len() as int] == i);
                },
            }
        }
        assert forall|m: int| 0 <= m < os.len() implies #[trigger] covered(result, os, m) by {
            if m == i {
                assert(result[at] == p2);
            } else {
                assert(covered(plans, t, m));
                let j = choose|j: int| 0 <= j < plans.len() && covers(#[trigger] plans[j], t, m);
                assert(plans2[j] == plans[j]);
                if j != at {
                    assert(result[j] == plans[j]);
                    assert(covers(result[j], os, m));
                } else {
                    assert(result[at] == p2);
                    match os[m].dep.property {
                        Some(name) => {
                            let k = choose|k: int| 0 <= k < p.properties.len() && (#[trigger] p.properties[k]).0 == name@;
                            match r.dep.property {
                                Some(prop) => {
                                    let q = keyed_insert(p.properties, prop@, i);
                                    match first_key(p.properties, prop@, 0) {
                                        Some(fi) => {
                                            assert(q[k].0 == name@);
                                        },
                                        None => {
                                            assert(q[k] == p.properties[k]);
                                        },
                                    }
                                },
                                None => {
                                    assert(p2.properties[k] == p.properties[k]);
                                },
                            }
                        },
                        None => {
                            let k = choose|k: int| 0 <= k < p.inline.len() && p.inline[k] == m;
                            match r.dep.property {
                                Some(_) => {
                                    assert(p2.inline[k] == m);
                                },
                                None => {
                                    assert(p2.inline[k] == m);
                                },
                            }
                        },
                    }
                    assert(covers(result[j], os, m));
                }
            }
        }
    }
}

} // verus!

verus! {

/// Every result has a latest version.
pub open spec fn all_have_latest(outdated: Seq<VersionResult>) -> bool {
    forall|i: int| 0 <= i < outdated.len() ==> (#[trigger] outdated[i]).spec_latest() is Some
}

/// The latest version of a result (empty where it has none).
pub open spec fn latest_of(r: VersionResult) -> Seq<char> {
    match r.spec_latest() {
        Some(l) => l,
        None => Seq::empty(),
    }
}

/// The positions of a plan's results: the property results, then the inline ones.
pub open spec fn spec_all_results(p: PomUpdatesView) -> Seq<int> {
    p.properties.map_values(|e: (Seq<char>, int)| e.1) + p.inline
}

impl PomUpdates {
    /// The positions of the plan's results: the property results, then the inline ones.
    pub fn all_results(&self) -> (r: Vec<usize>)
        ensures
            r@.map_values(|i: usize| i as int) == spec_all_results(self@),
    {
        let mut out: Vec<usize> = Vec::new();
        let mut i: usize = 0;
        while i < self.properties.len()
            invariant
                i <= self.properties@.len(),
                out@.map_values(|x: usize| x as int) == self@.properties.map_values(|e: (Seq<char>, int)| e.1).subrange(0, i as int),
            decreases self.properties@.len() - i,
        {
            let ghost before = out@;
            assert(self@.properties[i as int].1 == self.properties@[i as int].1 as int);
            out.push(self.properties[i].1);
            assert(out@ == before.push(self.properties@[i as int].1));
            assert(out@.map_values(|x: usize| x as int) =~= before.map_values(|x: usize| x as int).push(self.properties@[i as int].1 as int));
            i = i + 1;
            assert(out@.map_values(|x: usize| x as int) =~= self@.properties.map_values(|e: (Seq<char>, int)| e.1).subrange(0, i as int));
        }
        let mut j: usize = 0;
        while j < self.inline.len()
            invariant
                i == self.properties@.len(),
                j <= self.inline@.len(),
                out@.map_values(|x: usize| x as int) == self@.properties.map_values(|e: (Seq<char>, int)| e.1) + self@.inline.subrange(0, j as int),
            decreases self.inline@.len() - j,
        {
            let ghost before = out@;
            assert(self@.inline[j as int] == self.inline@[j as int] as int);
            out.push(self.inline[j]);
            assert(out@.map_values(|x: usize| x as int) =~= before.map_values(|x: usize| x as int).push(self.inline@[j as int] as int));
            j = j + 1;
            assert(out@.map_values(|x: usize| x as int) =~= self@.properties.map_values(|e: (Seq<char>, int)| e.1) + self@.inline.subrange(0, j as int));
        }
        assert(self@.inline.subrange(0, self@.inline.len() as int) =~= self@.inline);
        assert(self@.properties.map_values(|e: (Seq<char>, int)| e.1).subrange(0, i as int) =~= self@.properties.map_values(|e: (Seq<char>, int)| e.1));
        out
    }
}

/// The property updates of a plan: each property's name with its result's
/// latest version.
pub open spec fn spec_property_updates(props: Seq<(Seq<char>, int)>, outdated: Seq<VersionResult>) -> Seq<(Seq<char>, Seq<char>)>
    decreases props.len(),
{
    if props.len() == 0 {
        Seq::empty()
    } else {
        pairs_insert(
            spec_property_updates(props.drop_last(), outdated),
            props.last().0,
            latest_of(outdated[props.last().1]),
        )
    }
}

fn latest_string(r: &VersionResult) -> (s: String)
    ensures
        s@ == latest_of(*r),
{
    match r.latest_version() {
        Some(l) => String::from_str(l),
        None => String::new(),
    }
}

/// The property updates of a plan: property name to new version.
pub fn property_updates(plan: &PomUpdates, outdated: &Vec<VersionResult>) -> (m: PropertyMap)
    requires
        forall|k: int| 0 <= k < plan@.properties.len() ==> 0 <= #[trigger] plan@.properties[k].1 < outdated@.len(),
    ensures
        m.pairs() == spec_property_updates(plan@.properties, outdated@),
{
    let ghost ps = plan@.properties;
    let mut m = PropertyMap::new();
    let mut i: usize = 0;
    assert(ps.subrange(0, 0) =~= Seq::<(Seq<char>, int)>::empty());
    while i < plan.properties.len()
        invariant
            ps == plan@.properties,
            forall|k: int| 0 <= k < ps.len() ==> 0 <= #[trigger] ps[k].1 < outdated@.len(),
            i <= ps.len(),
            m.pairs() == spec_property_updates(ps.subrange(0, i as int), outdated@),
        decreases ps.len() - i,
    {
        assert(ps.subrange(0, i as int + 1).drop_last() =~= ps.subrange(0, i as int));
        assert(ps.subrange(0, i as int + 1).last() == ps[i as int]);
        assert(ps[i as int] == (plan.properties@[i as int].0@, plan.properties@[i as int].1 as int));
        let idx = plan.properties[i].1;
        assert(0 <= ps[i as int].1 < outdated@.len());
        let v = latest_string(&outdated[idx]);
        m.insert(plan.properties[i].0.clone(), v);
        i = i + 1;
    }
    assert(ps.subrange(0, ps.len() as int) =~= ps);
    m
}

/// The group and artifact of `group:artifact`, split at the first `:`.
pub open spec fn split_coordinates(a: Seq<char>) -> Option<(Seq<char>, Seq<char>)> {
    match crate::npm::find_char_from(a, ':', 0) {
        Some(i) => Some((a.subrange(0, i), a.subrange(i + 1, a.len() as int))),
        None => None,
    }
}

/// The inline updates of a plan: for each inline result whose artifact splits
/// into group and artifact, those with its latest version.
pub open spec fn spec_inline_updates(inline: Seq<int>, outdated: Seq<VersionResult>) -> Seq<InlineUpdateView>
    decreases inline.len(),
{
    if inline.len() == 0 {
        Seq::empty()
    } else {
        let rest = spec_inline_updates(inline.drop_last(), outdated);
        let r = outdated[inline.last()];
        match split_coordinates(r.dep.artifact@) {
            Some((g, a)) => rest.push(InlineUpdateView { group_id: g, artifact_id: a, new_version: latest_of(r) }),
            None => rest,
        }
    }
}

/// The inline updates of a plan.
pub fn inline_updates(plan: &PomUpdates, outdated: &Vec<VersionResult>) -> (u: Vec<InlineVersionUpdate>)
    requires
        forall|k: int| 0 <= k < plan@.inline.len() ==> 0 <= #[trigger] plan@.inline[k] < outdated@.len(),
    ensures
        update_views(u@) == spec_inline_updates(plan@.inline, outdated@),
{
    let ghost is = plan@.inline;
    let mut out: Vec<InlineVersionUpdate> = Vec::new();
    let mut i: usize = 0;
    assert(is.subrange(0, 0) =~= Seq::<int>::empty());
    assert(update_views(out@) =~= spec_inline_updates(is.subrange(0, 0), outdated@));
    while i < plan.inline.len()
        invariant
            is == plan@.inline,
            forall|k: int| 0 <= k < is.len() ==> 0 <= #[trigger] is[k] < outdated@.len(),
            i <= is.len(),
            update_views(out@) == spec_inline_updates(is.subrange(0, i as int), outdated@),
        decreases is.len() - i,
    {
        assert(is.subrange(0, i as int + 1).drop_last() =~= is.subrange(0, i as int));
        assert(is.subrange(0, i as int + 1).last() == is[i as int]);
        let r = &outdated[plan.inline[i]];
        let chars = crate::text::chars_of(r.artifact());
        let n = chars.len();
        let mut c: usize = 0;
        assert(chars@ == r.dep.artifact@);
        while c < n && chars[c] != ':'
            invariant
                n == chars@.len(),
                c <= n,
                crate::npm::find_char_from(chars@, ':', 0) == crate::npm::find_char_from(chars@, ':', c as int),
            decreases n - c,
        {
            c = c + 1;
        }
        if c < n {
            let ghost before = update_views(out@);
            let u = InlineVersionUpdate {
                group_id: crate::text::string_from_range(&chars, 0, c),
                artifact_id: crate::text::string_from_range(&chars, c + 1, n),
                new_version: latest_string(r),
            };
            out.push(u);
            assert(update_views(out@) =~= before.push(u@));
        }
        i = i + 1;
    }
    assert(is.subrange(0, is.len() as int) =~= is);
    out
}

/// What a POM becomes under a plan: its property updates applied (where it
/// has any), then its inline updates (where it has any); the first writer
/// failure stops it.
pub open spec fn spec_updated_pom(xml: Seq<char>, plan: PomUpdatesView, outdated: Seq<VersionResult>) -> Result<Seq<char>, Seq<char>> {
    let after_props = if plan.properties.len() > 0 {
        crate::pom_writer::spec_update_properties(xml, crate::props::pairs_map(spec_property_updates(plan.properties, outdated)))
    } else {
        Ok(xml)
    };
    match after_props {
        Err(m) => Err(m),
        Ok(x) => if plan.inline.len() > 0 {
            crate::pom_writer::spec_update_inline_versions(x, spec_inline_updates(plan.inline, outdated))
        } else {
            Ok(x)
        },
    }
}

proof fn lemma_property_updates_map(props: Seq<(Seq<char>, int)>, os: Seq<VersionResult>)
    requires
        forall|a: int, b: int| 0 <= a < b < props.len() ==> (#[trigger] props[a]).0 != (#[trigger] props[b]).0,
        forall|k: int| 0 <= k < props.len() ==> 0 <= #[trigger] props[k].1 < os.len(),
    ensures
        crate::props::distinct_keys(spec_property_updates(props, os)),
        forall|k: int| 0 <= k < props.len() ==> {
            let m = crate::props::pairs_map(spec_property_updates(props, os));
            &&& m.contains_key((#[trigger] props[k]).0)
            &&& m[props[k].0] == latest_of(os[props[k].1])
        },
        forall|name: Seq<char>| #[trigger] crate::props::pairs_map(spec_property_updates(props, os)).contains_key(name)
            ==> exists|k: int| 0 <= k < props.len() && (#[trigger] props[k]).0 == name,
    decreases props.len(),
{
    if props.len() > 0 {
        let t = props.drop_last();
        lemma_property_updates_map(t, os);
        let prev = spec_property_updates(t, os);
        let last = props.last();
        crate::props::lemma_pairs_insert(prev, last.0, latest_of(os[last.1]));
        let m = crate::props::pairs_map(spec_property_updates(props, os));
        assert forall|k: int| 0 <= k < props.len() implies {
            &&& m.contains_key((#[trigger] props[k]).0)
            &&& m[props[k].0] == latest_of(os[props[k].1])
        } by {
            if k < t.len() {
                assert(props[k] == t[k]);
                assert(props[k].0 != last.0);
            }
        }
        assert forall|name: Seq<char>| #[trigger] m.contains_key(name) implies exists|k: int| 0 <= k < props.len() && (#[trigger] props[k]).0 == name by {
            if name == last.0 {
                assert(props[props.len() - 1].0 == name);
            } else {
                assert(crate::props::pairs_map(prev).contains_key(name));
                let k = choose|k: int| 0 <= k < t.len() && (#[trigger] t[k]).0 == name;
                assert(props[k] == t[k]);
            }
        }
    }
}

/// What a POM gets written with: the property updates hold a value for exactly
/// the property names of its results, each the latest version of the last
/// result with that property; the inline updates are its results without a
/// version property, in order. (The text written is [`spec_updated_pom`] of
/// these.)
pub proof fn lemma_pom_update_contents(os: Seq<VersionResult>, j: int)
    requires
        0 <= j < spec_plan(os).len(),
    ensures
        ({
            let p = spec_plan(os)[j];
            let m = crate::props::pairs_map(spec_property_updates(p.properties, os));
            &&& forall|name: Seq<char>| #[trigger] m.contains_key(name)
                <==> exists|i: int| 0 <= i < os.len() && sets_property(#[trigger] os[i], p.source, name)
            &&& forall|name: Seq<char>, i: int| 0 <= i < os.len() && #[trigger] sets_property(os[i], p.source, name)
                && (forall|i2: int| i < i2 < os.len() ==> !sets_property(#[trigger] os[i2], p.source, name))
                ==> m[name] == latest_of(os[i])
            &&& p.inline == inline_positions(os, p.source)
        }),
{
    lemma_plan_exact(os);
    lemma_plan_covers_every_result(os);
    let plans = spec_plan(os);
    let p = plans[j];
    assert(properties_last_wins(p, os));
    assert(entries_belong(p, os));
    lemma_property_updates_map(p.properties, os);
    let m = crate::props::pairs_map(spec_property_updates(p.properties, os));
    assert forall|name: Seq<char>| #[trigger] m.contains_key(name)
        <==> exists|i: int| 0 <= i < os.len() && sets_property(#[trigger] os[i], p.source, name) by {
        if m.contains_key(name) {
            let k = choose|k: int| 0 <= k < p.properties.len() && (#[trigger] p.properties[k]).0 == name;
            let idx = p.properties[k].1;
            assert(sets_property(os[idx], p.source, name));
        }
        if exists|i: int| 0 <= i < os.len() && sets_property(#[trigger] os[i], p.source, name) {
            let i = choose|i: int| 0 <= i < os.len() && sets_property(#[trigger] os[i], p.source, name);
            assert(covered(plans, os, i));
            let j2 = choose|j2: int| 0 <= j2 < plans.len() && covers(#[trigger] plans[j2], os, i);
            if j2 != j {
                assert(plans[j2].source != plans[j].source) by {
                    if j2 < j {
                        assert(plans[j2].source != plans[j].source);
                    } else {
                        assert(plans[j].source != plans[j2].source);
                    }
                }
            }
            let k = choose|k: int| 0 <= k < p.properties.len() && (#[trigger] p.properties[k]).0 == os[i].dep.property->0@;
            assert(m.contains_key(p.properties[k].0));
        }
    }
    assert forall|name: Seq<char>, i: int| 0 <= i < os.len() && #[trigger] sets_property(os[i], p.source, name)
        && (forall|i2: int| i < i2 < os.len() ==> !sets_property(#[trigger] os[i2], p.source, name))
        implies m[name] == latest_of(os[i]) by {
        assert(covered(plans, os, i));
        let j2 = choose|j2: int| 0 <= j2 < plans.len() && covers(#[trigger] plans[j2], os, i);
        if j2 != j {
            if j2 < j {
                assert(plans[j2].source != plans[j].source);
            } else {
                assert(plans[j].source != plans[j2].source);
            }
        }
        let k = choose|k: int| 0 <= k < p.properties.len() && (#[trigger] p.properties[k]).0 == os[i].dep.property->0@;
        let idx = p.properties[k].1;
        assert(sets_property(os[idx], p.source, name));
        if idx < i {
            assert(!sets_property(os[i], p.source, p.properties[k].0));
        } else if idx > i {
            assert(!sets_property(os[idx], p.source, name));
        }
    }
}

/// Applies a plan's updates to the text of its POM.
pub fn updated_pom(xml: &str, plan: &PomUpdates, outdated: &Vec<VersionResult>) -> (r: Result<String, DepupError>)
    requires
        forall|k: int| 0 <= k < plan@.properties.len() ==> 0 <= #[trigger] plan@.properties[k].1 < outdated@.len(),
        forall|k: int| 0 <= k < plan@.inline.len() ==> 0 <= #[trigger] plan@.inline[k] < outdated@.len(),
    ensures
        match spec_updated_pom(xml@, plan@, outdated@) {
            Ok(t) => r matches Ok(s) && s@ == t,
            Err(m) => r matches Err(e) && e.code == crate::error::DepupErrorCode::PomParseFailed
                && e.message@ == crate::pom_writer::writer_error_message(m),
        },
{
    let mut current = String::from_str(xml);
    if plan.properties.len() > 0 {
        let props = property_updates(plan, outdated);
        match crate::pom_writer::update_properties(current.as_str(), &props) {
            Ok(s) => {
                current = s;
            },
            Err(e) => {
                return Err(e);
            },
        }
    }
    if plan.inline.len() > 0 {
        let inline = inline_updates(plan, outdated);
        match crate::pom_writer::update_inline_versions(current.as_str(), &inline) {
            Ok(s) => {
                current = s;
            },
            Err(e) => {
                return Err(e);
            },
        }
    }
    Ok(current)
}

/// The update results of a plan's POM once it was written (`write_error` is
/// `None`) or failed to be: updated to the latest version, or the write error.
pub fn write_outcome_results(plan: &PomUpdates, outdated: &Vec<VersionResult>, write_error: Option<&str>) -> (r: Vec<UpdateResult>)
    requires
        forall|k: int| 0 <= k < plan@.properties.len() ==> 0 <= #[trigger] plan@.properties[k].1 < outdated@.len(),
        forall|k: int| 0 <= k < plan@.inline.len() ==> 0 <= #[trigger] plan@.inline[k] < outdated@.len(),
    ensures
        r@.len() == spec_all_results(plan@).len(),
        forall|i: int| 0 <= i < r@.len() ==> {
            let c = outdated@[spec_all_results(plan@)[i]];
            &&& (#[trigger] r@[i]).dep == c.dep
            &&& r@[i].old_version == c.current_version
            &&& match write_error {
                None => r@[i].new_version@ == latest_of(c) && r@[i].status is Updated,
                Some(e) => r@[i].status matches UpdateStatus::Error { message } && message@ == "Failed to write POM: "@ + e@,
            }
        },
{
    let all = plan.all_results();
    let ghost idx = spec_all_results(plan@);
    let mut out: Vec<UpdateResult> = Vec::new();
    let mut i: usize = 0;
    while i < all.len()
        invariant
            all@.map_values(|x: usize| x as int) == idx,
            forall|k: int| 0 <= k < idx.len() ==> 0 <= #[trigger] idx[k] < outdated@.len(),
            i <= all@.len(),
            out@.len() == i,
            forall|j: int| 0 <= j < i ==> {
                let c = outdated@[idx[j]];
                &&& (#[trigger] out@[j]).dep == c.dep
                &&& out@[j].old_version == c.current_version
                &&& match write_error {
                    None => out@[j].new_version@ == latest_of(c) && out@[j].status is Updated,
                    Some(e) => out@[j].status matches UpdateStatus::Error { message } && message@ == "Failed to write POM: "@ + e@,
                }
            },
        decreases all@.len() - i,
    {
        assert(idx[i as int] == all@[i as int] as int);
        let c = &outdated[all[i]];
        let u = match write_error {
            None => UpdateResult::updated(c, latest_string(c)),
            Some(e) => {
                let mut message = String::from_str("Failed to write POM: ");
                message.append(e);
                UpdateResult::error(c, message)
            },
        };
        out.push(u);
        i = i + 1;
    }
    out
}

/// `s` with `u` placed after the last result whose artifact is not above its own.
pub open spec fn insert_update(s: Seq<UpdateResult>, u: UpdateResult) -> Seq<UpdateResult>
    decreases s.len(),
{
    if s.len() == 0 {
        seq![u]
    } else if seq_le(s.last().dep.artifact@, u.dep.artifact@) {
        s.push(u)
    } else {
        insert_update(s.drop_last(), u).push(s.last())
    }
}

/// The results sorted by artifact; equal artifacts keep their order.
pub open spec fn sort_updates(s: Seq<UpdateResult>) -> Seq<UpdateResult>
    decreases s.len(),
{
    if s.len() == 0 {
        s
    } else {
        insert_update(sort_updates(s.drop_last()), s.last())
    }
}

proof fn lemma_insert_update(s: Seq<UpdateResult>, u: UpdateResult, j: int)
    requires
        0 <= j <= s.len(),
        forall|k: int| j <= k < s.len() ==> !seq_le((#[trigger] s[k]).dep.artifact@, u.dep.artifact@),
        j == 0 || seq_le(s[j - 1].dep.artifact@, u.dep.artifact@),
    ensures
        insert_update(s, u) == s.insert(j, u),
    decreases s.len(),
{
    if s.len() == 0 {
        assert(s.insert(j, u) =~= seq![u]);
    } else if j == s.len() {
        assert(s.insert(j, u) =~= s.push(u));
    } else {
        let t = s.drop_last();
        lemma_insert_update(t, u, j);
        assert(s.insert(j, u) =~= t.insert(j, u).push(s.last()));
    }
}

/// Sorts update results by artifact, keeping the order of equal artifacts.
pub fn sort_by_artifact(v: Vec<UpdateResult>) -> (out: Vec<UpdateResult>)
    ensures
        out@ == sort_updates(v@),
{
    let ghost input = v@;
    let mut rev = crate::text::reverse_vec(v);
    assert(rev@.reverse() =~= input);
    let mut out: Vec<UpdateResult> = Vec::new();
    let ghost mut done: int = 0;
    assert(out@ =~= sort_updates(input.subrange(0, 0)));
    while rev.len() > 0
        invariant
            0 <= done <= input.len(),
            rev@.reverse() == input.subrange(done, input.len() as int),
            out@ == sort_updates(input.subrange(0, done)),
        decreases rev@.len(),
    {
        let ghost bv = rev@;
        let x = rev.pop().unwrap();
        proof {
            assert(bv[bv.len() - 1] == x);
            assert(bv.reverse().len() == bv.len());
            assert(bv.reverse()[0] == x);
            assert(input.subrange(done, input.len() as int)[0] == input[done]);
            assert(rev@.reverse() =~= bv.reverse().drop_first());
            assert(input.subrange(done, input.len() as int).drop_first() =~= input.subrange(done + 1, input.len() as int));
        }
        let ghost o = out@;
        let mut j: usize = out.len();
        while j > 0 && !crate::discovery::str_le_exec(out[j - 1].artifact(), x.artifact())
            invariant
                j <= out@.len(),
                o == out@,
                forall|k: int| j <= k < o.len() ==> !seq_le((#[trigger] o[k]).dep.artifact@, x.dep.artifact@),
            decreases j,
        {
            j = j - 1;
        }
        proof {
            lemma_insert_update(o, x, j as int);
            assert(input.subrange(0, done + 1).drop_last() =~= input.subrange(0, done));
        }
        out.insert(j, x);
        proof {
            done = done + 1;
        }
    }
    assert(input.subrange(0, input.len() as int) =~= input);
    out
}

/// Update results compare by artifact.
pub open spec fn update_artifact_le() -> spec_fn(UpdateResult, UpdateResult) -> bool {
    by_key(|u: UpdateResult| u.dep.artifact@)
}

proof fn lemma_sort_updates_by(s: Seq<UpdateResult>)
    ensures
        sort_updates(s) == insertion_sort(s, update_artifact_le()),
    decreases s.len(),
{
    if s.len() > 0 {
        lemma_sort_updates_by(s.drop_last());
        lemma_insert_update_by(sort_updates(s.drop_last()), s.last());
    }
}

proof fn lemma_insert_update_by(s: Seq<UpdateResult>, u: UpdateResult)
    ensures
        insert_update(s, u) == insert_by(s, u, update_artifact_le()),
    decreases s.len(),
{
    if s.len() > 0 {
        lemma_insert_update_by(s.drop_last(), u);
    }
}

/// Sorted update results come in artifact order and hold the results that
/// went in, each as often as before.
pub proof fn lemma_sorted_updates_ordered(s: Seq<UpdateResult>)
    ensures
        forall|i: int, j: int| 0 <= i < j < sort_updates(s).len()
            ==> seq_le(#[trigger] sort_updates(s)[i].dep.artifact@, #[trigger] sort_updates(s)[j].dep.artifact@),
        sort_updates(s).to_multiset() == s.to_multiset(),
{
    lemma_key_order_total(|u: UpdateResult| u.dep.artifact@);
    lemma_sort_updates_by(s);
    lemma_insertion_sort(s, update_artifact_le());
    let r = sort_updates(s);
    assert forall|i: int, j: int| 0 <= i < j < r.len() implies seq_le(#[trigger] r[i].dep.artifact@, #[trigger] r[j].dep.artifact@) by {
        assert(update_artifact_le()(r[i], r[j]));
    }
}

} // verus!
