//! Dependency resolution: TaskWarrior UUIDs to CalDAV UIDs, and cycle marking.
use std::collections::HashMap;

use vstd::prelude::*;

use crate::sync::graph::{detect_cycles, graph_of, graph_wf, is_cycle_through, is_edge, lemma_cycle_members_on_cycle, on_cycle};
use crate::text::concat3;
use crate::trusted::{uuid_text, uuid_to_string};
use crate::types::{
    copy_string_vec, copy_u128_vec, entries_view, str_seq, warnings_view, IREntry, IREntryView, Warning,
    WarningView,
};

verus! {

broadcast use vstd::std_specs::hash::group_hash_axioms;

/// Position of the last entry carrying each TaskWarrior UUID.
pub open spec fn uuid_index(es: Seq<IREntryView>) -> Map<u128, int>
    decreases es.len(),
{
    if es.len() == 0 {
        Map::empty()
    } else {
        let prev = uuid_index(es.drop_last());
        match es.last().tw_uuid {
            Some(u) => prev.insert(u, es.len() - 1),
            None => prev,
        }
    }
}

/// The dependency UUIDs of an entry's TaskWarrior task (none without a task).
pub open spec fn task_depends(e: IREntryView) -> Seq<u128> {
    match e.tw_task {
        Some(t) => t.depends,
        None => Seq::empty(),
    }
}

/// The CalDAV UIDs that a list of dependency UUIDs resolves to, in order.
pub open spec fn resolve_list(es: Seq<IREntryView>, deps: Seq<u128>) -> Seq<Seq<char>>
    decreases deps.len(),
{
    if deps.len() == 0 {
        Seq::empty()
    } else {
        let prev = resolve_list(es, deps.drop_last());
        let idx = uuid_index(es);
        let d = deps.last();
        if idx.contains_key(d) && es[idx[d]].caldav_uid is Some {
            prev.push(es[idx[d]].caldav_uid->0)
        } else {
            prev
        }
    }
}

pub open spec fn not_in_ir_message(d: u128) -> Seq<char> {
    "UnresolvableDependency: TW UUID "@ + uuid_text(d) + " not found in IR"@
}

pub open spec fn no_uid_message(d: u128) -> Seq<char> {
    "UnresolvableDependency: TW UUID "@ + uuid_text(d) + " has no CalDAV UID"@
}

/// Warnings for the dependencies of one list that do not resolve, in order.
pub open spec fn unresolved_warnings(es: Seq<IREntryView>, deps: Seq<u128>) -> Seq<WarningView>
    decreases deps.len(),
{
    if deps.len() == 0 {
        Seq::empty()
    } else {
        let prev = unresolved_warnings(es, deps.drop_last());
        let idx = uuid_index(es);
        let d = deps.last();
        if !idx.contains_key(d) {
            prev.push(WarningView { tw_uuid: Some(d), message: not_in_ir_message(d) })
        } else if es[idx[d]].caldav_uid is None {
            prev.push(WarningView { tw_uuid: Some(d), message: no_uid_message(d) })
        } else {
            prev
        }
    }
}

/// Resolution warnings of the first `n` entries.
pub open spec fn resolution_warnings(es: Seq<IREntryView>, n: int) -> Seq<WarningView>
    decreases n,
{
    if n <= 0 {
        Seq::empty()
    } else {
        resolution_warnings(es, n - 1) + unresolved_warnings(es, task_depends(es[n - 1]))
    }
}

/// Indices of the entries that a list of dependency UUIDs names.
pub open spec fn dep_targets(es: Seq<IREntryView>, deps: Seq<u128>) -> Seq<usize>
    decreases deps.len(),
{
    if deps.len() == 0 {
        Seq::empty()
    } else {
        let prev = dep_targets(es, deps.drop_last());
        let idx = uuid_index(es);
        let d = deps.last();
        if idx.contains_key(d) {
            prev.push(idx[d] as usize)
        } else {
            prev
        }
    }
}

/// The dependency graph: entry `i` has an edge to every entry its task depends on.
pub open spec fn dependency_graph(es: Seq<IREntryView>) -> Seq<Seq<usize>> {
    Seq::new(es.len(), |i: int| dep_targets(es, task_depends(es[i])))
}

pub open spec fn cyclic_message(e: IREntryView) -> Seq<char> {
    let desc = match e.tw_task {
        Some(t) => t.description,
        None => "<no description>"@,
    };
    "CyclicEntry: task '"@ + desc + "' is part of a dependency cycle"@
}

/// One warning per marked entry among the first `n`, in order.
pub open spec fn cycle_warnings(es: Seq<IREntryView>, marked: Seq<bool>, n: int) -> Seq<WarningView>
    decreases n,
{
    if n <= 0 {
        Seq::empty()
    } else if marked[n - 1] {
        cycle_warnings(es, marked, n - 1).push(
            WarningView { tw_uuid: es[n - 1].tw_uuid, message: cyclic_message(es[n - 1]) },
        )
    } else {
        cycle_warnings(es, marked, n - 1)
    }
}

/// `marked` flags exactly the nodes that lie on a cycle of the graph.
pub open spec fn valid_cycle_marking(g: Seq<Seq<usize>>, marked: Seq<bool>) -> bool {
    &&& marked.len() == g.len()
    &&& forall|x: int| 0 <= x < g.len() ==> (#[trigger] marked[x] <==> on_cycle(g, x))
}

/// Every entry on a dependency cycle is flagged, whichever entry the cycle is read from.
pub proof fn lemma_cycle_entries_flagged(g: Seq<Seq<usize>>, marked: Seq<bool>, p: Seq<int>, x: int)
    requires
        valid_cycle_marking(g, marked),
        is_cycle_through(g, p, x),
    ensures
        forall|k: int| 0 <= k < p.len() ==> #[trigger] marked[p[k]],
{
    assert forall|k: int| 0 <= k < p.len() implies #[trigger] marked[p[k]] by {
        lemma_cycle_members_on_cycle(g, p, x, k);
        if k < p.len() - 1 {
            assert(is_edge(g, p[k], p[k + 1]));
        } else {
            let z = 0int;
            assert(is_edge(g, p[z], p[z + 1]));
            assert(p[k] == p[z]);
        }
    }
}

/// The entry after resolution: resolved UIDs set, cyclic flag raised where marked.
pub open spec fn resolved_entry(es: Seq<IREntryView>, i: int, marked: bool) -> IREntryView {
    IREntryView {
        resolved_depends: resolve_list(es, task_depends(es[i])),
        cyclic: es[i].cyclic || marked,
        ..es[i]
    }
}

proof fn lemma_index_bounds(es: Seq<IREntryView>)
    ensures
        forall|u: u128| #[trigger] uuid_index(es).contains_key(u) ==> 0 <= uuid_index(es)[u] < es.len()
            && es[uuid_index(es)[u]].tw_uuid == Some(u),
    decreases es.len(),
{
    if es.len() > 0 {
        lemma_index_bounds(es.drop_last());
        assert forall|u: u128| #[trigger] uuid_index(es).contains_key(u) implies 0 <= uuid_index(es)[u] < es.len()
            && es[uuid_index(es)[u]].tw_uuid == Some(u) by {
            let prev = uuid_index(es.drop_last());
            if es.last().tw_uuid != Some(u) {
                assert(prev.contains_key(u));
                assert(es.drop_last()[prev[u]] == es[prev[u]]);
            }
        }
    }
}

proof fn lemma_targets_bounded(es: Seq<IREntryView>, deps: Seq<u128>)
    ensures
        forall|k: int| 0 <= k < dep_targets(es, deps).len() ==> (#[trigger] dep_targets(es, deps)[k]) < es.len(),
    decreases deps.len(),
{
    if deps.len() > 0 {
        lemma_targets_bounded(es, deps.drop_last());
        lemma_index_bounds(es);
        let prev = dep_targets(es, deps.drop_last());
        assert forall|k: int| 0 <= k < dep_targets(es, deps).len() implies (#[trigger] dep_targets(es, deps)[k]) < es.len() by {
            if k < prev.len() {
                assert(dep_targets(es, deps)[k] == prev[k]);
            }
        }
    }
}

fn build_index(entries: &Vec<IREntry>) -> (idx: HashMap<u128, usize>)
    ensures
        forall|u: u128| #[trigger] idx@.contains_key(u) <==> uuid_index(entries_view(entries@)).contains_key(u),
        forall|u: u128| #[trigger] idx@.contains_key(u) ==> idx@[u] as int == uuid_index(entries_view(entries@))[u],
{
    let ghost es = entries_view(entries@);
    let mut idx: HashMap<u128, usize> = HashMap::new();
    let mut i: usize = 0;
    while i < entries.len()
        invariant
            i <= entries.len(),
            es == entries_view(entries@),
            forall|u: u128| #[trigger] idx@.contains_key(u) <==> uuid_index(es.take(i as int)).contains_key(u),
            forall|u: u128| #[trigger] idx@.contains_key(u) ==> idx@[u] as int == uuid_index(es.take(i as int))[u],
        decreases entries.len() - i,
    {
        assert(es.take(i + 1).drop_last() =~= es.take(i as int));
        assert(es.take(i + 1).last() == entries@[i as int]@);
        match entries[i].tw_uuid {
            Some(u) => {
                idx.insert(u, i);
            },
            None => {},
        }
        i += 1;
    }
    assert(es.take(entries.len() as int) =~= es);
    idx
}

fn resolve_one(
    entries: &Vec<IREntry>,
    idx: &HashMap<u128, usize>,
    deps: &Vec<u128>,
    warnings: &mut Vec<Warning>,
) -> (resolved: Vec<String>)
    requires
        forall|u: u128| #[trigger] idx@.contains_key(u) <==> uuid_index(entries_view(entries@)).contains_key(u),
        forall|u: u128| #[trigger] idx@.contains_key(u) ==> idx@[u] as int == uuid_index(entries_view(entries@))[u],
    ensures
        str_seq(resolved@) == resolve_list(entries_view(entries@), deps@),
        warnings_view(final(warnings)@) == warnings_view(old(warnings)@) + unresolved_warnings(entries_view(entries@), deps@),
{
    let ghost es = entries_view(entries@);
    proof {
        lemma_index_bounds(es);
    }
    let ghost w0 = warnings_view(warnings@);
    let mut resolved: Vec<String> = Vec::new();
    let mut k: usize = 0;
    while k < deps.len()
        invariant
            k <= deps.len(),
            es == entries_view(entries@),
            forall|u: u128| #[trigger] idx@.contains_key(u) <==> uuid_index(es).contains_key(u),
            forall|u: u128| #[trigger] idx@.contains_key(u) ==> idx@[u] as int == uuid_index(es)[u],
            forall|u: u128| #[trigger] uuid_index(es).contains_key(u) ==> 0 <= uuid_index(es)[u] < es.len(),
            str_seq(resolved@) == resolve_list(es, deps@.take(k as int)),
            warnings_view(warnings@) == w0 + unresolved_warnings(es, deps@.take(k as int)),
        decreases deps.len() - k,
    {
        let d = deps[k];
        assert(deps@.take(k + 1).drop_last() =~= deps@.take(k as int));
        assert(deps@.take(k + 1).last() == d);
        let ghost prev_w = warnings_view(warnings@);
        match idx.get(&d) {
            Some(j) => {
                let j = *j;
                assert(entries@[j as int]@ == es[j as int]);
                match &entries[j].caldav_uid {
                    Some(uid) => {
                        let ghost prev = resolved@;
                        resolved.push(uid.clone());
                        assert(str_seq(resolved@) =~= str_seq(prev).push(uid@));
                    },
                    None => {
                        let msg = concat3("UnresolvableDependency: TW UUID ", uuid_to_string(d).as_str(), " has no CalDAV UID");
                        warnings.push(Warning { tw_uuid: Some(d), message: msg });
                        assert(warnings_view(warnings@) =~= prev_w.push(
                            WarningView { tw_uuid: Some(d), message: no_uid_message(d) },
                        ));
                    },
                }
            },
            None => {
                let msg = concat3("UnresolvableDependency: TW UUID ", uuid_to_string(d).as_str(), " not found in IR");
                warnings.push(Warning { tw_uuid: Some(d), message: msg });
                assert(warnings_view(warnings@) =~= prev_w.push(
                    WarningView { tw_uuid: Some(d), message: not_in_ir_message(d) },
                ));
            },
        }
        k += 1;
    }
    assert(deps@.take(deps.len() as int) =~= deps@);
    resolved
}

fn targets_of(idx: &HashMap<u128, usize>, deps: &Vec<u128>, Ghost(es): Ghost<Seq<IREntryView>>) -> (t: Vec<usize>)
    requires
        forall|u: u128| #[trigger] idx@.contains_key(u) <==> uuid_index(es).contains_key(u),
        forall|u: u128| #[trigger] idx@.contains_key(u) ==> idx@[u] as int == uuid_index(es)[u],
    ensures
        t@ == dep_targets(es, deps@),
{
    let mut t: Vec<usize> = Vec::new();
    let mut k: usize = 0;
    while k < deps.len()
        invariant
            k <= deps.len(),
            forall|u: u128| #[trigger] idx@.contains_key(u) <==> uuid_index(es).contains_key(u),
            forall|u: u128| #[trigger] idx@.contains_key(u) ==> idx@[u] as int == uuid_index(es)[u],
            t@ == dep_targets(es, deps@.take(k as int)),
        decreases deps.len() - k,
    {
        assert(deps@.take(k + 1).drop_last() =~= deps@.take(k as int));
        assert(deps@.take(k + 1).last() == deps@[k as int]);
        match idx.get(&deps[k]) {
            Some(j) => {
                t.push(*j);
            },
            None => {},
        }
        k += 1;
    }
    assert(deps@.take(deps.len() as int) =~= deps@);
    t
}

/// Resolves each task's dependency UUIDs to CalDAV UIDs (`resolved_depends`), warns about
/// those that do not resolve, and flags the entries that lie on a dependency cycle
/// (`cyclic`), warning once per flagged entry. An entry is flagged exactly when it lies on
/// a dependency cycle.
pub fn resolve_dependencies(entries: &mut Vec<IREntry>) -> (warnings: Vec<Warning>)
    ensures
        final(entries).len() == old(entries).len(),
        exists|marked: Seq<bool>| {
            &&& valid_cycle_marking(dependency_graph(entries_view(old(entries)@)), marked)
            &&& forall|i: int| 0 <= i < old(entries).len() ==> #[trigger] final(entries)@[i]@ == resolved_entry(
                entries_view(old(entries)@),
                i,
                marked[i],
            )
            &&& warnings_view(warnings@) == resolution_warnings(entries_view(old(entries)@), old(entries).len() as int)
                + cycle_warnings(entries_view(old(entries)@), marked, old(entries).len() as int)
        },
{
    let ghost es = entries_view(entries@);
    let n = entries.len();
    let idx = build_index(entries);
    let mut warnings: Vec<Warning> = Vec::new();
    let mut resolved_all: Vec<Vec<String>> = Vec::new();
    let mut i: usize = 0;
    while i < n
        invariant
            i <= n,
            n == entries.len(),
            es == entries_view(entries@),
            forall|u: u128| #[trigger] idx@.contains_key(u) <==> uuid_index(es).contains_key(u),
            forall|u: u128| #[trigger] idx@.contains_key(u) ==> idx@[u] as int == uuid_index(es)[u],
            resolved_all.len() == i,
            forall|j: int| 0 <= j < i ==> str_seq((#[trigger] resolved_all@[j])@) == resolve_list(es, task_depends(es[j])),
            warnings_view(warnings@) == resolution_warnings(es, i as int),
        decreases n - i,
    {
        let deps: Vec<u128> = match &entries[i].tw_task {
            Some(t) => copy_u128_vec(&t.depends),
            None => Vec::new(),
        };
        assert(deps@ == task_depends(es[i as int]));
        let r = resolve_one(entries, &idx, &deps, &mut warnings);
        resolved_all.push(r);
        i += 1;
    }
    // The dependency graph over entry positions.
    let mut adj: Vec<Vec<usize>> = Vec::new();
    let mut i: usize = 0;
    while i < n
        invariant
            i <= n,
            n == entries.len(),
            es == entries_view(entries@),
            forall|u: u128| #[trigger] idx@.contains_key(u) <==> uuid_index(es).contains_key(u),
            forall|u: u128| #[trigger] idx@.contains_key(u) ==> idx@[u] as int == uuid_index(es)[u],
            adj.len() == i,
            forall|j: int| 0 <= j < i ==> (#[trigger] adj@[j])@ == dep_targets(es, task_depends(es[j])),
        decreases n - i,
    {
        let deps: Vec<u128> = match &entries[i].tw_task {
            Some(t) => copy_u128_vec(&t.depends),
            None => Vec::new(),
        };
        assert(deps@ == task_depends(es[i as int]));
        let t = targets_of(&idx, &deps, Ghost(es));
        adj.push(t);
        i += 1;
    }
    let ghost g = dependency_graph(es);
    assert(graph_of(adj@) =~= g);
    proof {
        assert forall|u: int, e: int| 0 <= u < g.len() && 0 <= e < g[u].len() implies (#[trigger] g[u][e]) < g.len() by {
            lemma_targets_bounded(es, task_depends(es[u]));
        }
    }
    let marked = detect_cycles(&adj);
    let ghost w_res = warnings_view(warnings@);
    // Apply the resolution results and cycle flags.
    let mut i: usize = 0;
    while i < n
        invariant
            i <= n,
            n == entries.len(),
            es.len() == n,
            marked.len() == n,
            resolved_all.len() == n,
            forall|j: int| 0 <= j < n ==> str_seq((#[trigger] resolved_all@[j])@) == resolve_list(es, task_depends(es[j])),
            forall|j: int| 0 <= j < i ==> #[trigger] entries@[j]@ == resolved_entry(es, j, marked@[j]),
            forall|j: int| i <= j < n ==> #[trigger] entries@[j]@ == es[j],
            warnings_view(warnings@) == w_res + cycle_warnings(es, marked@, i as int),
        decreases n - i,
    {
        let r = copy_string_vec(&resolved_all[i]);
        let mut e = entries[i].clone();
        e.resolved_depends = r;
        if marked[i] {
            e.cyclic = true;
            let msg = match &e.tw_task {
                Some(t) => concat3("CyclicEntry: task '", t.description.as_str(), "' is part of a dependency cycle"),
                None => concat3("CyclicEntry: task '", "<no description>", "' is part of a dependency cycle"),
            };
            let ghost prev_w = warnings_view(warnings@);
            warnings.push(Warning { tw_uuid: e.tw_uuid, message: msg });
            assert(warnings_view(warnings@) =~= prev_w.push(
                WarningView { tw_uuid: es[i as int].tw_uuid, message: cyclic_message(es[i as int]) },
            ));
        }
        assert(e@ == resolved_entry(es, i as int, marked@[i as int]));
        entries.set(i, e);
        i += 1;
    }
    proof {
        assert(graph_of(adj@) == g);
        assert(valid_cycle_marking(g, marked@));
        assert(forall|j: int| 0 <= j < n ==> #[trigger] entries@[j]@ == resolved_entry(es, j, marked@[j]));
    }
    warnings
}

} // verus!
