//! The dependency graph between tasks, and the tasks to restack when a
//! parent changes.

use vstd::prelude::*;
use crate::str_map::KeyMap;
use crate::text::{lemma_lex_total, lemma_lex_trans, lex_lt, str_eq, str_lt};

verus! {

/// Whether ids are strictly ascending (so each occurs once).
pub open spec fn ascending_ids(s: Seq<Seq<char>>) -> bool {
    forall|i: int, j: int| 0 <= i < j < s.len() ==> lex_lt(#[trigger] s[i], #[trigger] s[j])
}

/// A set of task ids, kept in ascending order.
#[derive(Debug)]
pub struct TaskIdSet {
    ids: Vec<String>,
}

impl View for TaskIdSet {
    type V = Seq<Seq<char>>;

    /// The ids in ascending order.
    closed spec fn view(&self) -> Seq<Seq<char>> {
        self.ids.deep_view()
    }
}

impl TaskIdSet {
    #[verifier::type_invariant]
    spec fn inv(&self) -> bool {
        ascending_ids(self.ids.deep_view())
    }

    /// No ids.
    pub fn new() -> (res: Self)
        ensures
            res@.len() == 0,
    {
        let res = TaskIdSet { ids: Vec::new() };
        assert(res.ids.deep_view() =~= Seq::<Seq<char>>::empty());
        res
    }

    /// Whether `id` is in the set.
    pub fn contains(&self, id: &str) -> (res: bool)
        ensures
            res == self@.contains(id@),
    {
        let mut i: usize = 0;
        while i < self.ids.len()
            invariant
                i <= self.ids@.len(),
                forall|j: int| 0 <= j < i ==> self@[j] != id@,
            decreases self.ids@.len() - i,
        {
            assert(self@[i as int] == self.ids@[i as int]@);
            if str_eq(self.ids[i].as_str(), id) {
                return true;
            }
            i = i + 1;
        }
        false
    }

    /// The ids in ascending order.
    pub fn ids(&self) -> (res: &Vec<String>)
        ensures
            res.deep_view() == self@,
            ascending_ids(self@),
    {
        proof {
            use_type_invariant(self);
        }
        &self.ids
    }

    /// Adds `id`, keeping the order.
    pub fn insert(&mut self, id: &str)
        ensures
            final(self)@.to_set() == old(self)@.to_set().insert(id@),
    {
        proof {
            use_type_invariant(&*self);
        }
        let ghost s = self@;
        let mut i: usize = 0;
        while i < self.ids.len() && str_lt(self.ids[i].as_str(), id)
            invariant
                s == self.ids.deep_view(),
                ascending_ids(s),
                i <= s.len(),
                forall|j: int| 0 <= j < i ==> lex_lt(#[trigger] s[j], id@),
            decreases s.len() - i,
        {
            i = i + 1;
        }
        if i < self.ids.len() && str_eq(self.ids[i].as_str(), id) {
            assert(s.to_set().insert(id@) =~= s.to_set()) by {
                assert(s[i as int] == id@);
            }
            return;
        }
        proof {
            if i < s.len() {
                assert(!lex_lt(s[i as int], id@));
                lemma_lex_total(s[i as int], id@);
            }
        }
        let ghost t = s.insert(i as int, id@);
        let mut ids: Vec<String> = Vec::new();
        std::mem::swap(&mut ids, &mut self.ids);
        ids.insert(i, String::from_str(id));
        assert(ids.deep_view() =~= t);
        assert forall|k: int| i <= k < s.len() implies lex_lt(id@, #[trigger] s[k]) by {
            if k > i {
                lemma_lex_trans(id@, s[i as int], s[k]);
            }
        }
        assert(ascending_ids(t)) by {
            assert forall|a: int, b: int| 0 <= a < b < t.len() implies lex_lt(#[trigger] t[a], #[trigger] t[b]) by {
                if b < i {
                } else if a < i && b == i {
                } else if a < i && b > i {
                    assert(lex_lt(id@, s[b - 1]));
                    lemma_lex_trans(s[a], id@, s[b - 1]);
                } else if a == i {
                    assert(lex_lt(id@, s[b - 1]));
                } else {
                    assert(t[a] == s[a - 1] && t[b] == s[b - 1]);
                }
            }
        }
        assert(t.to_set() =~= s.to_set().insert(id@)) by {
            assert forall|x: Seq<char>| t.to_set().contains(x) <==> s.to_set().insert(id@).contains(x) by {
                if t.contains(x) {
                    let k = choose|k: int| 0 <= k < t.len() && t[k] == x;
                    if k < i {
                        assert(s[k] == x);
                    } else if k > i {
                        assert(s[k - 1] == x);
                    }
                }
                if s.contains(x) {
                    let k = choose|k: int| 0 <= k < s.len() && s[k] == x;
                    if k < i {
                        assert(t[k] == x);
                    } else {
                        assert(t[k + 1] == x);
                    }
                }
                if x == id@ {
                    assert(t[i as int] == x);
                }
            }
        }
        self.ids = ids;
    }
}


/// What the graph reads of a task: its id and the ids it depends on.
#[derive(Debug)]
pub struct TaskLinks {
    pub id: String,
    pub depends_on: Vec<String>,
}

/// Whether some task has id `id`.
pub open spec fn known(ts: Seq<TaskLinks>, id: Seq<char>) -> bool {
    exists|i: int| 0 <= i < ts.len() && #[trigger] ts[i].id@ == id
}

/// Whether dependency `b` of task `a` names `p`, counting only the pairs
/// before `(j, k)`.
pub open spec fn dep_before(ts: Seq<TaskLinks>, p: Seq<char>, c: Seq<char>, j: int, k: int) -> bool {
    exists|a: int, b: int| 0 <= a < ts.len() && 0 <= b < ts[a].depends_on@.len() && (a < j || (a == j && b < k))
        && ts[a].id@ == c && #[trigger] ts[a].depends_on@[b]@ == p
}

/// Whether task `c` depends on a different, known task `p`.
pub open spec fn edge(ts: Seq<TaskLinks>, p: Seq<char>, c: Seq<char>) -> bool {
    p != c && known(ts, p) && dep_before(ts, p, c, ts.len() as int, 0)
}

/// Parents and children of each task.
#[derive(Debug)]
pub struct DependencyGraph {
    pub parents_by_child: KeyMap<TaskIdSet>,
    pub children_by_parent: KeyMap<TaskIdSet>,
}

/// Whether `g` is the graph of the tasks `ts`: one entry per known task,
/// and an edge from `p` to `c` when `c` depends on a different known task
/// `p`.
pub open spec fn graph_of(g: DependencyGraph, ts: Seq<TaskLinks>) -> bool {
    &&& forall|id: Seq<char>| #[trigger] g.children_by_parent@.contains_key(id) <==> known(ts, id)
    &&& forall|id: Seq<char>| #[trigger] g.parents_by_child@.contains_key(id) <==> known(ts, id)
    &&& forall|p: Seq<char>, c: Seq<char>| #![trigger g.children_by_parent@[p].contains(c)] #![trigger edge(ts, p, c)]
        known(ts, p) ==> (g.children_by_parent@[p].contains(c) <==> edge(ts, p, c))
    &&& forall|p: Seq<char>, c: Seq<char>| #![trigger g.parents_by_child@[c].contains(p)] #![trigger edge(ts, p, c)]
        known(ts, c) ==> (g.parents_by_child@[c].contains(p) <==> edge(ts, p, c))
}

impl DependencyGraph {
    /// No tasks.
    pub fn empty() -> (res: Self)
        ensures
            res.parents_by_child@ == Map::<Seq<char>, Seq<Seq<char>>>::empty(),
            res.children_by_parent@ == Map::<Seq<char>, Seq<Seq<char>>>::empty(),
    {
        DependencyGraph { parents_by_child: KeyMap::new(), children_by_parent: KeyMap::new() }
    }
}

fn add_to(map: &mut KeyMap<TaskIdSet>, key: &str, id: &str)
    requires
        old(map)@.contains_key(key@),
    ensures
        final(map)@.dom() == old(map)@.dom(),
        final(map)@[key@].to_set() == old(map)@[key@].to_set().insert(id@),
        forall|k: Seq<char>| k != key@ ==> #[trigger] final(map)@[k] == old(map)@[k],
{
    let mut set = match map.remove(key) {
        Some(s) => s,
        None => TaskIdSet::new(),
    };
    set.insert(id);
    map.insert(String::from_str(key), set);
    assert(final(map)@.dom() =~= old(map)@.dom());
}

/// Builds the graph of the tasks: an entry for each task, and an edge for
/// each dependency on a different, known task.
pub fn build_dependency_graph(tasks: &Vec<TaskLinks>) -> (res: DependencyGraph)
    ensures
        graph_of(res, tasks@),
{
    let ghost ts = tasks@;
    let mut graph = DependencyGraph::empty();
    let mut j: usize = 0;
    while j < tasks.len()
        invariant
            ts == tasks@,
            j <= ts.len(),
            forall|id: Seq<char>| #[trigger] graph.children_by_parent@.contains_key(id) <==> known(ts.take(j as int), id),
            forall|id: Seq<char>| #[trigger] graph.parents_by_child@.contains_key(id) <==> known(ts.take(j as int), id),
            forall|id: Seq<char>| #[trigger] graph.children_by_parent@.contains_key(id) ==> graph.children_by_parent@[id].len() == 0,
            forall|id: Seq<char>| #[trigger] graph.parents_by_child@.contains_key(id) ==> graph.parents_by_child@[id].len() == 0,
        decreases ts.len() - j,
    {
        let id = tasks[j].id.as_str();
        proof {
            assert forall|x: Seq<char>| known(ts.take(j + 1), x) <==> (known(ts.take(j as int), x) || x == id@) by {
                if known(ts.take(j + 1), x) {
                    let i = choose|i: int| 0 <= i < j + 1 && #[trigger] ts.take(j + 1)[i].id@ == x;
                    if i < j {
                        assert(ts.take(j as int)[i].id@ == x);
                    }
                }
                if known(ts.take(j as int), x) {
                    let i = choose|i: int| 0 <= i < j && #[trigger] ts.take(j as int)[i].id@ == x;
                    assert(ts.take(j + 1)[i].id@ == x);
                }
                if x == id@ {
                    assert(ts.take(j + 1)[j as int].id@ == x);
                }
            }
        }
        if !graph.children_by_parent.contains_key(id) {
            let e = TaskIdSet::new();
            graph.children_by_parent.insert(String::from_str(id), e);
        }
        if !graph.parents_by_child.contains_key(id) {
            let e = TaskIdSet::new();
            graph.parents_by_child.insert(String::from_str(id), e);
        }
        j = j + 1;
    }
    assert(ts.take(ts.len() as int) =~= ts);
    assert forall|x: Seq<char>, y: Seq<char>| known(ts, x) implies !#[trigger] graph.children_by_parent@[x].contains(y) by {
        assert(graph.children_by_parent@.contains_key(x));
    }
    assert forall|x: Seq<char>, y: Seq<char>| known(ts, y) implies !#[trigger] graph.parents_by_child@[y].contains(x) by {
        assert(graph.parents_by_child@.contains_key(y));
    }
    let mut a: usize = 0;
    while a < tasks.len()
        invariant
            ts == tasks@,
            a <= ts.len(),
            forall|id: Seq<char>| #[trigger] graph.children_by_parent@.contains_key(id) <==> known(ts, id),
            forall|id: Seq<char>| #[trigger] graph.parents_by_child@.contains_key(id) <==> known(ts, id),
            forall|p: Seq<char>, c: Seq<char>| #![trigger graph.children_by_parent@[p].contains(c)]
                known(ts, p) ==> (graph.children_by_parent@[p].contains(c) <==> (p != c && dep_before(ts, p, c, a as int, 0))),
            forall|p: Seq<char>, c: Seq<char>| #![trigger graph.parents_by_child@[c].contains(p)]
                known(ts, c) ==> (graph.parents_by_child@[c].contains(p) <==> (p != c && known(ts, p) && dep_before(ts, p, c, a as int, 0))),
        decreases ts.len() - a,
    {
        let t = &tasks[a];
        let c = t.id.as_str();
        assert(known(ts, c@)) by {
            assert(ts[a as int].id@ == c@);
        }
        let mut b: usize = 0;
        while b < t.depends_on.len()
            invariant
                ts == tasks@,
                a < ts.len(),
                t == &ts[a as int],
                c@ == ts[a as int].id@,
                known(ts, c@),
                b <= t.depends_on@.len(),
                forall|id: Seq<char>| #[trigger] graph.children_by_parent@.contains_key(id) <==> known(ts, id),
                forall|id: Seq<char>| #[trigger] graph.parents_by_child@.contains_key(id) <==> known(ts, id),
                forall|p: Seq<char>, c2: Seq<char>| #![trigger graph.children_by_parent@[p].contains(c2)]
                    known(ts, p) ==> (graph.children_by_parent@[p].contains(c2) <==> (p != c2 && dep_before(ts, p, c2, a as int, b as int))),
                forall|p: Seq<char>, c2: Seq<char>| #![trigger graph.parents_by_child@[c2].contains(p)]
                    known(ts, c2) ==> (graph.parents_by_child@[c2].contains(p) <==> (p != c2 && known(ts, p) && dep_before(ts, p, c2, a as int, b as int))),
            decreases t.depends_on@.len() - b,
        {
            let p = t.depends_on[b].as_str();
            proof {
                assert forall|x: Seq<char>, y: Seq<char>| #[trigger] dep_before(ts, x, y, a as int, b + 1) <==>
                    (dep_before(ts, x, y, a as int, b as int) || (x == p@ && y == c@)) by {
                    if x == p@ && y == c@ {
                        assert(ts[a as int].depends_on@[b as int]@ == x);
                    }
                    if dep_before(ts, x, y, a as int, b + 1) {
                        let (a2, b2) = choose|a2: int, b2: int| 0 <= a2 < ts.len() && 0 <= b2 < ts[a2].depends_on@.len() && (a2 < a || (a2 == a && b2 < b + 1))
                            && ts[a2].id@ == y && #[trigger] ts[a2].depends_on@[b2]@ == x;
                        if !(a2 == a && b2 == b) {
                            assert(dep_before(ts, x, y, a as int, b as int));
                        }
                    }
                }
            }
            let ghost g0c = graph.children_by_parent@;
            let ghost g0p = graph.parents_by_child@;
            let added = !str_eq(p, c) && graph.children_by_parent.contains_key(p);
            if added {
                add_to(&mut graph.children_by_parent, p, c);
                add_to(&mut graph.parents_by_child, c, p);
            }
            proof {
                assert(added <==> (p@ != c@ && known(ts, p@)));
                assert forall|x: Seq<char>, y: Seq<char>| known(ts, x) implies (#[trigger] graph.children_by_parent@[x].contains(y)
                    <==> (x != y && dep_before(ts, x, y, a as int, b + 1))) by {
                    if added && x == p@ {
                        assert(graph.children_by_parent@[x].contains(y) <==> graph.children_by_parent@[x].to_set().contains(y));
                        assert(g0c[x].contains(y) <==> g0c[x].to_set().contains(y));
                    } else {
                        assert(graph.children_by_parent@[x] == g0c[x]);
                    }
                }
                assert forall|x: Seq<char>, y: Seq<char>| known(ts, y) implies (#[trigger] graph.parents_by_child@[y].contains(x)
                    <==> (x != y && known(ts, x) && dep_before(ts, x, y, a as int, b + 1))) by {
                    if added && y == c@ {
                        assert(graph.parents_by_child@[y].contains(x) <==> graph.parents_by_child@[y].to_set().contains(x));
                        assert(g0p[y].contains(x) <==> g0p[y].to_set().contains(x));
                    } else {
                        assert(graph.parents_by_child@[y] == g0p[y]);
                    }
                }
            }
            b = b + 1;
        }
        proof {
            assert forall|x: Seq<char>, y: Seq<char>| #[trigger] dep_before(ts, x, y, a + 1, 0) <==> dep_before(ts, x, y, a as int, t.depends_on@.len() as int) by {
                if dep_before(ts, x, y, a + 1, 0) {
                    let (a2, b2) = choose|a2: int, b2: int| 0 <= a2 < ts.len() && 0 <= b2 < ts[a2].depends_on@.len() && (a2 < a + 1 || (a2 == a + 1 && b2 < 0))
                        && ts[a2].id@ == y && #[trigger] ts[a2].depends_on@[b2]@ == x;
                    assert(dep_before(ts, x, y, a as int, t.depends_on@.len() as int));
                }
                if dep_before(ts, x, y, a as int, t.depends_on@.len() as int) {
                    let (a2, b2) = choose|a2: int, b2: int| 0 <= a2 < ts.len() && 0 <= b2 < ts[a2].depends_on@.len()
                        && (a2 < a || (a2 == a && b2 < t.depends_on@.len())) && ts[a2].id@ == y && #[trigger] ts[a2].depends_on@[b2]@ == x;
                    assert(dep_before(ts, x, y, a + 1, 0));
                }
            }
        }
        a = a + 1;
    }
    graph
}


/// The children of `n` in ascending order; none without an entry.
pub open spec fn kids(m: Map<Seq<char>, Seq<Seq<char>>>, n: Seq<char>) -> Seq<Seq<char>> {
    if m.contains_key(n) { m[n] } else { seq![] }
}

/// The queue and the seen ids after offering `ks` in order: each id not
/// yet seen is marked seen and queued.
pub open spec fn offer(ks: Seq<Seq<char>>, queue: Seq<Seq<char>>, seen: Seq<Seq<char>>) -> (Seq<Seq<char>>, Seq<Seq<char>>)
    decreases ks.len(),
{
    if ks.len() == 0 {
        (queue, seen)
    } else {
        let qs = offer(ks.drop_last(), queue, seen);
        let k = ks.last();
        if qs.1.contains(k) { qs } else { (qs.0.push(k), qs.1.push(k)) }
    }
}

/// The visited ids, the queue and the seen ids after `n` steps of a
/// breadth-first walk from queue `q0` and seen ids `s0`: each step visits
/// the head of the queue and offers its children.
pub open spec fn walk_state(m: Map<Seq<char>, Seq<Seq<char>>>, q0: Seq<Seq<char>>, s0: Seq<Seq<char>>, n: nat) -> (Seq<Seq<char>>, Seq<Seq<char>>, Seq<Seq<char>>)
    decreases n,
{
    if n == 0 {
        (seq![], q0, s0)
    } else {
        let st = walk_state(m, q0, s0, (n - 1) as nat);
        if st.1.len() == 0 {
            st
        } else {
            let node = st.1[0];
            let qs = offer(kids(m, node), st.1.drop_first(), st.2);
            (st.0.push(node), qs.0, qs.1)
        }
    }
}

/// The walk from the children of `parent`, after `n` steps.
pub open spec fn restack_walk(m: Map<Seq<char>, Seq<Seq<char>>>, parent: Seq<char>, n: nat) -> (Seq<Seq<char>>, Seq<Seq<char>>, Seq<Seq<char>>) {
    let start = offer(kids(m, parent), seq![], seq![]);
    walk_state(m, start.0, start.1, n)
}

proof fn lemma_offer(ks: Seq<Seq<char>>, pre: Seq<Seq<char>>, queue: Seq<Seq<char>>, seen: Seq<Seq<char>>)
    requires
        seen.no_duplicates(),
    ensures
        offer(ks, pre + queue, seen).0 == pre + offer(ks, queue, seen).0,
        offer(ks, pre + queue, seen).1 == offer(ks, queue, seen).1,
        offer(ks, queue, seen).1.no_duplicates(),
        offer(ks, queue, seen).0.len() - queue.len() == offer(ks, queue, seen).1.len() - seen.len(),
        offer(ks, queue, seen).0.len() >= queue.len(),
        forall|x: Seq<char>| #[trigger] offer(ks, queue, seen).1.contains(x) ==> seen.contains(x) || ks.contains(x),
    decreases ks.len(),
{
    if ks.len() > 0 {
        lemma_offer(ks.drop_last(), pre, queue, seen);
        let qs = offer(ks.drop_last(), queue, seen);
        let k = ks.last();
        if !qs.1.contains(k) {
            assert((pre + qs.0).push(k) =~= pre + qs.0.push(k));
            assert forall|x: Seq<char>| #[trigger] qs.1.push(k).contains(x) implies seen.contains(x) || ks.contains(x) by {
                if qs.1.contains(x) {
                    if !seen.contains(x) {
                        assert(ks.drop_last().contains(x));
                        let i = choose|i: int| 0 <= i < ks.drop_last().len() && ks.drop_last()[i] == x;
                        assert(ks[i] == x);
                    }
                } else {
                    assert(x == k);
                    assert(ks[ks.len() - 1] == x);
                }
            }
        } else {
            assert forall|x: Seq<char>| #[trigger] qs.1.contains(x) implies seen.contains(x) || ks.contains(x) by {
                if !seen.contains(x) {
                    let i = choose|i: int| 0 <= i < ks.drop_last().len() && ks.drop_last()[i] == x;
                    assert(ks[i] == x);
                }
            }
        }
    }
}

fn vec_has(v: &Vec<String>, s: &str) -> (res: bool)
    ensures
        res == v.deep_view().contains(s@),
{
    let mut i: usize = 0;
    while i < v.len()
        invariant
            i <= v@.len(),
            forall|j: int| 0 <= j < i ==> v.deep_view()[j] != s@,
        decreases v@.len() - i,
    {
        if str_eq(v[i].as_str(), s) {
            assert(v.deep_view()[i as int] == s@);
            return true;
        }
        i = i + 1;
    }
    false
}

fn offer_into(ks: &Vec<String>, queue: &mut Vec<String>, seen: &mut Vec<String>)
    ensures
        (final(queue).deep_view(), final(seen).deep_view()) == offer(ks.deep_view(), old(queue).deep_view(), old(seen).deep_view()),
{
    let ghost kd = ks.deep_view();
    let ghost q0 = queue.deep_view();
    let ghost s0 = seen.deep_view();
    let mut i: usize = 0;
    assert(kd.take(0) =~= Seq::<Seq<char>>::empty());
    while i < ks.len()
        invariant
            kd == ks.deep_view(),
            i <= kd.len(),
            (queue.deep_view(), seen.deep_view()) == offer(kd.take(i as int), q0, s0),
        decreases kd.len() - i,
    {
        assert(kd.take(i + 1).drop_last() =~= kd.take(i as int));
        assert(kd.take(i + 1).last() == ks@[i as int]@);
        let k = ks[i].as_str();
        if !vec_has(seen, k) {
            let ghost qb = queue.deep_view();
            let ghost sb = seen.deep_view();
            queue.push(String::from_str(k));
            seen.push(String::from_str(k));
            assert(queue.deep_view() =~= qb.push(k@));
            assert(seen.deep_view() =~= sb.push(k@));
        }
        i = i + 1;
    }
    assert(kd.take(kd.len() as int) =~= kd);
}

fn all_children(map: &KeyMap<TaskIdSet>) -> (res: Vec<String>)
    ensures
        res.deep_view().no_duplicates(),
        forall|k: Seq<char>, x: Seq<char>| map@.contains_key(k) && #[trigger] map@[k].contains(x) ==> #[trigger] res.deep_view().contains(x),
{
    let entries = map.entries();
    proof {
        crate::str_map::lemma_entries_map(entries@);
    }
    let mut out: Vec<String> = Vec::new();
    let mut i: usize = 0;
    while i < entries.len()
        invariant
            i <= entries@.len(),
            out.deep_view().no_duplicates(),
            forall|e: int, x: Seq<char>| 0 <= e < i && #[trigger] entries@[e].1@.contains(x) ==> out.deep_view().contains(x),
        decreases entries@.len() - i,
    {
        let ids = entries[i].1.ids();
        let mut j: usize = 0;
        while j < ids.len()
            invariant
                i < entries@.len(),
                ids.deep_view() == entries@[i as int].1@,
                j <= ids@.len(),
                out.deep_view().no_duplicates(),
                forall|e: int, x: Seq<char>| 0 <= e < i && #[trigger] entries@[e].1@.contains(x) ==> out.deep_view().contains(x),
                forall|b: int| 0 <= b < j ==> out.deep_view().contains(#[trigger] ids.deep_view()[b]),
            decreases ids@.len() - j,
        {
            let id = ids[j].as_str();
            if !vec_has(&out, id) {
                let ghost before = out.deep_view();
                out.push(String::from_str(id));
                assert(out.deep_view() =~= before.push(id@));
                assert(out.deep_view()[before.len() as int] == id@);
                assert forall|x: Seq<char>| before.contains(x) implies #[trigger] out.deep_view().contains(x) by {
                    let k = choose|k: int| 0 <= k < before.len() && before[k] == x;
                    assert(out.deep_view()[k] == x);
                }
            }
            assert(ids.deep_view()[j as int] == id@);
            j = j + 1;
        }
        assert forall|e: int, x: Seq<char>| 0 <= e < i + 1 && #[trigger] entries@[e].1@.contains(x) implies out.deep_view().contains(x) by {
            if e == i {
                let b = choose|b: int| 0 <= b < ids.deep_view().len() && ids.deep_view()[b] == x;
                assert(out.deep_view().contains(ids.deep_view()[b]));
            }
        }
        i = i + 1;
    }
    assert forall|k: Seq<char>, x: Seq<char>| map@.contains_key(k) && #[trigger] map@[k].contains(x) implies #[trigger] out.deep_view().contains(x) by {
        let e = choose|e: int| 0 <= e < entries@.len() && entries@[e].0@ == k;
        assert(map@[k] == entries@[e].1@);
    }
    out
}

proof fn lemma_seen_bound(seen: Seq<Seq<char>>, u: Seq<Seq<char>>)
    requires
        seen.no_duplicates(),
        forall|x: Seq<char>| #[trigger] seen.contains(x) ==> u.contains(x),
    ensures
        seen.len() <= u.len(),
{
    seen.unique_seq_to_set();
    u.lemma_cardinality_of_set();
    assert(seen.to_set().subset_of(u.to_set()));
    vstd::set_lib::lemma_len_subset(seen.to_set(), u.to_set());
}

/// The tasks to restack when `parent` changes: its descendants, each once,
/// in breadth-first order with the children of each task taken in
/// ascending order of id.
pub fn restack_descendants_for_parent(graph: &DependencyGraph, parent: &str) -> (res: Vec<String>)
    ensures
        restack_walk(graph.children_by_parent@, parent@, res@.len() as nat).0 == res.deep_view(),
        restack_walk(graph.children_by_parent@, parent@, res@.len() as nat).1.len() == 0,
{
    let ghost m = graph.children_by_parent@;
    let universe = all_children(&graph.children_by_parent);
    let empty: Vec<String> = Vec::new();
    let first: &Vec<String> = match graph.children_by_parent.get(parent) {
        Some(set) => set.ids(),
        None => &empty,
    };
    assert(first.deep_view() == kids(m, parent@));
    let mut queue: Vec<String> = Vec::new();
    let mut seen: Vec<String> = Vec::new();
    assert(seen.deep_view() =~= Seq::<Seq<char>>::empty());
    assert(queue.deep_view() =~= Seq::<Seq<char>>::empty());
    proof {
        lemma_offer(kids(m, parent@), seq![], seq![], seq![]);
    }
    offer_into(first, &mut queue, &mut seen);
    let ghost q0 = queue.deep_view();
    let ghost s0 = seen.deep_view();
    let mut head: usize = 0;
    let mut out: Vec<String> = Vec::new();
    assert(out.deep_view() =~= Seq::<Seq<char>>::empty());
    assert(queue.deep_view().skip(0) =~= queue.deep_view());
    while head < queue.len()
        invariant
            m == graph.children_by_parent@,
            head <= queue@.len(),
            seen.deep_view().no_duplicates(),
            forall|x: Seq<char>| #[trigger] seen.deep_view().contains(x) ==> universe.deep_view().contains(x),
            forall|k: Seq<char>, x: Seq<char>| m.contains_key(k) && #[trigger] m[k].contains(x) ==> #[trigger] universe.deep_view().contains(x),
            walk_state(m, q0, s0, out@.len() as nat) == (out.deep_view(), queue.deep_view().skip(head as int), seen.deep_view()),
            queue@.len() - head <= seen@.len(),
        decreases 2 * (universe@.len() - seen@.len()) + (queue@.len() - head),
    {
        proof {
            lemma_seen_bound(seen.deep_view(), universe.deep_view());
        }
        let ghost qd = queue.deep_view();
        let ghost sd = seen.deep_view();
        let ghost n = out@.len();
        let node = queue[head].clone();
        head = head + 1;
        let ghost rest = qd.skip(head as int);
        assert(qd.skip(head - 1).drop_first() =~= rest);
        assert(qd.skip(head - 1)[0] == node@);
        let empty2: Vec<String> = Vec::new();
        let ks: &Vec<String> = match graph.children_by_parent.get(node.as_str()) {
            Some(set) => set.ids(),
            None => &empty2,
        };
        assert(ks.deep_view() == kids(m, node@));
        proof {
            lemma_offer(kids(m, node@), qd.take(head as int), rest, sd);
            assert(qd.take(head as int) + rest =~= qd);
        }
        offer_into(ks, &mut queue, &mut seen);
        proof {
            let qs = offer(kids(m, node@), rest, sd);
            assert(queue.deep_view() == qd.take(head as int) + qs.0);
            assert(queue.deep_view().skip(head as int) =~= qs.0);
            assert forall|x: Seq<char>| #[trigger] seen.deep_view().contains(x) implies universe.deep_view().contains(x) by {
                if !sd.contains(x) {
                    assert(kids(m, node@).contains(x));
                    assert(m.contains_key(node@));
                }
            }
            lemma_seen_bound(seen.deep_view(), universe.deep_view());
            assert(qs.0.len() - rest.len() == qs.1.len() - sd.len());
            assert(queue@.len() == queue.deep_view().len());
            assert(seen@.len() == seen.deep_view().len());
            assert(universe@.len() == universe.deep_view().len());
        }
        let ghost ob = out.deep_view();
        out.push(node);
        assert(out.deep_view() =~= ob.push(node@));
    }
    assert(queue.deep_view().skip(head as int) =~= Seq::<Seq<char>>::empty());
    out
}


proof fn lemma_offer_same(ks: Seq<Seq<char>>, q: Seq<Seq<char>>, s: Seq<Seq<char>>)
    ensures
        offer(ks, q, s).0 == q + (offer(ks, q, s).1.skip(s.len() as int)),
        offer(ks, q, s).1.take(s.len() as int) == s,
        offer(ks, q, s).1.len() >= s.len(),
    decreases ks.len(),
{
    if ks.len() == 0 {
        assert(s.skip(s.len() as int) =~= Seq::<Seq<char>>::empty());
        assert(q + Seq::<Seq<char>>::empty() =~= q);
        assert(s.take(s.len() as int) =~= s);
    } else {
        lemma_offer_same(ks.drop_last(), q, s);
        let qs = offer(ks.drop_last(), q, s);
        let k = ks.last();
        if !qs.1.contains(k) {
            assert(qs.1.push(k).skip(s.len() as int) =~= qs.1.skip(s.len() as int).push(k));
            assert(qs.0.push(k) =~= q + qs.1.push(k).skip(s.len() as int));
            assert(qs.1.push(k).take(s.len() as int) =~= qs.1.take(s.len() as int));
        }
    }
}

proof fn lemma_walk_splits(m: Map<Seq<char>, Seq<Seq<char>>>, q0: Seq<Seq<char>>, s0: Seq<Seq<char>>, n: nat)
    requires
        q0 == s0,
        s0.no_duplicates(),
    ensures
        walk_state(m, q0, s0, n).0 + walk_state(m, q0, s0, n).1 == walk_state(m, q0, s0, n).2,
        walk_state(m, q0, s0, n).2.no_duplicates(),
    decreases n,
{
    if n == 0 {
        assert(Seq::<Seq<char>>::empty() + q0 =~= q0);
    } else {
        lemma_walk_splits(m, q0, s0, (n - 1) as nat);
        let st = walk_state(m, q0, s0, (n - 1) as nat);
        if st.1.len() > 0 {
            let node = st.1[0];
            let ks = kids(m, node);
            lemma_offer(ks, seq![], st.1.drop_first(), st.2);
            lemma_offer_same(ks, st.1.drop_first(), st.2);
            let qs = offer(ks, st.1.drop_first(), st.2);
            assert(st.0.push(node) + qs.0 =~= qs.1) by {
                assert(st.0.push(node) + st.1.drop_first() =~= st.0 + st.1);
                assert(qs.1 =~= qs.1.take(st.2.len() as int) + qs.1.skip(st.2.len() as int));
            }
        }
    }
}

/// The tasks to restack never repeat: a walk visits each task at most once.
pub proof fn lemma_restack_no_duplicates(m: Map<Seq<char>, Seq<Seq<char>>>, parent: Seq<char>, n: nat)
    ensures
        restack_walk(m, parent, n).0.no_duplicates(),
{
    let empty = Seq::<Seq<char>>::empty();
    lemma_offer(kids(m, parent), empty, empty, empty);
    lemma_offer_same(kids(m, parent), empty, empty);
    let start = offer(kids(m, parent), empty, empty);
    assert(start.0 =~= start.1) by {
        assert(empty.len() == 0);
        assert(start.1.skip(0) =~= start.1);
        assert(empty + start.1 =~= start.1);
    }
    lemma_walk_splits(m, start.0, start.1, n);
    let w = walk_state(m, start.0, start.1, n);
    assert forall|i: int, j: int| 0 <= i < w.0.len() && 0 <= j < w.0.len() && i != j implies w.0[i] != w.0[j] by {
        assert(w.0[i] == w.2[i] && w.0[j] == w.2[j]);
    }
}

} // verus!
