//! Loading of the context graph from `.othala/context/MAIN.md`, breadth
//! first along the links, within a depth limit and a byte budget.
//!
//! The loader decides; its caller reads the files and resolves links to
//! canonical paths. A run goes: `next_file` names a file to read, `accept`
//! takes its content (or nothing, when it cannot be read) and names the
//! links to resolve, `commit` takes their canonical paths; until
//! `next_file` names no file, then `finish` gives the graph.

use vstd::prelude::*;
use crate::context_graph::{extract_links, spec_extract_links, ContextGraph, ContextLoadConfig, ContextNode};
use crate::context_manager::{copy_strings, cut, cut_ok, cut_text};
use crate::text::{chars_of, decimal, push_decimal, str_eq, utf8_len, utf8_len_capped};

verus! {

/// The file the walk starts from.
pub open spec fn entry_path() -> Seq<char> {
    ".othala/context/MAIN.md"@
}

/// A node as plain values: path, content, links, source references.
pub type NodeView = (Seq<char>, Seq<char>, Seq<Seq<char>>, Seq<Seq<char>>);

/// The view of a node.
pub open spec fn node_view(n: ContextNode) -> NodeView {
    (n.path@, n.content@, n.links.deep_view(), n.source_refs.deep_view())
}

/// The views of a list of nodes.
pub open spec fn node_views(ns: Seq<ContextNode>) -> Seq<NodeView> {
    ns.map_values(|n: ContextNode| node_view(n))
}

/// The views of the queued files.
pub open spec fn queue_view(q: Seq<(String, usize)>) -> Seq<(Seq<char>, usize)> {
    q.map_values(|e: (String, usize)| (e.0@, e.1))
}

/// The state of a load.
#[derive(Debug)]
pub struct ContextGraphLoader {
    pub config: ContextLoadConfig,
    /// Files still to read, with their depth.
    pub queue: Vec<(String, usize)>,
    /// Canonical paths of the files queued so far.
    pub visited: Vec<String>,
    pub nodes: Vec<ContextNode>,
    /// Bytes of content loaded.
    pub total_chars: usize,
    pub cycle_count: usize,
    /// Warnings for the user, in order.
    pub warnings: Vec<String>,
    /// Whether the budget ran out.
    pub stopped: bool,
    /// The file taken by `accept` whose links await `commit`, and its depth.
    pub pending: Option<(ContextNode, usize)>,
    /// The depth of the file last handed out by `next_file`.
    pub last_depth: usize,
}

/// A load's state as plain values.
pub struct LoaderView {
    pub queue: Seq<(Seq<char>, usize)>,
    pub visited: Seq<Seq<char>>,
    pub nodes: Seq<NodeView>,
    pub total: usize,
    pub cycles: usize,
    pub warnings: Seq<Seq<char>>,
    pub stopped: bool,
    pub pending: Option<(NodeView, usize)>,
    pub last: usize,
}

impl View for ContextGraphLoader {
    type V = LoaderView;

    open spec fn view(&self) -> LoaderView {
        LoaderView {
            queue: queue_view(self.queue@),
            visited: self.visited.deep_view(),
            nodes: node_views(self.nodes@),
            total: self.total_chars,
            cycles: self.cycle_count,
            warnings: self.warnings.deep_view(),
            stopped: self.stopped,
            pending: match self.pending {
                Some(p) => Some((node_view(p.0), p.1)),
                None => None,
            },
            last: self.last_depth,
        }
    }
}

/// The bytes of content over all nodes.
pub open spec fn content_bytes(ns: Seq<NodeView>) -> nat
    decreases ns.len(),
{
    if ns.len() == 0 {
        0
    } else {
        content_bytes(ns.drop_last()) + utf8_len(ns.last().1)
    }
}

/// The warning for a queued file beyond the depth limit.
pub open spec fn depth_warning(rel: Seq<char>, depth: usize, max_depth: usize) -> Seq<char> {
    "warning: context depth limit reached at "@ + rel + " (depth "@ + decimal(depth as nat) + ", max_depth "@
        + decimal(max_depth as nat) + ")"@
}

/// The warning for a link beyond the depth limit.
pub open spec fn link_depth_warning(rel: Seq<char>, link: Seq<char>, max_depth: usize) -> Seq<char> {
    "warning: context depth limit reached at "@ + rel + " -> "@ + link + " (max_depth "@ + decimal(max_depth as nat) + ")"@
}

/// The warning for a link back to a file already queued.
pub open spec fn cycle_warning(rel: Seq<char>, link: Seq<char>) -> Seq<char> {
    "warning: cycle detected in context graph: "@ + rel + " -> "@ + link
}

/// The warning closing a load with more than three cycles.
pub open spec fn suppressed_warning(cycles: usize) -> Seq<char> {
    "warning: "@ + decimal((cycles - 3) as nat) + " additional cycle(s) suppressed in context graph"@
}

/// The state after asking for the next file, and that file: files beyond
/// the depth limit are dropped with a warning, and the load stops once the
/// budget is spent.
pub open spec fn next_step(v: LoaderView, c: ContextLoadConfig) -> (LoaderView, Option<(Seq<char>, usize)>)
    decreases v.queue.len(),
{
    if v.stopped || v.queue.len() == 0 {
        (v, None)
    } else {
        let (rel, d) = v.queue[0];
        let v1 = LoaderView { queue: v.queue.drop_first(), ..v };
        if d > c.max_depth {
            next_step(LoaderView { warnings: v1.warnings.push(depth_warning(rel, d, c.max_depth)), ..v1 }, c)
        } else if v.total >= c.max_total_chars {
            (LoaderView { stopped: true, ..v1 }, None)
        } else {
            (LoaderView { last: d, ..v1 }, Some((rel, d)))
        }
    }
}

/// The budget left.
pub open spec fn remaining(v: LoaderView, c: ContextLoadConfig) -> nat {
    if v.total >= c.max_total_chars { 0 } else { (c.max_total_chars - v.total) as nat }
}

/// The state after taking the content of `rel` at depth `d`: the content is
/// cut to the budget left, its links are extracted and the node waits for
/// the links' canonical paths; links beyond the depth limit are dropped with
/// a warning each.
pub open spec fn accept_step(v: LoaderView, c: ContextLoadConfig, rel: Seq<char>, d: usize, content: Seq<char>) -> LoaderView {
    let text = cut(content, remaining(v, c));
    let ll = spec_extract_links(text, rel);
    LoaderView {
        total: (v.total + utf8_len(text)) as usize,
        pending: Some(((rel, text, ll.ctx, ll.src), d)),
        warnings: if d >= c.max_depth {
            v.warnings + ll.ctx.map_values(|l: Seq<char>| link_depth_warning(rel, l, c.max_depth))
        } else {
            v.warnings
        },
        ..v
    }
}

/// The state after the links of the pending node have their canonical
/// paths `keys` (for links within the depth limit): links to files already
/// queued count as cycles (the first three warned about), the others are
/// queued one level deeper; then the node joins the graph.
pub open spec fn commit_links(v: LoaderView, rel: Seq<char>, d: usize, links: Seq<Seq<char>>, keys: Seq<Seq<char>>, n: nat) -> LoaderView
    decreases n,
{
    if n == 0 {
        v
    } else {
        let w = commit_links(v, rel, d, links, keys, (n - 1) as nat);
        let i = n - 1;
        if w.visited.contains(keys[i]) {
            let cycles = (w.cycles + 1) as usize;
            LoaderView {
                cycles,
                warnings: if cycles <= 3 { w.warnings.push(cycle_warning(rel, links[i])) } else { w.warnings },
                ..w
            }
        } else {
            LoaderView { visited: w.visited.push(keys[i]), queue: w.queue.push((links[i], (d + 1) as usize)), ..w }
        }
    }
}

proof fn lemma_commit_keeps(v: LoaderView, rel: Seq<char>, d: usize, links: Seq<Seq<char>>, keys: Seq<Seq<char>>, n: nat)
    ensures
        commit_links(v, rel, d, links, keys, n).nodes == v.nodes,
        commit_links(v, rel, d, links, keys, n).total == v.total,
        commit_links(v, rel, d, links, keys, n).pending == v.pending,
    decreases n,
{
    if n > 0 {
        lemma_commit_keeps(v, rel, d, links, keys, (n - 1) as nat);
    }
}

/// The links of the pending node that need canonical paths.
pub open spec fn links_to_resolve(v: LoaderView, c: ContextLoadConfig) -> Seq<Seq<char>> {
    match v.pending {
        Some((node, d)) => if d >= c.max_depth { Seq::empty() } else { node.2 },
        None => Seq::empty(),
    }
}

/// The state after `commit`.
pub open spec fn commit_step(v: LoaderView, c: ContextLoadConfig, keys: Seq<Seq<char>>) -> LoaderView {
    match v.pending {
        Some((node, d)) => {
            let links = links_to_resolve(v, c);
            let w = commit_links(v, node.0, d, links, keys, links.len());
            LoaderView { nodes: w.nodes.push(node), pending: None, ..w }
        },
        None => v,
    }
}

/// The queue of a breadth-first walk that last handed out a file at depth
/// `last`: ordered by depth, every file at depth `last` or one deeper.
pub open spec fn queue_in_layers(q: Seq<(Seq<char>, usize)>, last: usize) -> bool {
    &&& forall|i: int| 0 <= i < q.len() ==> last <= #[trigger] q[i].1 <= last + 1
    &&& forall|i: int, j: int| 0 <= i < j < q.len() ==> #[trigger] q[i].1 <= #[trigger] q[j].1
}

/// What holds of a load between steps: the content loaded is the content
/// of the nodes and stays within the budget, each file is queued once, and
/// the queue is walked breadth first, the pending file being the one last
/// handed out.
pub open spec fn loader_inv(v: LoaderView, c: ContextLoadConfig) -> bool {
    &&& v.pending is None ==> content_bytes(v.nodes) == v.total
    &&& (v.pending matches Some(p) ==> content_bytes(v.nodes) + utf8_len(p.0.1) == v.total)
    &&& v.total <= c.max_total_chars
    &&& v.visited.no_duplicates()
    &&& queue_in_layers(v.queue, v.last)
    &&& (v.pending matches Some(p) ==> p.1 == v.last)
}

fn push_link_warnings(warnings: &mut Vec<String>, rel: &str, links: &Vec<String>, max_depth: usize)
    ensures
        final(warnings).deep_view() == old(warnings).deep_view() + links.deep_view().map_values(|l: Seq<char>| link_depth_warning(rel@, l, max_depth)),
{
    let ghost w0 = warnings.deep_view();
    let ghost f = |l: Seq<char>| link_depth_warning(rel@, l, max_depth);
    let mut i: usize = 0;
    assert(links.deep_view().take(0).map_values(f) =~= Seq::<Seq<char>>::empty());
    assert(w0 + Seq::<Seq<char>>::empty() =~= w0);
    while i < links.len()
        invariant
            i <= links@.len(),
            f == (|l: Seq<char>| link_depth_warning(rel@, l, max_depth)),
            warnings.deep_view() =~= w0 + links.deep_view().take(i as int).map_values(f),
        decreases links@.len() - i,
    {
        let mut w = String::from_str("warning: context depth limit reached at ");
        w.append(rel);
        w.append(" -> ");
        w.append(links[i].as_str());
        w.append(" (max_depth ");
        push_decimal(&mut w, max_depth as u64);
        w.append(")");
        let ghost before = warnings.deep_view();
        warnings.push(w);
        assert(warnings.deep_view() =~= before.push(link_depth_warning(rel@, links@[i as int]@, max_depth)));
        assert(links.deep_view().take(i + 1).map_values(f) =~= links.deep_view().take(i as int).map_values(f).push(f(links@[i as int]@)));
        i = i + 1;
    }
    assert(links.deep_view().take(links@.len() as int) =~= links.deep_view());
}

impl ContextGraphLoader {
    /// A load from MAIN.md, whose canonical path is `entry_key`.
    pub fn new(config: ContextLoadConfig, entry_key: &str) -> (res: Self)
        ensures
            res.config == config,
            res@ == (LoaderView {
                queue: seq![(entry_path(), 0usize)],
                visited: seq![entry_key@],
                nodes: Seq::empty(),
                total: 0,
                cycles: 0,
                warnings: Seq::empty(),
                stopped: false,
                pending: None,
                last: 0,
            }),
            loader_inv(res@, res.config),
    {
        let mut queue: Vec<(String, usize)> = Vec::new();
        queue.push((String::from_str(".othala/context/MAIN.md"), 0));
        let mut visited: Vec<String> = Vec::new();
        visited.push(String::from_str(entry_key));
        let res = ContextGraphLoader {
            config,
            queue,
            visited,
            nodes: Vec::new(),
            total_chars: 0,
            cycle_count: 0,
            warnings: Vec::new(),
            stopped: false,
            pending: None,
            last_depth: 0,
        };
        assert(res@.queue =~= seq![(entry_path(), 0usize)]);
        assert(res@.visited =~= seq![entry_key@]);
        assert(res@.nodes =~= Seq::<NodeView>::empty());
        assert(res@.warnings =~= Seq::<Seq<char>>::empty());
        res
    }

    /// The next file to read and its depth; `None` when the load is over.
    pub fn next_file(&mut self) -> (res: Option<(String, usize)>)
        requires
            old(self)@.pending is None,
            loader_inv(old(self)@, old(self).config),
        ensures
            final(self).config == old(self).config,
            (final(self)@, match res {
                Some(f) => Some((f.0@, f.1)),
                None => None,
            }) == next_step(old(self)@, old(self).config),
            loader_inv(final(self)@, final(self).config),
            res matches Some(f) ==> old(self)@.last <= f.1 <= old(self).config.max_depth,
        decreases old(self).queue@.len(),
    {
        if self.stopped || self.queue.len() == 0 {
            return None;
        }
        let ghost v = self@;
        let (rel, d) = self.queue.remove(0);
        assert(queue_view(self.queue@) =~= v.queue.drop_first());
        if d > self.config.max_depth {
            let mut w = String::from_str("warning: context depth limit reached at ");
            w.append(rel.as_str());
            w.append(" (depth ");
            push_decimal(&mut w, d as u64);
            w.append(", max_depth ");
            push_decimal(&mut w, self.config.max_depth as u64);
            w.append(")");
            let ghost before = self.warnings.deep_view();
            self.warnings.push(w);
            assert(self.warnings.deep_view() =~= before.push(depth_warning(rel@, d, self.config.max_depth)));
            return self.next_file();
        }
        if self.total_chars >= self.config.max_total_chars {
            self.stopped = true;
            return None;
        }
        assert(v.queue[0].1 == d);
        self.last_depth = d;
        Some((rel, d))
    }

    /// Takes the content of `rel`, read at depth `depth` (`None` when the
    /// file could not be read: it is skipped), and returns the links whose
    /// canonical paths `commit` needs.
    pub fn accept(&mut self, rel: &str, depth: usize, content: Option<&str>) -> (res: Vec<String>)
        requires
            old(self)@.pending is None,
            depth == old(self)@.last,
            loader_inv(old(self)@, old(self).config),
            content matches Some(t) ==> utf8_len(t@) < usize::MAX - 4,
            content matches Some(t) ==> cut_ok(t@, remaining(old(self)@, old(self).config)),
        ensures
            final(self).config == old(self).config,
            final(self)@ == match content {
                Some(t) => accept_step(old(self)@, old(self).config, rel@, depth, t@),
                None => old(self)@,
            },
            res.deep_view() == links_to_resolve(final(self)@, final(self).config),
            loader_inv(final(self)@, final(self).config),
    {
        let text = match content {
            None => {
                let r: Vec<String> = Vec::new();
                assert(r.deep_view() =~= Seq::<Seq<char>>::empty());
                return r;
            },
            Some(t) => t,
        };
        let room: usize = if self.total_chars >= self.config.max_total_chars { 0 } else { self.config.max_total_chars - self.total_chars };
        let v = chars_of(text);
        let n = v.len();
        assert(v@.subrange(0, n as int) =~= v@);
        let cap: usize = if room < usize::MAX - 5 { room } else { usize::MAX - 5 };
        let size = utf8_len_capped(&v, 0, n, cap);
        let (kept, bytes) = if size <= cap { (String::from_str(text), size) } else { (cut_text(text, room), room) };
        assert(kept@ == cut(text@, room as nat));
        assert(bytes == utf8_len(kept@));
        let (links, refs) = extract_links(kept.as_str(), rel);
        let ghost ll = spec_extract_links(kept@, rel@);
        assert(links.deep_view() =~= ll.ctx);
        assert(refs.deep_view() =~= ll.src);
        let ghost v0 = self@;
        self.total_chars = self.total_chars + bytes;
        let max_depth = self.config.max_depth;
        if depth >= max_depth {
            push_link_warnings(&mut self.warnings, rel, &links, max_depth);
        }
        let node = ContextNode { path: String::from_str(rel), content: kept, links, source_refs: refs };
        let out = if depth >= max_depth { Vec::new() } else { copy_strings(&node.links) };
        self.pending = Some((node, depth));
        assert(self@.pending == Some(((rel@, kept@, ll.ctx, ll.src), depth)));
        assert(self@.warnings == accept_step(v0, self.config, rel@, depth, text@).warnings);
        assert(self@ == accept_step(v0, self.config, rel@, depth, text@));
        assert(out.deep_view() =~= links_to_resolve(self@, self.config));
        out
    }
}


fn vec_has(v: &Vec<String>, s: &str) -> (res: bool)
    ensures
        res == v.deep_view().contains(s@),
{
    let mut i: usize = 0;
    while i < v.len()
        invariant
            i <= v@.len(),
            forall|j: int| 0 <= j < i ==> v.deep_view()[j] != s@,
        decreases v@.len() - i,
    {
        if str_eq(v[i].as_str(), s) {
            assert(v.deep_view()[i as int] == s@);
            return true;
        }
        i = i + 1;
    }
    false
}

/// The graph a finished load gives, and the closing warning about
/// suppressed cycles.
pub open spec fn finished_warnings(v: LoaderView) -> Seq<Seq<char>> {
    if v.cycles > 3 { v.warnings.push(suppressed_warning(v.cycles)) } else { v.warnings }
}

impl ContextGraphLoader {
    /// Takes the canonical paths of the links that `accept` returned, in
    /// order, and adds the pending node to the graph.
    pub fn commit(&mut self, keys: &Vec<String>)
        requires
            old(self)@.pending is Some,
            keys@.len() == links_to_resolve(old(self)@, old(self).config).len(),
            old(self).cycle_count + keys@.len() <= usize::MAX,
            loader_inv(old(self)@, old(self).config),
        ensures
            final(self).config == old(self).config,
            final(self)@ == commit_step(old(self)@, old(self).config, keys.deep_view()),
            loader_inv(final(self)@, final(self).config),
    {
        let ghost v = self@;
        let ghost cfg = self.config;
        let ghost links = links_to_resolve(v, self.config);
        let mut slot: Option<(ContextNode, usize)> = None;
        std::mem::swap(&mut slot, &mut self.pending);
        let (node, depth) = match slot {
            Some(p) => p,
            None => {
                assert(false);
                return;
            },
        };
        let ghost kd = keys.deep_view();
        let n = keys.len();
        let follow = depth < self.config.max_depth;
        assert(follow ==> links == node.links.deep_view());
        let mut i: usize = 0;
        while i < n
            invariant
                n == keys@.len(),
                kd == keys.deep_view(),
                self.config == cfg,
                v.pending == Some((node_view(node), depth)),
                loader_inv(v, cfg),
                n == links.len(),
                follow ==> links == node.links.deep_view(),
                !follow ==> n == 0,
                follow ==> depth < self.config.max_depth,
                i <= n,
                v.cycles + n <= usize::MAX,
                self.cycle_count <= v.cycles + i,
                self.visited.deep_view().no_duplicates(),
                self.pending is None,
                self@ == (LoaderView { pending: None, ..commit_links(v, node.path@, depth, links, kd, i as nat) }),
                depth == v.last,
                self.last_depth == v.last,
                queue_in_layers(queue_view(self.queue@), v.last),
            decreases n - i,
        {
            let key = keys[i].as_str();
            assert(kd[i as int] == key@);
            if vec_has(&self.visited, key) {
                self.cycle_count = self.cycle_count + 1;
                if self.cycle_count <= 3 {
                    let mut w = String::from_str("warning: cycle detected in context graph: ");
                    w.append(node.path.as_str());
                    w.append(" -> ");
                    w.append(node.links[i].as_str());
                    let ghost before = self.warnings.deep_view();
                    self.warnings.push(w);
                    assert(self.warnings.deep_view() =~= before.push(cycle_warning(node.path@, links[i as int])));
                }
            } else {
                let link = node.links[i].clone();
                let ghost vb = self.visited.deep_view();
                let ghost qb = queue_view(self.queue@);
                self.visited.push(String::from_str(key));
                self.queue.push((link, depth + 1));
                assert(self.visited.deep_view() =~= vb.push(key@));
                assert(queue_view(self.queue@) =~= qb.push((links[i as int], (depth + 1) as usize)));
                assert(queue_in_layers(queue_view(self.queue@), v.last)) by {
                    let q = queue_view(self.queue@);
                    assert forall|a: int| 0 <= a < q.len() implies v.last <= #[trigger] q[a].1 <= v.last + 1 by {
                        if a < qb.len() {
                            assert(q[a] == qb[a]);
                        }
                    }
                    assert forall|a: int, b: int| 0 <= a < b < q.len() implies #[trigger] q[a].1 <= #[trigger] q[b].1 by {
                        assert(q[a] == qb[a]);
                        if b < qb.len() {
                            assert(q[b] == qb[b]);
                        }
                    }
                }
                assert(self.visited.deep_view().no_duplicates()) by {
                    assert forall|a: int, b: int| 0 <= a < b < self.visited.deep_view().len() implies self.visited.deep_view()[a] != self.visited.deep_view()[b] by {
                        if b == vb.len() {
                            assert(self.visited.deep_view()[a] == vb[a]);
                        }
                    }
                }
            }
            i = i + 1;
        }
        proof {
            lemma_commit_keeps(v, node.path@, depth, links, kd, n as nat);
        }
        let ghost nb = node_views(self.nodes@);
        let ghost nv = node_view(node);
        self.nodes.push(node);
        assert(node_views(self.nodes@) =~= nb.push(nv));
        assert(node_views(self.nodes@).drop_last() =~= nb);
    }

    /// The loaded graph and the warnings of the load.
    pub fn finish(self) -> (res: (ContextGraph, Vec<String>))
        requires
            self@.pending is None,
            loader_inv(self@, self.config),
        ensures
            node_views(res.0.nodes@) == self@.nodes,
            res.0.total_chars == self@.total,
            res.1.deep_view() == finished_warnings(self@),
            content_bytes(node_views(res.0.nodes@)) == res.0.total_chars,
            res.0.total_chars <= self.config.max_total_chars,
    {
        let ghost v = self@;
        let mut warnings = self.warnings;
        if self.cycle_count > 3 {
            let mut w = String::from_str("warning: ");
            push_decimal(&mut w, (self.cycle_count - 3) as u64);
            w.append(" additional cycle(s) suppressed in context graph");
            let ghost before = warnings.deep_view();
            warnings.push(w);
            assert(warnings.deep_view() =~= before.push(suppressed_warning(v.cycles)));
        }
        (ContextGraph { nodes: self.nodes, total_chars: self.total_chars }, warnings)
    }
}

} // verus!
