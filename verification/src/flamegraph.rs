//! The flame graph of a profile: a tree of functions under a common root,
//! each with its aggregate sample count.

use crate::callgraph::{call_graph, child_lists, fits, resolve, sample_totals, CallGraph};
use crate::profile::{Function, Profile, ProfileView};
use crate::text::{decimal, decimal_string};
use std::collections::{HashMap, HashSet};
use vstd::prelude::*;
use vstd::string::StringExecFns;

verus! {

/// The greatest depth of a node, where a root function has depth 0.
pub const MAX_DEPTH: u64 = 50;

/// A function in the flame graph.
#[derive(Debug, PartialEq, Eq)]
pub struct FlameGraphNode {
    /// The function's identifier, as a decimal numeral.
    pub id: String,
    /// The function's name.
    pub name: String,
    /// The function's aggregate sample count.
    pub value: u64,
    /// The functions called from here.
    pub children: Vec<FlameGraphNode>,
}

/// The flame graph of one profile.
#[derive(Debug, PartialEq, Eq)]
pub struct FlameGraphData {
    /// Always `root`.
    pub name: String,
    /// The sum of all sample counts.
    pub value: u64,
    /// The root functions.
    pub children: Vec<FlameGraphNode>,
}

/// What a `FlameGraphNode` holds.
pub struct NodeView {
    pub id: Seq<char>,
    pub name: Seq<char>,
    pub value: nat,
    pub children: Seq<NodeView>,
}

/// What a `FlameGraphData` holds.
pub struct DataView {
    pub name: Seq<char>,
    pub value: nat,
    pub children: Seq<NodeView>,
}

/// What a node holds: its own fields, and what each of its children holds.
pub open spec fn node_view(node: FlameGraphNode) -> NodeView
    decreases node, 0nat,
{
    NodeView {
        id: node.id@,
        name: node.name@,
        value: node.value as nat,
        children: node_views(node.children@),
    }
}

/// The views of a sequence of nodes, in the same order.
pub open spec fn node_views(nodes: Seq<FlameGraphNode>) -> Seq<NodeView>
    decreases nodes, 1nat,
{
    if nodes.len() == 0 {
        Seq::empty()
    } else {
        node_views(nodes.drop_last()).push(node_view(nodes.last()))
    }
}

impl View for FlameGraphNode {
    type V = NodeView;

    open spec fn view(&self) -> NodeView {
        node_view(*self)
    }
}

impl View for FlameGraphData {
    type V = DataView;

    open spec fn view(&self) -> DataView {
        DataView {
            name: self.name@,
            value: self.value as nat,
            children: node_views(self.children@),
        }
    }
}

/// What the tree is made from: the function table, the string table, the
/// aggregate of every function and the ascending list of its callees.
pub struct Graph {
    pub functions: Seq<Function>,
    pub strings: Seq<Seq<char>>,
    pub totals: Map<u64, nat>,
    pub callees: Map<u64, Seq<u64>>,
}

/// The name given to a function whose name index leaves the string table.
pub open spec fn unknown_name() -> Seq<char> {
    seq!['u', 'n', 'k', 'n', 'o', 'w', 'n']
}

/// The name of the node above all root functions.
pub open spec fn root_name() -> Seq<char> {
    seq!['r', 'o', 'o', 't']
}

/// The first entry of the function table with the identifier `id`.
pub open spec fn lookup_function(functions: Seq<Function>, id: u64) -> Option<Function>
    decreases functions.len(),
{
    if functions.len() == 0 {
        None
    } else if functions[0].id == id {
        Some(functions[0])
    } else {
        lookup_function(functions.drop_first(), id)
    }
}

/// The string at `index`, or `unknown` where the table has none.
pub open spec fn resolve_name(strings: Seq<Seq<char>>, index: i64) -> Seq<char> {
    if 0 <= index < strings.len() {
        strings[index as int]
    } else {
        unknown_name()
    }
}

/// The node of function `id` over the given children.
pub open spec fn node_of(g: Graph, id: u64, children: Seq<NodeView>) -> NodeView {
    NodeView {
        id: decimal(id as nat),
        name: resolve_name(g.strings, lookup_function(g.functions, id).unwrap().name),
        value: g.totals[id],
        children,
    }
}

/// The nodes for the functions in `pending`, which stand at `depth`, and the
/// functions seen once they are made.
///
/// The functions are taken in order. One that was seen before, or that the
/// function table lacks, gives no node. Any other is marked as seen and gives
/// a node, and its callees are expanded one level deeper before the next of
/// `pending` is looked at. No node stands deeper than `MAX_DEPTH`.
///
/// So below one root function every function gets at most one node, where
/// a walk that goes down before it goes on meets it first, and a call graph
/// with cycles gives a finite tree.
pub open spec fn expand(g: Graph, pending: Seq<u64>, depth: nat, seen: Set<u64>) -> (
    Seq<NodeView>,
    Set<u64>,
)
    decreases MAX_DEPTH + 1 - depth, pending.len(),
{
    if depth > MAX_DEPTH || pending.len() == 0 {
        (Seq::empty(), seen)
    } else {
        let id = pending[0];
        let rest = pending.drop_first();
        if seen.contains(id) || lookup_function(g.functions, id) is None {
            expand(g, rest, depth, seen)
        } else {
            let below = expand(g, g.callees[id], depth + 1, seen.insert(id));
            let after = expand(g, rest, depth, below.1);
            (seq![node_of(g, id, below.0)] + after.0, after.1)
        }
    }
}

/// The children of the root function `id`.
pub open spec fn root_children(g: Graph, id: u64) -> Seq<NodeView> {
    expand(g, g.callees[id], 1, set![id]).0
}

/// The nodes of the root functions among `functions`: one for each entry
/// that nothing calls, in the order of the entries.
pub open spec fn root_nodes(g: Graph, functions: Seq<Function>, called: Set<u64>) -> Seq<
    NodeView,
>
    decreases functions.len(),
{
    if functions.len() == 0 {
        Seq::empty()
    } else {
        let before = root_nodes(g, functions.drop_last(), called);
        let id = functions.last().id;
        if called.contains(id) {
            before
        } else {
            before.push(node_of(g, id, root_children(g, id)))
        }
    }
}

/// The graph that two maps of a call graph describe for a profile.
pub open spec fn graph(
    p: ProfileView,
    function_samples: Map<u64, u64>,
    function_children: Map<u64, Vec<u64>>,
) -> Graph {
    Graph {
        functions: p.function,
        strings: p.string_table,
        totals: sample_totals(function_samples),
        callees: child_lists(function_children),
    }
}

/// The graph of a profile.
pub open spec fn profile_graph(p: ProfileView) -> Graph {
    Graph {
        functions: p.function,
        strings: p.string_table,
        totals: call_graph(resolve(p)).totals,
        callees: call_graph(resolve(p)).callees,
    }
}

/// The flame graph of a profile.
pub open spec fn flame_graph(p: ProfileView) -> DataView {
    DataView {
        name: root_name(),
        value: call_graph(resolve(p)).total,
        children: root_nodes(profile_graph(p), p.function, call_graph(resolve(p)).called),
    }
}

/// Finds the first entry of the function table with the identifier `id`.
pub fn find_function(functions: &Vec<Function>, id: u64) -> (found: Option<Function>)
    ensures
        found == lookup_function(functions@, id),
{
    let mut i: usize = 0;
    proof {
        assert(functions@.skip(0) =~= functions@);
    }
    while i < functions.len()
        invariant
            i <= functions.len(),
            lookup_function(functions@, id) == lookup_function(functions@.skip(i as int), id),
        decreases functions.len() - i,
    {
        proof {
            assert(functions@.skip(i as int).drop_first() =~= functions@.skip(i + 1));
        }
        if functions[i].id == id {
            return Some(functions[i]);
        }
        i += 1;
    }
    None
}

/// The name at `index` of the string table, or `unknown`.
pub fn function_name(string_table: &Vec<String>, index: i64) -> (name: String)
    ensures
        name@ == resolve_name(string_table@.map_values(|s: String| s@), index),
{
    if index >= 0 && (index as u64) < (string_table.len() as u64) {
        string_table[index as usize].clone()
    } else {
        proof {
            reveal_strlit("unknown");
            assert("unknown"@ =~= unknown_name());
        }
        String::from_str("unknown")
    }
}

/// The aggregate recorded for `id`, or zero.
pub fn function_value(function_samples: &HashMap<u64, u64>, id: u64) -> (value: u64)
    ensures
        value == sample_totals(function_samples@)[id],
{
    match function_samples.get(&id) {
        Some(v) => *v,
        None => 0,
    }
}

/// Makes the nodes for the functions in `pending`, which stand at `depth`,
/// and marks in `seen` every function that got a node.
pub fn expand_children(
    pending: &Vec<u64>,
    depth: u64,
    seen: &mut HashSet<u64>,
    profile: &Profile,
    function_samples: &HashMap<u64, u64>,
    function_children: &HashMap<u64, Vec<u64>>,
) -> (nodes: Vec<FlameGraphNode>)
    ensures
        (node_views(nodes@), final(seen)@) == expand(
            graph(profile@, function_samples@, function_children@),
            pending@,
            depth as nat,
            old(seen)@,
        ),
    decreases MAX_DEPTH + 1 - depth,
{
    let ghost g = graph(profile@, function_samples@, function_children@);
    let mut nodes: Vec<FlameGraphNode> = Vec::new();
    if depth > MAX_DEPTH {
        assert(node_views(nodes@) =~= Seq::empty());
        return nodes;
    }
    let none: Vec<u64> = Vec::new();
    let mut i: usize = 0;
    proof {
        assert(pending@.skip(0) =~= pending@);
        assert(node_views(nodes@) + expand(g, pending@, depth as nat, seen@).0 =~= expand(
            g,
            pending@,
            depth as nat,
            seen@,
        ).0);
    }
    while i < pending.len()
        invariant
            i <= pending.len(),
            depth <= MAX_DEPTH,
            none@.len() == 0,
            g == graph(profile@, function_samples@, function_children@),
            expand(g, pending@, depth as nat, old(seen)@) == (
                node_views(nodes@) + expand(g, pending@.skip(i as int), depth as nat, seen@).0,
                expand(g, pending@.skip(i as int), depth as nat, seen@).1,
            ),
        decreases pending.len() - i,
    {
        let id = pending[i];
        let ghost rest = pending@.skip(i + 1);
        let ghost seen_here = seen@;
        let ghost nodes_here = node_views(nodes@);
        proof {
            assert(pending@.skip(i as int).drop_first() =~= rest);
            assert(pending@.skip(i as int)[0] == id);
        }
        if !seen.contains(&id) {
            if let Some(function) = find_function(&profile.function, id) {
                seen.insert(id);
                let callees: &Vec<u64> = match function_children.get(&id) {
                    Some(list) => list,
                    None => &none,
                };
                assert(callees@ =~= g.callees[id]);
                let children = expand_children(
                    callees,
                    depth + 1,
                    seen,
                    profile,
                    function_samples,
                    function_children,
                );
                let node = FlameGraphNode {
                    id: decimal_string(id),
                    name: function_name(&profile.string_table, function.name),
                    value: function_value(function_samples, id),
                    children,
                };
                proof {
                    let below = expand(g, g.callees[id], depth as nat + 1, seen_here.insert(id));
                    assert(node@ == node_of(g, id, below.0));
                    let after = expand(g, rest, depth as nat, seen@);
                    assert(nodes_here + (seq![node@] + after.0) =~= nodes_here.push(node@)
                        + after.0);
                    lemma_node_views_push(nodes@, node);
                }
                nodes.push(node);
            }
        }
        i += 1;
    }
    proof {
        assert(pending@.skip(i as int) =~= Seq::empty());
        assert(node_views(nodes@) + Seq::<NodeView>::empty() =~= node_views(nodes@));
    }
    nodes
}

/// Makes the children of the root function `func_id`: the tree of the
/// functions reached from it.
pub fn build_children(
    func_id: u64,
    profile: &Profile,
    function_samples: &HashMap<u64, u64>,
    function_children: &HashMap<u64, Vec<u64>>,
) -> (children: Vec<FlameGraphNode>)
    ensures
        node_views(children@) == root_children(
            graph(profile@, function_samples@, function_children@),
            func_id,
        ),
{
    let mut seen: HashSet<u64> = HashSet::new();
    seen.insert(func_id);
    assert(seen@ =~= set![func_id]);
    let none: Vec<u64> = Vec::new();
    let callees: &Vec<u64> = match function_children.get(&func_id) {
        Some(list) => list,
        None => &none,
    };
    assert(callees@ =~= child_lists(function_children@)[func_id]);
    expand_children(callees, 1, &mut seen, profile, function_samples, function_children)
}

/// Copies a sequence of nodes with all that stands below them.
fn clone_nodes(nodes: &Vec<FlameGraphNode>) -> (copy: Vec<FlameGraphNode>)
    ensures
        node_views(copy@) == node_views(nodes@),
    decreases nodes, 1nat,
{
    let mut copy: Vec<FlameGraphNode> = Vec::new();
    let mut i: usize = 0;
    proof {
        assert(nodes@.take(0) =~= Seq::empty());
    }
    while i < nodes.len()
        invariant
            i <= nodes.len(),
            node_views(copy@) == node_views(nodes@.take(i as int)),
        decreases nodes.len() - i,
    {
        let node = nodes[i].clone();
        proof {
            lemma_node_views_push(copy@, node);
            lemma_node_views_push(nodes@.take(i as int), nodes@[i as int]);
            assert(nodes@.take(i + 1) =~= nodes@.take(i as int).push(nodes@[i as int]));
        }
        copy.push(node);
        i += 1;
    }
    proof {
        assert(nodes@.take(i as int) =~= nodes@);
    }
    copy
}

impl Clone for FlameGraphNode {
    fn clone(&self) -> (copy: Self)
        ensures
            copy@ == self@,
        decreases self, 0nat,
    {
        FlameGraphNode {
            id: self.id.clone(),
            name: self.name.clone(),
            value: self.value,
            children: clone_nodes(&self.children),
        }
    }
}

impl Clone for FlameGraphData {
    fn clone(&self) -> (copy: Self)
        ensures
            copy@ == self@,
    {
        FlameGraphData {
            name: self.name.clone(),
            value: self.value,
            children: clone_nodes(&self.children),
        }
    }
}

impl FlameGraphData {
    /// The flame graph of a profile, made from its call graph.
    pub fn from_call_graph(profile: &Profile, call_graph: &CallGraph) -> (data: FlameGraphData)
        ensures
            data@ == (DataView {
                name: root_name(),
                value: call_graph@.total,
                children: root_nodes(
                    graph(
                        profile@,
                        call_graph.function_samples@,
                        call_graph.function_children@,
                    ),
                    profile@.function,
                    call_graph@.called,
                ),
            }),
    {
        let ghost g = graph(
            profile@,
            call_graph.function_samples@,
            call_graph.function_children@,
        );
        let mut children: Vec<FlameGraphNode> = Vec::new();
        let mut i: usize = 0;
        proof {
            assert(node_views(children@) =~= Seq::empty());
            assert(profile@.function.take(0) =~= Seq::empty());
        }
        while i < profile.function.len()
            invariant
                i <= profile.function.len(),
                g == graph(
                    profile@,
                    call_graph.function_samples@,
                    call_graph.function_children@,
                ),
                node_views(children@) == root_nodes(
                    g,
                    profile@.function.take(i as int),
                    call_graph@.called,
                ),
            decreases profile.function.len() - i,
        {
            let id = profile.function[i].id;
            let ghost nodes_here = node_views(children@);
            proof {
                assert(profile@.function.take(i + 1).drop_last() =~= profile@.function.take(
                    i as int,
                ));
                assert(profile@.function.take(i + 1).last().id == id);
            }
            if !call_graph.called.contains(&id) {
                if let Some(function) = find_function(&profile.function, id) {
                    let below = build_children(
                        id,
                        profile,
                        &call_graph.function_samples,
                        &call_graph.function_children,
                    );
                    let node = FlameGraphNode {
                        id: decimal_string(id),
                        name: function_name(&profile.string_table, function.name),
                        value: function_value(&call_graph.function_samples, id),
                        children: below,
                    };
                    proof {
                        assert(node@ == node_of(g, id, root_children(g, id)));
                        lemma_node_views_push(children@, node);
                    }
                    children.push(node);
                } else {
                    proof {
                        lemma_lookup_finds(profile@.function, i as int);
                    }
                }
            }
            i += 1;
        }
        proof {
            reveal_strlit("root");
            assert("root"@ =~= root_name());
            assert(profile@.function.take(i as int) =~= profile@.function);
        }
        FlameGraphData { name: String::from_str("root"), value: call_graph.total, children }
    }

    /// The flame graph of a profile.
    pub fn from_profile(profile: &Profile) -> (data: FlameGraphData)
        requires
            profile@.counted(),
            fits(resolve(profile@)),
        ensures
            data@ == flame_graph(profile@),
    {
        let call_graph = CallGraph::of_profile(profile).unwrap();
        proof {
            assert(graph(profile@, call_graph.function_samples@, call_graph.function_children@)
                == profile_graph(profile@));
        }
        FlameGraphData::from_call_graph(profile, &call_graph)
    }

    /// The flame graph of a profile: `None` where a sample carries no value
    /// or a sum of counts leaves 64 bits.
    pub fn try_from_profile(profile: &Profile) -> (data: Option<FlameGraphData>)
        ensures
            data is Some <==> profile@.counted() && fits(resolve(profile@)),
            data matches Some(d) ==> d@ == flame_graph(profile@),
    {
        match CallGraph::of_profile(profile) {
            Some(call_graph) => {
                proof {
                    assert(graph(
                        profile@,
                        call_graph.function_samples@,
                        call_graph.function_children@,
                    ) == profile_graph(profile@));
                }
                Some(FlameGraphData::from_call_graph(profile, &call_graph))
            },
            None => None,
        }
    }
}

/// The views of a sequence with one more node are the views of the sequence
/// with the view of that node.
pub proof fn lemma_node_views_push(nodes: Seq<FlameGraphNode>, node: FlameGraphNode)
    ensures
        node_views(nodes.push(node)) == node_views(nodes).push(node@),
{
    assert(nodes.push(node).drop_last() =~= nodes);
}

/// Each node of a sequence has its view at the same place.
pub proof fn lemma_node_views_index(nodes: Seq<FlameGraphNode>, i: int)
    requires
        0 <= i < nodes.len(),
    ensures
        node_views(nodes).len() == nodes.len(),
        node_views(nodes)[i] == nodes[i]@,
    decreases nodes.len(),
{
    lemma_node_views_len(nodes.drop_last());
    if i < nodes.len() - 1 {
        lemma_node_views_index(nodes.drop_last(), i);
    }
}

/// A sequence of nodes has as many views as nodes.
pub proof fn lemma_node_views_len(nodes: Seq<FlameGraphNode>)
    ensures
        node_views(nodes).len() == nodes.len(),
    decreases nodes.len(),
{
    if nodes.len() > 0 {
        lemma_node_views_len(nodes.drop_last());
    }
}

/// An identifier that the function table holds is found in it.
pub proof fn lemma_lookup_finds(functions: Seq<Function>, i: int)
    requires
        0 <= i < functions.len(),
    ensures
        lookup_function(functions, functions[i].id) is Some,
        lookup_function(functions, functions[i].id).unwrap().id == functions[i].id,
    decreases i,
{
    if functions[0].id != functions[i].id {
        assert(functions.drop_first()[i - 1] == functions[i]);
        lemma_lookup_finds(functions.drop_first(), i - 1);
    }
}

} // verus!
