//! What holds of every flame graph: the value at its root, which functions
//! stand at the top, and what can be met on a way down the tree.

use crate::callgraph::{called, resolve, total_count};
use crate::flamegraph::{
    expand, flame_graph, lookup_function, node_of, profile_graph, root_children, root_nodes,
    Graph, NodeView, MAX_DEPTH,
};
use crate::profile::{Function, ProfileView, SampleView};
use crate::text::{decimal, lemma_decimal_injective};
use vstd::prelude::*;

verus! {

/// The sum of the counts of a sequence of samples.
pub open spec fn sum_of_counts(samples: Seq<SampleView>) -> nat
    decreases samples.len(),
{
    if samples.len() == 0 {
        0
    } else {
        sum_of_counts(samples.drop_last()) + samples.last().count()
    }
}

/// `path` is a way down the tree from `node`: it starts with the identifier
/// of `node`, and each further entry is the identifier of a child of the node
/// before it.
pub open spec fn is_path(node: NodeView, path: Seq<Seq<char>>) -> bool
    decreases path.len(),
{
    &&& path.len() > 0
    &&& path[0] == node.id
    &&& (path.len() == 1 || exists|i: int|
        0 <= i < node.children.len() && is_path(#[trigger] node.children[i], path.drop_first()))
}

/// `text` is the numeral of an identifier in the function table.
pub open spec fn names_function(functions: Seq<Function>, text: Seq<char>) -> bool {
    exists|i: int| 0 <= i < functions.len() && text == decimal((#[trigger] functions[i]).id as nat)
}

/// `text` is the numeral of a function that the table knows, and that got
/// its node between the two states of the set of seen functions.
pub open spec fn names_fresh(g: Graph, text: Seq<char>, seen: Set<u64>, after: Set<u64>) -> bool {
    exists|x: u64|
        text == #[trigger] decimal(x as nat) && !seen.contains(x) && after.contains(x)
            && lookup_function(g.functions, x) is Some
}

/// What holds of a way down from a node made at `depth`: it stays within
/// the depth cap, repeats no identifier, and meets only functions of the
/// table that got their node between the two states of the seen functions.
pub open spec fn path_within(
    g: Graph,
    path: Seq<Seq<char>>,
    depth: nat,
    seen: Set<u64>,
    after: Set<u64>,
) -> bool {
    &&& path.len() + depth <= MAX_DEPTH + 1
    &&& path.no_duplicates()
    &&& forall|j: int| 0 <= j < path.len() ==> names_fresh(g, #[trigger] path[j], seen, after)
}

/// Every way down from one of `nodes` is within the bounds.
pub open spec fn paths_within(
    g: Graph,
    nodes: Seq<NodeView>,
    depth: nat,
    seen: Set<u64>,
    after: Set<u64>,
) -> bool {
    forall|i: int, path: Seq<Seq<char>>|
        0 <= i < nodes.len() && #[trigger] is_path(nodes[i], path) ==> path_within(
            g,
            path,
            depth,
            seen,
            after,
        )
}

/// `node` is the root node of the entry `f`, which nothing calls.
pub open spec fn is_root_of(g: Graph, called: Set<u64>, f: Function, node: NodeView) -> bool {
    !called.contains(f.id) && node == node_of(g, f.id, root_children(g, f.id))
}

/// An identifier that is found in the function table stands in it.
pub proof fn lemma_found_is_member(functions: Seq<Function>, id: u64)
    requires
        lookup_function(functions, id) is Some,
    ensures
        exists|i: int| 0 <= i < functions.len() && (#[trigger] functions[i]).id == id,
    decreases functions.len(),
{
    if functions[0].id != id {
        let rest = functions.drop_first();
        lemma_found_is_member(rest, id);
        let i = choose|i: int| 0 <= i < rest.len() && (#[trigger] rest[i]).id == id;
        assert(functions[i + 1] == rest[i]);
    } else {
        assert(functions[0].id == id);
    }
}

/// What was fresh between two states of the seen functions is fresh between
/// a smaller first state and a larger second one.
pub proof fn lemma_fresh_widens(
    g: Graph,
    text: Seq<char>,
    seen: Set<u64>,
    after: Set<u64>,
    less: Set<u64>,
    more: Set<u64>,
)
    requires
        names_fresh(g, text, seen, after),
        less.subset_of(seen),
        after.subset_of(more),
    ensures
        names_fresh(g, text, less, more),
{
    let x = choose|x: u64|
        text == #[trigger] decimal(x as nat) && !seen.contains(x) && after.contains(x)
            && lookup_function(g.functions, x) is Some;
    assert(text == decimal(x as nat) && !less.contains(x) && more.contains(x));
}

/// A way within the bounds stays within them for a smaller first state and
/// a larger second state of the seen functions.
pub proof fn lemma_path_widens(
    g: Graph,
    path: Seq<Seq<char>>,
    depth: nat,
    seen: Set<u64>,
    after: Set<u64>,
    less: Set<u64>,
    more: Set<u64>,
)
    requires
        path_within(g, path, depth, seen, after),
        less.subset_of(seen),
        after.subset_of(more),
    ensures
        path_within(g, path, depth, less, more),
{
    assert forall|j: int| 0 <= j < path.len() implies names_fresh(
        g,
        #[trigger] path[j],
        less,
        more,
    ) by {
        lemma_fresh_widens(g, path[j], seen, after, less, more);
    }
}

/// A way down from a node of a function not seen before, over children whose
/// ways are within the bounds one level deeper, is within the bounds.
pub proof fn lemma_path_through(
    g: Graph,
    node: NodeView,
    id: u64,
    depth: nat,
    seen: Set<u64>,
    after: Set<u64>,
    path: Seq<Seq<char>>,
)
    requires
        depth <= MAX_DEPTH,
        node.id == decimal(id as nat),
        !seen.contains(id),
        after.contains(id),
        lookup_function(g.functions, id) is Some,
        paths_within(g, node.children, depth + 1, seen.insert(id), after),
        is_path(node, path),
    ensures
        path_within(g, path, depth, seen, after),
{
    let marked = seen.insert(id);
    assert(names_fresh(g, path[0], seen, after)) by {
        assert(path[0] == decimal(id as nat));
    }
    if path.len() > 1 {
        let tail = path.drop_first();
        let c = choose|c: int|
            0 <= c < node.children.len() && is_path(#[trigger] node.children[c], tail);
        assert(is_path(node.children[c], tail));
        assert(path_within(g, tail, depth + 1, marked, after));
        lemma_path_widens(g, tail, depth + 1, marked, after, seen, after);
        assert forall|j: int| 0 <= j < path.len() implies names_fresh(
            g,
            #[trigger] path[j],
            seen,
            after,
        ) by {
            if j > 0 {
                assert(path[j] == tail[j - 1]);
            }
        }
        assert forall|j: int| 0 < j < path.len() implies #[trigger] path[j] != path[0] by {
            assert(path[j] == tail[j - 1]);
            assert(names_fresh(g, tail[j - 1], marked, after));
            let x = choose|x: u64|
                tail[j - 1] == #[trigger] decimal(x as nat) && !marked.contains(x)
                    && after.contains(x) && lookup_function(g.functions, x) is Some;
            if decimal(x as nat) == decimal(id as nat) {
                lemma_decimal_injective(x as nat, id as nat);
            }
        }
        assert forall|j: int, k: int|
            0 <= j < path.len() && 0 <= k < path.len() && j != k implies path[j] != path[k] by {
            if j > 0 && k > 0 {
                assert(path[j] == tail[j - 1]);
                assert(path[k] == tail[k - 1]);
            }
        }
    }
}

/// Expansion only adds to the functions seen, and every way down from a
/// node it makes stays within the depth cap, repeats no identifier, and
/// meets only functions of the table that were not seen before.
pub proof fn lemma_expand_paths(g: Graph, pending: Seq<u64>, depth: nat, seen: Set<u64>)
    ensures
        seen.subset_of(expand(g, pending, depth, seen).1),
        paths_within(
            g,
            expand(g, pending, depth, seen).0,
            depth,
            seen,
            expand(g, pending, depth, seen).1,
        ),
    decreases MAX_DEPTH + 1 - depth, pending.len(),
{
    let result = expand(g, pending, depth, seen);
    if depth > MAX_DEPTH || pending.len() == 0 {
    } else {
        let id = pending[0];
        let rest = pending.drop_first();
        if seen.contains(id) || lookup_function(g.functions, id) is None {
            lemma_expand_paths(g, rest, depth, seen);
        } else {
            let marked = seen.insert(id);
            let below = expand(g, g.callees[id], depth + 1, marked);
            let after = expand(g, rest, depth, below.1);
            lemma_expand_paths(g, g.callees[id], depth + 1, marked);
            lemma_expand_paths(g, rest, depth, below.1);
            let node = node_of(g, id, below.0);
            assert(result.0 == seq![node] + after.0);
            assert(result.1 == after.1);
            assert forall|i: int, path: Seq<Seq<char>>|
                0 <= i < result.0.len() && #[trigger] is_path(
                    result.0[i],
                    path,
                ) implies path_within(g, path, depth, seen, result.1) by {
                if i == 0 {
                    assert(result.0[0] == node);
                    lemma_path_through(g, node, id, depth, seen, below.1, path);
                    lemma_path_widens(g, path, depth, seen, below.1, seen, after.1);
                } else {
                    assert(result.0[i] == after.0[i - 1]);
                    assert(is_path(after.0[i - 1], path));
                    lemma_path_widens(g, path, depth, below.1, after.1, seen, after.1);
                }
            }
        }
    }
}

/// The entry of the function table that the root node at `k` stands for.
pub proof fn lemma_root_source(g: Graph, functions: Seq<Function>, called: Set<u64>, k: int) -> (i:
    int)
    requires
        0 <= k < root_nodes(g, functions, called).len(),
    ensures
        0 <= i < functions.len(),
        is_root_of(g, called, functions[i], root_nodes(g, functions, called)[k]),
    decreases functions.len(),
{
    let shorter = functions.drop_last();
    let before = root_nodes(g, shorter, called);
    if k < before.len() {
        let i = lemma_root_source(g, shorter, called, k);
        assert(functions[i] == shorter[i]);
        i
    } else {
        functions.len() - 1
    }
}

/// The place of the root node of the entry at `i`, which nothing calls.
pub proof fn lemma_root_place(g: Graph, functions: Seq<Function>, called: Set<u64>, i: int) -> (k:
    int)
    requires
        0 <= i < functions.len(),
        !called.contains(functions[i].id),
    ensures
        0 <= k < root_nodes(g, functions, called).len(),
        is_root_of(g, called, functions[i], root_nodes(g, functions, called)[k]),
    decreases functions.len(),
{
    let shorter = functions.drop_last();
    let before = root_nodes(g, shorter, called);
    if i < shorter.len() {
        assert(functions[i] == shorter[i]);
        let k = lemma_root_place(g, shorter, called, i);
        k
    } else {
        before.len() as int
    }
}

/// The counts of the resolved samples add up to the counts of the samples.
pub proof fn lemma_total_is_sum(p: ProfileView, n: int)
    requires
        0 <= n <= p.sample.len(),
    ensures
        total_count(resolve(p).take(n)) == sum_of_counts(p.sample.take(n)),
    decreases n,
{
    if n > 0 {
        lemma_total_is_sum(p, n - 1);
        assert(resolve(p).take(n).drop_last() =~= resolve(p).take(n - 1));
        assert(p.sample.take(n).drop_last() =~= p.sample.take(n - 1));
        assert(resolve(p).take(n).last().count == p.sample.take(n).last().count());
    }
}

/// The value at the root of a flame graph is the sum of the counts of the
/// profile's samples.
pub proof fn lemma_root_value(p: ProfileView)
    ensures
        flame_graph(p).value == sum_of_counts(p.sample),
{
    lemma_total_is_sum(p, p.sample.len() as int);
    assert(resolve(p).take(p.sample.len() as int) =~= resolve(p));
    assert(p.sample.take(p.sample.len() as int) =~= p.sample);
}

/// What holds of every way down from a root function: it meets no
/// identifier twice, takes at most `MAX_DEPTH` steps, and meets only
/// numerals of identifiers in the function table.
pub proof fn lemma_root_path(p: ProfileView, k: int, path: Seq<Seq<char>>)
    requires
        0 <= k < flame_graph(p).children.len(),
        is_path(flame_graph(p).children[k], path),
    ensures
        path.no_duplicates(),
        path.len() - 1 <= MAX_DEPTH,
        forall|j: int| 0 <= j < path.len() ==> names_function(p.function, #[trigger] path[j]),
{
    let g = profile_graph(p);
    let c = called(resolve(p));
    let roots = root_nodes(g, p.function, c);
    assert(flame_graph(p).children == roots);
    let i = lemma_root_source(g, p.function, c, k);
    let id = p.function[i].id;
    let node = roots[k];
    let none = Set::<u64>::empty();
    assert(none.insert(id) =~= set![id]);
    let below = expand(g, g.callees[id], 1, set![id]);
    lemma_expand_paths(g, g.callees[id], 1, set![id]);
    crate::flamegraph::lemma_lookup_finds(p.function, i);
    assert(node.children == below.0);
    lemma_path_through(g, node, id, 0, none, below.1, path);
    assert forall|j: int| 0 <= j < path.len() implies names_function(
        p.function,
        #[trigger] path[j],
    ) by {
        assert(names_fresh(g, path[j], none, below.1));
        let x = choose|x: u64|
            path[j] == #[trigger] decimal(x as nat) && !none.contains(x) && below.1.contains(x)
                && lookup_function(g.functions, x) is Some;
        lemma_found_is_member(p.function, x);
        let m = choose|m: int| 0 <= m < p.function.len() && (#[trigger] p.function[m]).id == x;
        assert(path[j] == decimal(p.function[m].id as nat));
    }
}

/// A way down from a root function meets no identifier twice.
pub proof fn lemma_no_repeat_on_path(p: ProfileView, k: int, path: Seq<Seq<char>>)
    requires
        0 <= k < flame_graph(p).children.len(),
        is_path(flame_graph(p).children[k], path),
    ensures
        path.no_duplicates(),
{
    lemma_root_path(p, k, path);
}

/// A way down from a root function takes at most `MAX_DEPTH` steps.
pub proof fn lemma_depth_capped(p: ProfileView, k: int, path: Seq<Seq<char>>)
    requires
        0 <= k < flame_graph(p).children.len(),
        is_path(flame_graph(p).children[k], path),
    ensures
        path.len() - 1 <= MAX_DEPTH,
{
    lemma_root_path(p, k, path);
}

/// Every identifier met on a way down from a root function is the numeral
/// of an identifier in the function table.
pub proof fn lemma_nodes_are_functions(p: ProfileView, k: int, path: Seq<Seq<char>>, j: int)
    requires
        0 <= k < flame_graph(p).children.len(),
        is_path(flame_graph(p).children[k], path),
        0 <= j < path.len(),
    ensures
        names_function(p.function, path[j]),
{
    lemma_root_path(p, k, path);
}

/// The identifiers of the root nodes are the numerals of the entries of the
/// function table that no function was seen calling.
pub proof fn lemma_roots_are_uncalled(p: ProfileView, text: Seq<char>)
    ensures
        (exists|k: int|
            0 <= k < flame_graph(p).children.len() && (#[trigger] flame_graph(p).children[k]).id
                == text) <==> (exists|i: int|
            0 <= i < p.function.len() && !called(resolve(p)).contains(
                (#[trigger] p.function[i]).id,
            ) && text == decimal(p.function[i].id as nat)),
{
    let g = profile_graph(p);
    let c = called(resolve(p));
    let roots = root_nodes(g, p.function, c);
    assert(flame_graph(p).children == roots);
    if exists|k: int| 0 <= k < roots.len() && (#[trigger] roots[k]).id == text {
        let k = choose|k: int| 0 <= k < roots.len() && (#[trigger] roots[k]).id == text;
        let i = lemma_root_source(g, p.function, c, k);
        assert(!c.contains(p.function[i].id) && text == decimal(p.function[i].id as nat));
    }
    if exists|i: int|
        0 <= i < p.function.len() && !c.contains((#[trigger] p.function[i]).id) && text
            == decimal(p.function[i].id as nat) {
        let i = choose|i: int|
            0 <= i < p.function.len() && !c.contains((#[trigger] p.function[i]).id) && text
                == decimal(p.function[i].id as nat);
        let k = lemma_root_place(g, p.function, c, i);
        assert(roots[k].id == text);
    }
}

/// How many nodes have the identifier `text`, among `node` and all nodes
/// below it.
pub open spec fn node_count(node: NodeView, text: Seq<char>) -> nat
    decreases node, 0nat,
{
    forest_count(node.children, text) + if node.id == text {
        1nat
    } else {
        0nat
    }
}

/// How many nodes have the identifier `text`, among `nodes` and all nodes
/// below them.
pub open spec fn forest_count(nodes: Seq<NodeView>, text: Seq<char>) -> nat
    decreases nodes, 1nat,
{
    if nodes.len() == 0 {
        0
    } else {
        node_count(nodes[0], text) + forest_count(nodes.drop_first(), text)
    }
}

/// Two numerals of which one stands for a function in a set and the other
/// for a function outside of it are different texts.
proof fn lemma_apart(x: u64, y: u64, set: Set<u64>)
    requires
        set.contains(x),
        !set.contains(y),
    ensures
        decimal(x as nat) != decimal(y as nat),
{
    if decimal(x as nat) == decimal(y as nat) {
        lemma_decimal_injective(x as nat, y as nat);
    }
}

/// Expansion gives no identifier more than one node, and gives nodes only
/// to functions of the table that were not seen before.
pub proof fn lemma_expand_counts(
    g: Graph,
    pending: Seq<u64>,
    depth: nat,
    seen: Set<u64>,
    text: Seq<char>,
)
    ensures
        forest_count(expand(g, pending, depth, seen).0, text) <= 1,
        forest_count(expand(g, pending, depth, seen).0, text) > 0 ==> names_fresh(
            g,
            text,
            seen,
            expand(g, pending, depth, seen).1,
        ),
    decreases MAX_DEPTH + 1 - depth, pending.len(),
{
    let result = expand(g, pending, depth, seen);
    if depth > MAX_DEPTH || pending.len() == 0 {
    } else {
        let id = pending[0];
        let rest = pending.drop_first();
        if seen.contains(id) || lookup_function(g.functions, id) is None {
            lemma_expand_counts(g, rest, depth, seen, text);
        } else {
            let marked = seen.insert(id);
            let below = expand(g, g.callees[id], depth + 1, marked);
            let after = expand(g, rest, depth, below.1);
            lemma_expand_counts(g, g.callees[id], depth + 1, marked, text);
            lemma_expand_counts(g, rest, depth, below.1, text);
            lemma_expand_paths(g, g.callees[id], depth + 1, marked);
            lemma_expand_paths(g, rest, depth, below.1);
            let node = node_of(g, id, below.0);
            assert(result.0 == seq![node] + after.0);
            assert(result.0[0] == node);
            assert(result.0.drop_first() =~= after.0);
            let here: nat = if node.id == text {
                1
            } else {
                0
            };
            let under = forest_count(below.0, text);
            let beside = forest_count(after.0, text);
            assert(node.children == below.0);
            assert(node_count(node, text) == under + here);
            assert(forest_count(result.0, text) == node_count(result.0[0], text) + forest_count(
                result.0.drop_first(),
                text,
            ));
            assert(forest_count(result.0, text) == under + here + beside);
            if under > 0 {
                let x = choose|x: u64|
                    text == #[trigger] decimal(x as nat) && !marked.contains(x)
                        && below.1.contains(x) && lookup_function(g.functions, x) is Some;
                if here > 0 {
                    lemma_apart(id, x, marked);
                }
                if beside > 0 {
                    let y = choose|y: u64|
                        text == #[trigger] decimal(y as nat) && !below.1.contains(y)
                            && after.1.contains(y) && lookup_function(g.functions, y) is Some;
                    lemma_apart(x, y, below.1);
                }
                lemma_fresh_widens(g, text, marked, below.1, seen, after.1);
            } else if here > 0 {
                if beside > 0 {
                    let y = choose|y: u64|
                        text == #[trigger] decimal(y as nat) && !below.1.contains(y)
                            && after.1.contains(y) && lookup_function(g.functions, y) is Some;
                    lemma_apart(id, y, below.1);
                }
                assert(text == decimal(id as nat) && !seen.contains(id) && after.1.contains(id));
            } else if beside > 0 {
                lemma_fresh_widens(g, text, below.1, after.1, seen, after.1);
            }
        }
    }
}

/// Below one root function no identifier has more than one node: a function
/// gets its node where it is met first, and none after that.
pub proof fn lemma_one_node_each(p: ProfileView, k: int, text: Seq<char>)
    requires
        0 <= k < flame_graph(p).children.len(),
    ensures
        node_count(flame_graph(p).children[k], text) <= 1,
{
    let g = profile_graph(p);
    let c = called(resolve(p));
    let roots = root_nodes(g, p.function, c);
    assert(flame_graph(p).children == roots);
    let i = lemma_root_source(g, p.function, c, k);
    let id = p.function[i].id;
    let below = expand(g, g.callees[id], 1, set![id]);
    lemma_expand_counts(g, g.callees[id], 1, set![id], text);
    assert(roots[k].children == below.0);
    if forest_count(below.0, text) > 0 && roots[k].id == text {
        let x = choose|x: u64|
            text == #[trigger] decimal(x as nat) && !set![id].contains(x) && below.1.contains(x)
                && lookup_function(g.functions, x) is Some;
        lemma_apart(id, x, set![id]);
    }
}

} // verus!
