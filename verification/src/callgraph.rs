//! From flat sample stacks to a call graph: how often each function was
//! sampled, and which function was seen calling which.

use crate::profile::{Location, LocationView, Profile, ProfileView};
use std::collections::{HashMap, HashSet};
use vstd::prelude::*;

verus! {

/// A sample with its stack of function identifiers and its count.
pub struct Resolved {
    pub stack: Seq<u64>,
    pub count: nat,
}

/// The function of each location: that of its first line. A location without
/// lines has none. Where an identifier occurs twice, the later entry counts.
pub open spec fn location_functions(locations: Seq<LocationView>) -> Map<u64, u64>
    decreases locations.len(),
{
    if locations.len() == 0 {
        Map::empty()
    } else {
        let before = location_functions(locations.drop_last());
        let last = locations.last();
        if last.line.len() > 0 {
            before.insert(last.id, last.line[0].function_id)
        } else {
            before
        }
    }
}

/// A stack of locations as a stack of functions, in the same order.
/// Locations without a function are dropped.
pub open spec fn resolve_stack(location_ids: Seq<u64>, functions: Map<u64, u64>) -> Seq<u64>
    decreases location_ids.len(),
{
    if location_ids.len() == 0 {
        Seq::empty()
    } else {
        let before = resolve_stack(location_ids.drop_last(), functions);
        let last = location_ids.last();
        if functions.contains_key(last) {
            before.push(functions[last])
        } else {
            before
        }
    }
}

/// The samples of a profile, each with its resolved stack and its count.
pub open spec fn resolve(p: ProfileView) -> Seq<Resolved> {
    Seq::new(
        p.sample.len(),
        |k: int|
            Resolved {
                stack: resolve_stack(p.sample[k].location_id, location_functions(p.location)),
                count: p.sample[k].count(),
            },
    )
}

/// How many times `f` stands in `stack`.
pub open spec fn occurrences(stack: Seq<u64>, f: u64) -> nat
    decreases stack.len(),
{
    if stack.len() == 0 {
        0
    } else {
        occurrences(stack.drop_last(), f) + if stack.last() == f {
            1nat
        } else {
            0nat
        }
    }
}

/// The aggregate of `f`: each sample's count, once for every occurrence of
/// `f` in the sample's stack.
pub open spec fn function_total(samples: Seq<Resolved>, f: u64) -> nat
    decreases samples.len(),
{
    if samples.len() == 0 {
        0
    } else {
        function_total(samples.drop_last(), f) + occurrences(samples.last().stack, f)
            * samples.last().count
    }
}

/// The sum of all sample counts.
pub open spec fn total_count(samples: Seq<Resolved>) -> nat
    decreases samples.len(),
{
    if samples.len() == 0 {
        0
    } else {
        total_count(samples.drop_last()) + samples.last().count
    }
}

/// Every aggregate, and the sum of all counts, fits in 64 bits.
pub open spec fn fits(samples: Seq<Resolved>) -> bool {
    &&& total_count(samples) <= u64::MAX
    &&& forall|f: u64| #[trigger] function_total(samples, f) <= u64::MAX
}

/// `a` stands at position `i` of the stack, directly followed by `b`.
pub open spec fn calls_at(stack: Seq<u64>, i: int, a: u64, b: u64) -> bool {
    &&& 0 <= i
    &&& i + 1 < stack.len()
    &&& stack[i] == a
    &&& stack[i + 1] == b
}

/// `a` is directly followed by `b` at one of the first `n` positions.
pub open spec fn calls_before(stack: Seq<u64>, n: int, a: u64, b: u64) -> bool {
    exists|i: int| i < n && #[trigger] calls_at(stack, i, a, b)
}

/// Some sample's stack has `a` directly followed by `b`.
pub open spec fn calls(samples: Seq<Resolved>, a: u64, b: u64) -> bool {
    exists|k: int|
        0 <= k < samples.len() && #[trigger] calls_before(
            samples[k].stack,
            samples[k].stack.len() as int,
            a,
            b,
        )
}

/// The functions that `a` was seen calling.
pub open spec fn callees(samples: Seq<Resolved>, a: u64) -> Set<u64> {
    Set::new(|b: u64| calls(samples, a, b))
}

/// The functions that some function was seen calling.
pub open spec fn called(samples: Seq<Resolved>) -> Set<u64> {
    Set::new(|b: u64| exists|a: u64| calls(samples, a, b))
}

/// No element is followed by a smaller or equal one.
pub open spec fn strictly_ascending(s: Seq<u64>) -> bool {
    forall|i: int, j: int| 0 <= i < j < s.len() ==> s[i] < s[j]
}

/// `s` holds the members of `set`, each once, smallest first.
pub open spec fn lists(s: Seq<u64>, set: Set<u64>) -> bool {
    &&& strictly_ascending(s)
    &&& forall|x: u64| s.contains(x) <==> set.contains(x)
}

/// The members of a finite set, smallest first.
pub open spec fn ascending(set: Set<u64>) -> Seq<u64> {
    choose|s: Seq<u64>| lists(s, set)
}

/// Only one sequence lists a set in ascending order.
pub proof fn lemma_lists_unique(s: Seq<u64>, t: Seq<u64>, set: Set<u64>)
    requires
        lists(s, set),
        lists(t, set),
    ensures
        s == t,
    decreases s.len(),
{
    if s.len() == 0 {
        if t.len() > 0 {
            assert(t.contains(t[0]));
            assert(s.contains(t[0]));
        }
        assert(s =~= t);
    } else {
        let m = s.last();
        assert(s.contains(m));
        assert(t.contains(m));
        let jm = choose|j: int| 0 <= j < t.len() && t[j] == m;
        let tl = t.last();
        assert(t.contains(tl));
        assert(s.contains(tl));
        // the last of each is the greatest of the set
        assert(tl <= m);
        assert(m <= tl);
        assert(jm == t.len() - 1);
        let rest = set.remove(m);
        let s1 = s.drop_last();
        let t1 = t.drop_last();
        assert forall|x: u64| s1.contains(x) <==> rest.contains(x) by {
            if s1.contains(x) {
                let i = choose|i: int| 0 <= i < s1.len() && s1[i] == x;
                assert(s[i] == x);
                assert(s.contains(x));
            }
            if rest.contains(x) {
                assert(s.contains(x));
                let i = choose|i: int| 0 <= i < s.len() && s[i] == x;
                assert(i < s.len() - 1);
                assert(s1[i] == x);
            }
        }
        assert forall|x: u64| t1.contains(x) <==> rest.contains(x) by {
            if t1.contains(x) {
                let i = choose|i: int| 0 <= i < t1.len() && t1[i] == x;
                assert(t[i] == x);
                assert(t.contains(x));
            }
            if rest.contains(x) {
                assert(t.contains(x));
                let i = choose|i: int| 0 <= i < t.len() && t[i] == x;
                assert(i < t.len() - 1);
                assert(t1[i] == x);
            }
        }
        lemma_lists_unique(s1, t1, rest);
        assert(s =~= s1.push(m));
        assert(t =~= t1.push(m));
    }
}

/// A sequence that lists a set in ascending order is the set's listing.
pub proof fn lemma_ascending_is(s: Seq<u64>, set: Set<u64>)
    requires
        lists(s, set),
    ensures
        ascending(set) == s,
{
    lemma_lists_unique(ascending(set), s, set);
}

/// The callees recorded for `a`: none where the map has no entry.
pub open spec fn kids(children: Map<u64, Vec<u64>>, a: u64) -> Seq<u64> {
    if children.contains_key(a) {
        children[a]@
    } else {
        Seq::empty()
    }
}

/// The map records the call from `a` to `b`.
pub open spec fn has_edge(children: Map<u64, Vec<u64>>, a: u64, b: u64) -> bool {
    kids(children, a).contains(b)
}

/// Every list of callees is in strictly ascending order.
pub open spec fn ordered(children: Map<u64, Vec<u64>>) -> bool {
    forall|a: u64| strictly_ascending(#[trigger] kids(children, a))
}

/// The aggregate recorded for `f`: zero where the map has no entry.
pub open spec fn recorded(totals: Map<u64, u64>, f: u64) -> nat {
    if totals.contains_key(f) {
        totals[f] as nat
    } else {
        0
    }
}

/// Puts `x` at its place in an ascending vector, unless it is there already.
pub fn insert_ascending(v: &mut Vec<u64>, x: u64)
    requires
        strictly_ascending(old(v)@),
    ensures
        strictly_ascending(final(v)@),
        forall|y: u64| final(v)@.contains(y) <==> old(v)@.contains(y) || y == x,
{
    let mut i: usize = 0;
    while i < v.len() && v[i] < x
        invariant
            i <= v.len(),
            *v == *old(v),
            forall|j: int| 0 <= j < i ==> v@[j] < x,
        decreases v.len() - i,
    {
        i += 1;
    }
    if i < v.len() && v[i] == x {
        assert(v@[i as int] == x);
        assert(v@.contains(x));
        assert(forall|y: u64| v@.contains(y) <==> old(v)@.contains(y) || y == x);
    } else {
        let ghost before = v@;
        v.insert(i, x);
        assert(v@ == before.insert(i as int, x));
        assert forall|y: u64| v@.contains(y) <==> before.contains(y) || y == x by {
            if v@.contains(y) {
                let j = choose|j: int| 0 <= j < v@.len() && v@[j] == y;
                if j < i {
                    assert(before[j] == y);
                } else if j > i {
                    assert(before[j - 1] == y);
                }
            }
            if before.contains(y) {
                let j = choose|j: int| 0 <= j < before.len() && before[j] == y;
                if j < i {
                    assert(v@[j] == y);
                } else {
                    assert(v@[j + 1] == y);
                }
            }
            if y == x {
                assert(v@[i as int] == y);
            }
        }
        assert forall|a: int, b: int| 0 <= a < b < v@.len() implies v@[a] < v@[b] by {
            if b < i {
                assert(v@[a] == before[a] && v@[b] == before[b]);
            } else if b == i {
                assert(v@[a] == before[a]);
            } else if a < i {
                assert(v@[a] == before[a] && v@[b] == before[b - 1]);
            } else if a == i {
                assert(v@[b] == before[b - 1]);
            } else {
                assert(v@[a] == before[a - 1] && v@[b] == before[b - 1]);
            }
        }
        assert(before == old(v)@);
        assert(forall|y: u64| v@.contains(y) <==> old(v)@.contains(y) || y == x);
    }
}

/// Records that `caller` was seen calling `callee`.
pub fn insert_edge(
    children: &mut HashMap<u64, Vec<u64>>,
    called: &mut HashSet<u64>,
    caller: u64,
    callee: u64,
)
    requires
        ordered(old(children)@),
    ensures
        ordered(final(children)@),
        forall|a: u64, b: u64| #[trigger]
            has_edge(final(children)@, a, b) <==> has_edge(old(children)@, a, b) || (a == caller
                && b == callee),
        final(called)@ == old(called)@.insert(callee),
{
    let ghost before = children@;
    let mut list: Vec<u64> = match children.remove(&caller) {
        Some(list) => list,
        None => Vec::new(),
    };
    assert(list@ == kids(before, caller));
    let ghost removed = children@;
    assert(removed == before.remove(caller));
    insert_ascending(&mut list, callee);
    let ghost after_list = list@;
    children.insert(caller, list);
    called.insert(callee);
    proof {
        assert forall|a: u64| strictly_ascending(#[trigger] kids(children@, a)) by {
            if a != caller {
                assert(kids(children@, a) == kids(before, a));
            }
        }
        assert forall|a: u64, b: u64| #[trigger]
            has_edge(children@, a, b) <==> has_edge(before, a, b) || (a == caller && b
                == callee) by {
            if a != caller {
                assert(kids(children@, a) == kids(before, a));
            } else {
                assert(kids(children@, a) == after_list);
            }
        }
    }
}

/// Adds `count` to the aggregate of `f`, unless the sum leaves 64 bits.
pub fn add_count(totals: &mut HashMap<u64, u64>, f: u64, count: u64) -> (done: bool)
    ensures
        done <==> recorded(old(totals)@, f) + count <= u64::MAX,
        done ==> recorded(final(totals)@, f) == recorded(old(totals)@, f) + count,
        done ==> forall|g: u64| g != f ==> recorded(final(totals)@, g) == recorded(old(totals)@, g),
        !done ==> final(totals)@ == old(totals)@,
{
    let current: u64 = match totals.get(&f) {
        Some(v) => *v,
        None => 0,
    };
    match current.checked_add(count) {
        Some(sum) => {
            totals.insert(f, sum);
            true
        },
        None => false,
    }
}

/// Builds the map from location identifier to function identifier.
pub fn location_to_function(locations: &Vec<Location>) -> (map: HashMap<u64, u64>)
    ensures
        map@ == location_functions(locations@.map_values(|l: Location| l@)),
{
    let ghost views = locations@.map_values(|l: Location| l@);
    let mut map: HashMap<u64, u64> = HashMap::new();
    let mut i: usize = 0;
    while i < locations.len()
        invariant
            i <= locations.len(),
            views == locations@.map_values(|l: Location| l@),
            map@ == location_functions(views.take(i as int)),
        decreases locations.len() - i,
    {
        let location = &locations[i];
        proof {
            assert(views.take(i + 1).drop_last() =~= views.take(i as int));
            assert(views.take(i + 1).last() == location@);
        }
        if location.line.len() > 0 {
            map.insert(location.id, location.line[0].function_id);
        }
        i += 1;
    }
    proof {
        assert(views.take(i as int) =~= views);
    }
    map
}

/// Translates a stack of locations into a stack of functions.
pub fn resolve_locations(location_ids: &Vec<u64>, functions: &HashMap<u64, u64>) -> (stack: Vec<
    u64,
>)
    ensures
        stack@ == resolve_stack(location_ids@, functions@),
{
    let mut stack: Vec<u64> = Vec::new();
    let mut i: usize = 0;
    while i < location_ids.len()
        invariant
            i <= location_ids.len(),
            stack@ == resolve_stack(location_ids@.take(i as int), functions@),
        decreases location_ids.len() - i,
    {
        proof {
            assert(location_ids@.take(i + 1).drop_last() =~= location_ids@.take(i as int));
        }
        if let Some(f) = functions.get(&location_ids[i]) {
            stack.push(*f);
        }
        i += 1;
    }
    proof {
        assert(location_ids@.take(i as int) =~= location_ids@);
    }
    stack
}

/// The call graph of a profile.
pub struct CallGraph {
    /// The aggregate sample count of each function.
    pub function_samples: HashMap<u64, u64>,
    /// The callees of each function, in ascending order.
    pub function_children: HashMap<u64, Vec<u64>>,
    /// Every function that some function was seen calling.
    pub called: HashSet<u64>,
    /// The sum of all sample counts.
    pub total: u64,
}

/// What a `CallGraph` holds. Both maps are defined on every identifier: a
/// function that was never sampled has the aggregate zero and no callees.
pub struct CallGraphView {
    pub totals: Map<u64, nat>,
    pub callees: Map<u64, Seq<u64>>,
    pub called: Set<u64>,
    pub total: nat,
}

/// The aggregates of a map of counts, zero where it has no entry.
pub open spec fn sample_totals(function_samples: Map<u64, u64>) -> Map<u64, nat> {
    Map::new(|f: u64| true, |f: u64| recorded(function_samples, f))
}

/// The callee lists of a map of children, empty where it has no entry.
pub open spec fn child_lists(function_children: Map<u64, Vec<u64>>) -> Map<u64, Seq<u64>> {
    Map::new(|a: u64| true, |a: u64| kids(function_children, a))
}

impl View for CallGraph {
    type V = CallGraphView;

    open spec fn view(&self) -> CallGraphView {
        CallGraphView {
            totals: sample_totals(self.function_samples@),
            callees: child_lists(self.function_children@),
            called: self.called@,
            total: self.total as nat,
        }
    }
}

/// The call graph that a sequence of resolved samples describes.
pub open spec fn call_graph(samples: Seq<Resolved>) -> CallGraphView {
    CallGraphView {
        totals: Map::new(|f: u64| true, |f: u64| function_total(samples, f)),
        callees: Map::new(|a: u64| true, |a: u64| ascending(callees(samples, a))),
        called: called(samples),
        total: total_count(samples),
    }
}

/// A prefix of a stack holds no more occurrences than the stack.
pub proof fn lemma_occurrences_prefix(stack: Seq<u64>, n: int, f: u64)
    requires
        0 <= n <= stack.len(),
    ensures
        occurrences(stack.take(n), f) <= occurrences(stack, f),
    decreases stack.len() - n,
{
    if n < stack.len() {
        lemma_occurrences_prefix(stack, n + 1, f);
        assert(stack.take(n + 1).drop_last() =~= stack.take(n));
    } else {
        assert(stack.take(n) =~= stack);
    }
}

/// The aggregate over a prefix of the samples is no more than over all.
pub proof fn lemma_function_total_prefix(samples: Seq<Resolved>, n: int, f: u64)
    requires
        0 <= n <= samples.len(),
    ensures
        function_total(samples.take(n), f) <= function_total(samples, f),
    decreases samples.len() - n,
{
    if n < samples.len() {
        lemma_function_total_prefix(samples, n + 1, f);
        assert(samples.take(n + 1).drop_last() =~= samples.take(n));
    } else {
        assert(samples.take(n) =~= samples);
    }
}

/// The sum of counts over a prefix of the samples is no more than over all.
pub proof fn lemma_total_count_prefix(samples: Seq<Resolved>, n: int)
    requires
        0 <= n <= samples.len(),
    ensures
        total_count(samples.take(n)) <= total_count(samples),
    decreases samples.len() - n,
{
    if n < samples.len() {
        lemma_total_count_prefix(samples, n + 1);
        assert(samples.take(n + 1).drop_last() =~= samples.take(n));
    } else {
        assert(samples.take(n) =~= samples);
    }
}

/// One more occurrence adds the count once more.
proof fn lemma_one_more(occ: nat, more: nat, count: nat)
    requires
        more == occ + 1,
    ensures
        more * count == occ * count + count,
{
    assert((occ + 1) * count == occ * count + count) by (nonlinear_arith);
}

/// More occurrences weigh no less.
proof fn lemma_weight_monotone(less: nat, more: nat, count: nat)
    requires
        less <= more,
    ensures
        less * count <= more * count,
{
    assert(less <= more ==> less * count <= more * count) by (nonlinear_arith);
}

/// The calls of one more sample are those seen before and those of its stack.
pub proof fn lemma_calls_step(samples: Seq<Resolved>, n: int, a: u64, b: u64)
    requires
        0 <= n < samples.len(),
    ensures
        calls(samples.take(n + 1), a, b) <==> calls(samples.take(n), a, b) || calls_before(
            samples[n].stack,
            samples[n].stack.len() as int,
            a,
            b,
        ),
{
    let shorter = samples.take(n);
    let longer = samples.take(n + 1);
    if calls(longer, a, b) {
        let k = choose|k: int|
            0 <= k < longer.len() && #[trigger] calls_before(
                longer[k].stack,
                longer[k].stack.len() as int,
                a,
                b,
            );
        if k < n {
            assert(shorter[k] == longer[k]);
            assert(calls_before(shorter[k].stack, shorter[k].stack.len() as int, a, b));
        }
    }
    if calls(shorter, a, b) {
        let k = choose|k: int|
            0 <= k < shorter.len() && #[trigger] calls_before(
                shorter[k].stack,
                shorter[k].stack.len() as int,
                a,
                b,
            );
        assert(shorter[k] == longer[k]);
        assert(calls_before(longer[k].stack, longer[k].stack.len() as int, a, b));
    }
    if calls_before(samples[n].stack, samples[n].stack.len() as int, a, b) {
        assert(longer[n] == samples[n]);
        assert(calls_before(longer[n].stack, longer[n].stack.len() as int, a, b));
    }
}

impl CallGraph {
    /// A graph without samples.
    pub fn new() -> (graph: CallGraph)
        ensures
            graph.function_samples@ == Map::<u64, u64>::empty(),
            graph.function_children@ == Map::<u64, Vec<u64>>::empty(),
            graph.called@ == Set::<u64>::empty(),
            graph.total == 0,
    {
        CallGraph {
            function_samples: HashMap::new(),
            function_children: HashMap::new(),
            called: HashSet::new(),
            total: 0,
        }
    }

    /// The call graph of a profile: `None` where a sample carries no value
    /// or a sum leaves 64 bits.
    pub fn of_profile(profile: &Profile) -> (graph: Option<CallGraph>)
        ensures
            graph is Some <==> profile@.counted() && fits(resolve(profile@)),
            graph matches Some(g) ==> g@ == call_graph(resolve(profile@)),
    {
        let functions = location_to_function(&profile.location);
        let mut graph = CallGraph::new();
        let ghost rs = resolve(profile@);
        let mut k: usize = 0;
        proof {
            assert(rs.take(0) =~= Seq::<Resolved>::empty());
        }
        while k < profile.sample.len()
            invariant
                k <= profile.sample.len(),
                rs == resolve(profile@),
                functions@ == location_functions(profile@.location),
                forall|i: int| 0 <= i < k ==> (#[trigger] profile@.sample[i]).value.len() > 0,
                graph.total == total_count(rs.take(k as int)),
                forall|f: u64| #[trigger]
                    recorded(graph.function_samples@, f) == function_total(rs.take(k as int), f),
                ordered(graph.function_children@),
                forall|a: u64, b: u64| #[trigger]
                    has_edge(graph.function_children@, a, b) <==> calls(rs.take(k as int), a, b),
                forall|b: u64|
                    graph.called@.contains(b) <==> exists|a: u64| #[trigger]
                        has_edge(graph.function_children@, a, b),
            decreases profile.sample.len() - k,
        {
            let sample = &profile.sample[k];
            assert(profile@.sample[k as int] == sample@);
            if sample.value.len() == 0 {
                return None;
            }
            let count = #[verifier::truncate] (sample.value[0] as u64);
            let stack = resolve_locations(&sample.location_id, &functions);
            let ghost before = graph;
            proof {
                assert(rs[k as int].stack == stack@);
                assert(rs[k as int].count == count);
                assert(rs.take(k + 1).drop_last() =~= rs.take(k as int));
                assert(rs.take(k + 1).last() == rs[k as int]);
            }
            if !graph.record(&stack, count) {
                proof {
                    if before.total + count > u64::MAX {
                        lemma_total_count_prefix(rs, k + 1);
                    } else {
                        let f = choose|f: u64|
                            recorded(before.function_samples@, f) + #[trigger] occurrences(
                                stack@,
                                f,
                            ) * count > u64::MAX;
                        assert(recorded(before.function_samples@, f) == function_total(
                            rs.take(k as int),
                            f,
                        ));
                        lemma_function_total_prefix(rs, k + 1, f);
                    }
                }
                return None;
            }
            proof {
                assert forall|f: u64| #[trigger]
                    recorded(graph.function_samples@, f) == function_total(
                        rs.take(k + 1),
                        f,
                    ) by {
                    assert(recorded(before.function_samples@, f) == function_total(
                        rs.take(k as int),
                        f,
                    ));
                }
                assert forall|a: u64, b: u64| #[trigger]
                    has_edge(graph.function_children@, a, b) <==> calls(rs.take(k + 1), a, b) by {
                    lemma_calls_step(rs, k as int, a, b);
                    assert(has_edge(before.function_children@, a, b) <==> calls(
                        rs.take(k as int),
                        a,
                        b,
                    ));
                }
            }
            k += 1;
        }
        proof {
            assert(rs.take(k as int) =~= rs);
            assert(profile@.counted());
            assert(fits(rs)) by {
                assert forall|f: u64| #[trigger] function_total(rs, f) <= u64::MAX by {
                    assert(recorded(graph.function_samples@, f) <= u64::MAX);
                }
            }
            assert(graph@.totals =~= call_graph(rs).totals) by {
                assert forall|f: u64| #[trigger]
                    graph@.totals[f] == call_graph(rs).totals[f] by {
                    assert(recorded(graph.function_samples@, f) == function_total(rs, f));
                }
            }
            assert(graph@.callees =~= call_graph(rs).callees) by {
                assert forall|a: u64| #[trigger]
                    graph@.callees[a] == call_graph(rs).callees[a] by {
                    let list = kids(graph.function_children@, a);
                    assert forall|x: u64| list.contains(x) <==> callees(rs, a).contains(x) by {
                        assert(has_edge(graph.function_children@, a, x) <==> calls(rs, a, x));
                    }
                    lemma_ascending_is(list, callees(rs, a));
                }
            }
            assert(graph@.called =~= call_graph(rs).called) by {
                assert forall|b: u64|
                    graph.called@.contains(b) <==> called(rs).contains(b) by {
                    if graph.called@.contains(b) {
                        let a = choose|a: u64| #[trigger]
                            has_edge(graph.function_children@, a, b);
                        assert(calls(rs, a, b));
                    }
                    if called(rs).contains(b) {
                        let a = choose|a: u64| calls(rs, a, b);
                        assert(has_edge(graph.function_children@, a, b));
                    }
                }
            }
        }
        Some(graph)
    }

    /// Adds one sample: its count to the aggregate of every function of its
    /// stack, once per occurrence, and an edge for every adjacent pair.
    /// Returns `false`, with the graph in an unspecified state, where a sum
    /// leaves 64 bits.
    pub fn record(&mut self, stack: &Vec<u64>, count: u64) -> (done: bool)
        requires
            ordered(old(self).function_children@),
            forall|b: u64|
                old(self).called@.contains(b) <==> exists|a: u64| #[trigger]
                    has_edge(old(self).function_children@, a, b),
        ensures
            done <==> old(self).total + count <= u64::MAX && forall|f: u64|
                recorded(old(self).function_samples@, f) + #[trigger] occurrences(stack@, f)
                    * count <= u64::MAX,
            done ==> final(self).total == old(self).total + count,
            done ==> forall|f: u64| #[trigger]
                recorded(final(self).function_samples@, f) == recorded(
                    old(self).function_samples@,
                    f,
                ) + occurrences(stack@, f) * count,
            done ==> ordered(final(self).function_children@),
            done ==> forall|a: u64, b: u64| #[trigger]
                has_edge(final(self).function_children@, a, b) <==> has_edge(
                    old(self).function_children@,
                    a,
                    b,
                ) || calls_before(stack@, stack@.len() as int, a, b),
            done ==> forall|b: u64|
                final(self).called@.contains(b) <==> exists|a: u64| #[trigger]
                    has_edge(final(self).function_children@, a, b),
    {
        let ghost before = self.function_samples@;
        let ghost edges_before = self.function_children@;
        match self.total.checked_add(count) {
            Some(sum) => {
                self.total = sum;
            },
            None => {
                return false;
            },
        }
        let mut j: usize = 0;
        proof {
            assert(stack@.take(0) =~= Seq::empty());
            assert forall|f: u64| #[trigger]
                recorded(self.function_samples@, f) == recorded(before, f) + occurrences(
                    stack@.take(0),
                    f,
                ) * count by {
                assert(0 * count == 0) by (nonlinear_arith);
            }
        }
        while j < stack.len()
            invariant
                j <= stack.len(),
                before == old(self).function_samples@,
                forall|f: u64| #[trigger]
                    recorded(self.function_samples@, f) == recorded(before, f) + occurrences(
                        stack@.take(j as int),
                        f,
                    ) * count,
                self.function_children@ == edges_before,
                self.called@ == old(self).called@,
                self.total == old(self).total + count,
            decreases stack.len() - j,
        {
            let f0 = stack[j];
            let ghost here = self.function_samples@;
            proof {
                assert(stack@.take(j + 1).drop_last() =~= stack@.take(j as int));
                assert(stack@.take(j + 1).last() == f0);
                lemma_one_more(
                    occurrences(stack@.take(j as int), f0),
                    occurrences(stack@.take(j + 1), f0),
                    count as nat,
                );
            }
            if !add_count(&mut self.function_samples, f0, count) {
                proof {
                    lemma_occurrences_prefix(stack@, j + 1, f0);
                    lemma_weight_monotone(
                        occurrences(stack@.take(j + 1), f0),
                        occurrences(stack@, f0),
                        count as nat,
                    );
                    assert(recorded(before, f0) + occurrences(stack@, f0) * count > u64::MAX);
                }
                return false;
            }
            proof {
                assert forall|f: u64| #[trigger]
                    recorded(self.function_samples@, f) == recorded(before, f) + occurrences(
                        stack@.take(j + 1),
                        f,
                    ) * count by {
                    if f != f0 {
                        assert(recorded(self.function_samples@, f) == recorded(here, f));
                    }
                }
            }
            j += 1;
        }
        proof {
            assert(stack@.take(j as int) =~= stack@);
        }
        let pairs: usize = if stack.len() == 0 {
            0
        } else {
            stack.len() - 1
        };
        let mut i: usize = 0;
        while i < pairs
            invariant
                i <= pairs,
                pairs + 1 == stack.len() || (pairs == 0 && stack.len() == 0),
                before == old(self).function_samples@,
                forall|f: u64| #[trigger]
                    recorded(self.function_samples@, f) == recorded(before, f) + occurrences(
                        stack@,
                        f,
                    ) * count,
                self.total == old(self).total + count,
                ordered(self.function_children@),
                forall|a: u64, b: u64| #[trigger]
                    has_edge(self.function_children@, a, b) <==> has_edge(edges_before, a, b)
                        || calls_before(stack@, i as int, a, b),
                forall|b: u64|
                    self.called@.contains(b) <==> exists|a: u64| #[trigger]
                        has_edge(self.function_children@, a, b),
            decreases stack.len() - i,
        {
            let caller = stack[i];
            let callee = stack[i + 1];
            let ghost edges_here = self.function_children@;
            let ghost called_here = self.called@;
            insert_edge(&mut self.function_children, &mut self.called, caller, callee);
            proof {
                assert(calls_at(stack@, i as int, caller, callee));
                assert forall|a: u64, b: u64| #[trigger]
                    has_edge(self.function_children@, a, b) <==> has_edge(edges_before, a, b)
                        || calls_before(stack@, i + 1, a, b) by {
                    if calls_before(stack@, i + 1, a, b) {
                        let w = choose|w: int| w < i + 1 && #[trigger] calls_at(stack@, w, a, b);
                        if w < i {
                            assert(calls_before(stack@, i as int, a, b));
                        }
                    }
                    if calls_before(stack@, i as int, a, b) {
                        let w = choose|w: int| w < i && #[trigger] calls_at(stack@, w, a, b);
                        assert(w < i + 1);
                    }
                }
                assert forall|b: u64|
                    self.called@.contains(b) <==> exists|a: u64| #[trigger]
                        has_edge(self.function_children@, a, b) by {
                    if self.called@.contains(b) {
                        if b == callee {
                            assert(has_edge(self.function_children@, caller, b));
                        } else {
                            assert(called_here.contains(b));
                            let a = choose|a: u64| #[trigger] has_edge(edges_here, a, b);
                            assert(has_edge(self.function_children@, a, b));
                        }
                    }
                    if exists|a: u64| #[trigger] has_edge(self.function_children@, a, b) {
                        let a = choose|a: u64| #[trigger] has_edge(self.function_children@, a, b);
                        if !(a == caller && b == callee) {
                            assert(has_edge(edges_here, a, b));
                        }
                    }
                }
            }
            i += 1;
        }
        proof {
            assert forall|a: u64, b: u64|
                calls_before(stack@, i as int, a, b) <==> calls_before(
                    stack@,
                    stack@.len() as int,
                    a,
                    b,
                ) by {
                if calls_before(stack@, stack@.len() as int, a, b) {
                    let w = choose|w: int|
                        w < stack@.len() && #[trigger] calls_at(stack@, w, a, b);
                    assert(w < i);
                }
                if calls_before(stack@, i as int, a, b) {
                    let w = choose|w: int| w < i && #[trigger] calls_at(stack@, w, a, b);
                    assert(w < stack@.len());
                }
            }
            assert forall|f: u64|
                recorded(old(self).function_samples@, f) + #[trigger] occurrences(stack@, f)
                    * count <= u64::MAX by {
                assert(recorded(self.function_samples@, f) <= u64::MAX);
            }
        }
        true
    }
}

} // verus!
