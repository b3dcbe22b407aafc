//! The workload daemon: which workload a task names, what one round of
//! each workload computes, and how the daemon answers.

use crate::callgraph::lists;
use crate::json::{push_quoted, quoted};
use crate::service::HttpReply;
use crate::string_map::StringMap;
use crate::tasks::{
    binary_tree_sum, fib, fib_residues, fibonacci, heavy_computation, hash_map_operations,
    item_text, keyed, memory_intensive, pipeline_map, process_data_pipeline, processing_text,
    squares_mod, string_processing, tree_sum, vector_operations,
};
use crate::text::same_text;
use vstd::prelude::*;
use vstd::string::StringExecFns;

verus! {

/// How many tasks may wait for the worker.
pub const TASK_QUEUE_CAPACITY: usize = 32;

/// How many times a second the profiler takes a sample.
pub const SAMPLING_FREQUENCY: i32 = 100;

/// How many rounds the processor workload runs.
pub const CPU_ROUNDS: u32 = 2;

/// How many rounds the memory workload runs.
pub const MEMORY_ROUNDS: u32 = 3;

/// Milliseconds of rest after each round of the memory workload.
pub const MEMORY_PAUSE_MILLIS: u64 = 50;

/// How many workers share the mixed workload.
pub const MIXED_WORKERS: u32 = 4;

/// The workloads.
#[derive(Clone, Copy, Debug, PartialEq, Eq)]
pub enum TaskKind {
    Cpu,
    Memory,
    Mixed,
}

/// What one worker of the mixed workload has computed.
pub enum WorkerOutput {
    /// A tree sum and a Fibonacci number.
    Recursion { tree: u64, fibonacci: u64 },
    /// The items of the memory workload.
    Memory { items: Vec<String> },
    /// A vector and a map.
    Collections { vector: Vec<u64>, map: StringMap<u64> },
    /// The map of the pipeline.
    Pipeline { map: StringMap<u64> },
}

/// The workload that a task type names: `cpu`, `memory`, or the mixed
/// workload for any other text.
pub open spec fn kind_of(task_type: Seq<char>) -> TaskKind {
    if task_type == "cpu"@ {
        TaskKind::Cpu
    } else if task_type == "memory"@ {
        TaskKind::Memory
    } else {
        TaskKind::Mixed
    }
}

/// The body of the answer for a task that ran, with the identifier of its
/// profile.
pub open spec fn task_done_body(profile_id: Seq<char>) -> Seq<char> {
    "{\"profileId\":"@ + quoted(profile_id) + "}"@
}

/// The body of the answer for a task that did not run to its end.
pub open spec fn task_failed_body() -> Seq<char> {
    "{\"error\":\"Task execution failed\"}"@
}

/// The workload that a task type names.
pub fn task_kind(task_type: &str) -> (kind: TaskKind)
    ensures
        kind == kind_of(task_type@),
{
    if same_text(task_type, "cpu") {
        TaskKind::Cpu
    } else if same_text(task_type, "memory") {
        TaskKind::Memory
    } else {
        TaskKind::Mixed
    }
}

/// One round of the processor workload: a tree sum, a Fibonacci number and
/// a sum of squares.
pub fn cpu_round() -> (out: (u64, u64, u64))
    ensures
        out.0 == tree_sum(15),
        out.1 == fib(30),
        out.2 == squares_mod(50_000),
{
    (binary_tree_sum(15), fibonacci(30), heavy_computation(50_000))
}

/// One round of the memory workload, without the rest that follows it: ten
/// thousand items and a processing report.
pub fn memory_round() -> (out: (Vec<String>, String))
    ensures
        out.0@.len() == 10_000,
        forall|i: int| 0 <= i < 10_000 ==> (#[trigger] out.0@[i])@ == item_text(i as nat),
        out.1@ == processing_text(100),
{
    (memory_intensive(), string_processing())
}

/// The share of the worker `index` in the mixed workload.
pub fn mixed_worker(index: u32) -> (out: WorkerOutput)
    ensures
        match out {
            WorkerOutput::Recursion { tree, fibonacci } => index == 0 && tree == tree_sum(15)
                && fibonacci == fib(30),
            WorkerOutput::Memory { items } => index == 1 && items@.len() == 10_000 && forall|
                i: int,
            |
                0 <= i < 10_000 ==> (#[trigger] items@[i])@ == item_text(i as nat),
            WorkerOutput::Collections { vector, map } => index == 2 && lists(
                vector@,
                fib_residues(2000),
            ) && map.wf() && map@ == keyed(1000),
            WorkerOutput::Pipeline { map } => index > 2 && map.wf() && map@ == pipeline_map(150),
        },
{
    if index == 0 {
        WorkerOutput::Recursion { tree: binary_tree_sum(15), fibonacci: fibonacci(30) }
    } else if index == 1 {
        WorkerOutput::Memory { items: memory_intensive() }
    } else if index == 2 {
        WorkerOutput::Collections {
            vector: vector_operations(2000),
            map: hash_map_operations(1000),
        }
    } else {
        WorkerOutput::Pipeline { map: process_data_pipeline(150) }
    }
}

/// The answer to a task request: status 200 with the identifier of the
/// profile, or status 500 where the task did not run to its end.
pub fn task_reply(profile_id: Option<&str>) -> (reply: HttpReply)
    ensures
        (reply.status, reply.body@) == match profile_id {
            Some(id) => (200u16, task_done_body(id@)),
            None => (500u16, task_failed_body()),
        },
{
    match profile_id {
        Some(id) => {
            let mut body = String::from_str("{\"profileId\":");
            push_quoted(&mut body, id);
            body.append("}");
            HttpReply { status: 200, body }
        },
        None => HttpReply {
            status: 500,
            body: String::from_str("{\"error\":\"Task execution failed\"}"),
        },
    }
}

} // verus!
