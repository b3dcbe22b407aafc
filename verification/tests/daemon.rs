use profiling::daemon::{
    cpu_round, memory_round, mixed_worker, task_kind, task_reply, TaskKind, WorkerOutput,
    CPU_ROUNDS, MEMORY_PAUSE_MILLIS, MEMORY_ROUNDS, MIXED_WORKERS, SAMPLING_FREQUENCY,
    TASK_QUEUE_CAPACITY,
};
use profiling::service::HttpReply;

#[test]
fn task_types_name_their_workload() {
    assert_eq!(task_kind("cpu"), TaskKind::Cpu);
    assert_eq!(task_kind("memory"), TaskKind::Memory);
    assert_eq!(task_kind("mixed"), TaskKind::Mixed);
    assert_eq!(task_kind(""), TaskKind::Mixed);
    assert_eq!(task_kind("CPU"), TaskKind::Mixed);
    assert_eq!(task_kind("cpu "), TaskKind::Mixed);
}

#[test]
fn a_cpu_round_computes_three_numbers() {
    assert_eq!(cpu_round(), (98287, 832040, 41_665_416_675_000));
}

#[test]
fn a_memory_round_makes_items_and_a_report() {
    let (items, report) = memory_round();
    assert_eq!(items.len(), 10_000);
    assert!(report.starts_with("Processing item 0: 0\n"));
    assert_eq!(items[1], format!("Item 1: {}", report));
}

#[test]
fn the_first_mixed_worker_recurses() {
    match mixed_worker(0) {
        WorkerOutput::Recursion { tree, fibonacci } => {
            assert_eq!(tree, 98287);
            assert_eq!(fibonacci, 832040);
        }
        _ => panic!("worker 0 recurses"),
    }
}

#[test]
fn the_second_mixed_worker_fills_memory() {
    match mixed_worker(1) {
        WorkerOutput::Memory { items } => assert_eq!(items.len(), 10_000),
        _ => panic!("worker 1 fills memory"),
    }
}

#[test]
fn the_third_mixed_worker_fills_collections() {
    match mixed_worker(2) {
        WorkerOutput::Collections { vector, map } => {
            assert_eq!(vector, vec![0, 1, 2, 3, 5, 8, 13, 21, 34, 55, 89, 144, 233, 377]);
            assert_eq!(map.len(), 9);
        }
        _ => panic!("worker 2 fills collections"),
    }
}

#[test]
fn every_further_mixed_worker_runs_the_pipeline() {
    for index in [3, 4, 100] {
        match mixed_worker(index) {
            WorkerOutput::Pipeline { map } => assert_eq!(map.len(), 1),
            _ => panic!("worker {} runs the pipeline", index),
        }
    }
}

#[test]
fn a_task_that_ran_is_answered_with_its_profile() {
    let reply = task_reply(Some("123e4567-e89b-42d3-a456-426614174000"));
    assert_eq!(
        reply,
        HttpReply {
            status: 200,
            body: "{\"profileId\":\"123e4567-e89b-42d3-a456-426614174000\"}".to_string()
        }
    );
    assert_eq!(task_reply(Some("a\"b")).body, "{\"profileId\":\"a\\\"b\"}");
}

#[test]
fn a_task_that_failed_is_answered_with_an_error() {
    assert_eq!(
        task_reply(None),
        HttpReply { status: 500, body: "{\"error\":\"Task execution failed\"}".to_string() }
    );
}

#[test]
fn the_limits_of_the_daemon() {
    assert_eq!(TASK_QUEUE_CAPACITY, 32);
    assert_eq!(SAMPLING_FREQUENCY, 100);
    assert_eq!(CPU_ROUNDS, 2);
    assert_eq!(MEMORY_ROUNDS, 3);
    assert_eq!(MEMORY_PAUSE_MILLIS, 50);
    assert_eq!(MIXED_WORKERS, 4);
}
