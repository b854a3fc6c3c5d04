use bevy_async_runner::{AsyncRunner, AsyncRunnerPlugin, Backend, Completer, RunnerState};

type Handler = Box<dyn FnOnce(&mut Vec<String>) + Send>;

fn runtime() -> tokio::runtime::Runtime {
    tokio::runtime::Builder::new_multi_thread()
        .worker_threads(4)
        .build()
        .unwrap()
}

fn push_from_tasks(completer: &Completer<u32>, n: u32) {
    let rt = runtime();
    let mut handles = Vec::new();
    for i in 0..n {
        let mut c = completer.clone();
        handles.push(rt.spawn(async move {
            c.complete(i).unwrap();
        }));
    }
    for h in handles {
        rt.block_on(h).unwrap();
    }
}

fn concurrent_pushes_arrive_once(n: u32) {
    let mut runner: AsyncRunner<u32> = AsyncRunner::new();
    push_from_tasks(&runner.completer(), n);
    let mut got = runner.run();
    assert_eq!(got.len(), n as usize);
    got.sort();
    let expected: Vec<u32> = (0..n).collect();
    assert_eq!(got, expected);
    assert!(runner.run().is_empty());
}

#[test]
fn new_runner_is_active_and_empty() {
    let mut runner: AsyncRunner<u32> = AsyncRunner::new();
    assert_eq!(runner.state(), RunnerState::Active);
    assert!(runner.run().is_empty());
    assert_eq!(runner.state(), RunnerState::Active);
}

#[test]
fn drain_on_empty_queue_is_a_no_op() {
    let mut runner: AsyncRunner<u32> = AsyncRunner::new();
    for _ in 0..3 {
        assert!(runner.run().is_empty());
        assert_eq!(runner.state(), RunnerState::Active);
    }
}

#[test]
fn completions_come_out_in_arrival_order() {
    let mut runner: AsyncRunner<&str> = AsyncRunner::new();
    let mut completer = runner.completer();
    completer.complete("second submitted, first resolved").unwrap();
    completer.complete("first submitted, second resolved").unwrap();
    assert_eq!(
        runner.run(),
        vec!["second submitted, first resolved", "first submitted, second resolved"]
    );
}

#[test]
fn backlog_is_flushed_by_one_drain() {
    let mut runner: AsyncRunner<u32> = AsyncRunner::new();
    let mut completer = runner.completer();
    for i in 0..5 {
        completer.complete(i).unwrap();
    }
    assert_eq!(runner.run(), vec![0, 1, 2, 3, 4]);
    assert!(runner.run().is_empty());
}

#[test]
fn items_pushed_after_a_drain_come_with_the_next() {
    let mut runner: AsyncRunner<u32> = AsyncRunner::new();
    let mut completer = runner.completer();
    completer.complete(1).unwrap();
    assert_eq!(runner.run(), vec![1]);
    completer.complete(2).unwrap();
    completer.complete(3).unwrap();
    assert_eq!(runner.run(), vec![2, 3]);
}

#[test]
fn one_concurrent_push_arrives_once() {
    concurrent_pushes_arrive_once(1);
}

#[test]
fn ten_concurrent_pushes_arrive_once() {
    concurrent_pushes_arrive_once(10);
}

#[test]
fn thousand_concurrent_pushes_arrive_once() {
    concurrent_pushes_arrive_once(1000);
}

#[test]
fn closed_queue_hands_out_pending_and_closes_in_same_drain() {
    let mut runner: AsyncRunner<u32> = AsyncRunner::new();
    let mut completer = runner.completer();
    completer.complete(7).unwrap();
    runner.close();
    assert_eq!(runner.state(), RunnerState::Active);
    assert_eq!(runner.run(), vec![7]);
    assert_eq!(runner.state(), RunnerState::Closed);
    for _ in 0..3 {
        assert!(runner.run().is_empty());
        assert_eq!(runner.state(), RunnerState::Closed);
    }
}

#[test]
fn push_after_close_hands_the_item_back() {
    let mut runner: AsyncRunner<u32> = AsyncRunner::new();
    let mut completer = runner.completer();
    runner.close();
    assert_eq!(completer.complete(42), Err(42));
    assert!(runner.run().is_empty());
    assert_eq!(runner.state(), RunnerState::Closed);
}

#[test]
fn push_from_background_after_close_does_not_crash() {
    let mut runner: AsyncRunner<u32> = AsyncRunner::new();
    let mut completer = runner.completer();
    runner.close();
    let rt = runtime();
    let handle = rt.spawn(async move { completer.complete(5) });
    assert_eq!(rt.block_on(handle).unwrap(), Err(5));
    assert!(runner.run().is_empty());
}

#[test]
fn delayed_name_is_logged_once_after_drain() {
    let mut runner: AsyncRunner<Handler> = AsyncRunner::new();
    let mut completer = runner.completer();
    let rt = runtime();
    let task = rt.spawn(async move {
        let name = async {
            tokio::task::yield_now().await;
            "John".to_string()
        }
        .await;
        let execute: Handler = Box::new(move |log: &mut Vec<String>| log.push(name));
        assert!(completer.complete(execute).is_ok());
    });
    let mut log: Vec<String> = Vec::new();
    rt.block_on(task).unwrap();
    for execute in runner.run() {
        execute(&mut log);
    }
    assert_eq!(log, vec!["John".to_string()]);
    for execute in runner.run() {
        execute(&mut log);
    }
    assert_eq!(log, vec!["John".to_string()]);
}

#[test]
fn error_result_reaches_handler_unchanged() {
    let mut runner: AsyncRunner<Result<String, String>> = AsyncRunner::new();
    let mut completer = runner.completer();
    let rt = runtime();
    let task = rt.spawn(async move {
        let outcome: Result<String, String> = Err("timeout".to_string());
        completer.complete(outcome).unwrap();
    });
    rt.block_on(task).unwrap();
    let mut seen: Vec<Result<String, String>> = Vec::new();
    for value in runner.run() {
        seen.push(value);
    }
    assert_eq!(seen, vec![Err("timeout".to_string())]);
}

#[test]
fn plugin_defaults_to_engine_pool() {
    let plugin = AsyncRunnerPlugin::new();
    assert_eq!(plugin.backend, Backend::EnginePool);
    assert_eq!(AsyncRunnerPlugin::default(), plugin);
    assert!(plugin.detaches_tasks());
    assert!(!plugin.owns_runtime());
}

#[test]
fn plugin_with_owned_runtime() {
    let multi = AsyncRunnerPlugin::new().with_backend(Backend::MultiThread);
    assert_eq!(multi.backend, Backend::MultiThread);
    assert!(multi.owns_runtime());
    assert!(!multi.detaches_tasks());
    let single = multi.with_backend(Backend::CurrentThread);
    assert_eq!(single.backend, Backend::CurrentThread);
    assert!(single.owns_runtime());
    assert!(!single.detaches_tasks());
}

#[test]
fn drain_of_quiet_queue_takes_backlog_and_stays_active() {
    let mut runner: AsyncRunner<u32> = AsyncRunner::new();
    let mut completer = runner.completer();
    completer.complete(1).unwrap();
    completer.complete(2).unwrap();
    assert_eq!(runner.run(), vec![1, 2]);
    assert_eq!(runner.state(), RunnerState::Active);
}
