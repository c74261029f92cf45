use task_queue::dispatch::Dispatch;
use task_queue::error::Error;
use task_queue::manager::TaskManager;
use task_queue::progress::progress_reports;
use task_queue::progress::ProgressReport;
use task_queue::task::{Task, TaskOrigin, TaskPriority, TaskStatus};

type Handler = fn(Task) -> Vec<ProgressReport>;

fn finish_at_once(task: Task) -> Vec<ProgressReport> {
    let mut running = task.clone();
    running.status = TaskStatus::Running;
    let mut completed = task;
    completed.status = TaskStatus::Completed;
    vec![
        ProgressReport { snapshot: running, pause: false },
        ProgressReport { snapshot: completed, pause: false },
    ]
}

fn task(name: &str, priority: TaskPriority) -> Task {
    Task::new(name, TaskOrigin::Backend, serde_json::Value::Null, priority)
}

fn sorted_ids(tasks: Vec<Task>) -> Vec<String> {
    let mut ids: Vec<String> = tasks.into_iter().map(|t| t.id).collect();
    ids.sort();
    ids
}

/// Runs one cycle of the dispatcher as a host does: the handler of the task
/// that leaves next is called, every snapshot that it reports is pushed to
/// `sink` and written back as the status of the task.
fn run_cycle(manager: &mut TaskManager<Handler>, sink: &mut Vec<Task>) -> Option<String> {
    let (task, handler) = match manager.dispatch_next() {
        Dispatch::Run { task, handler } => (task, *handler),
        _ => return None,
    };
    let id = task.id.clone();
    for report in handler(task) {
        let status = report.snapshot.status.clone();
        sink.push(report.snapshot);
        manager.update_task_status(&id, status).unwrap();
    }
    Some(id)
}

#[test]
fn new_manager_tracks_nothing() {
    let mut manager: TaskManager<Handler> = TaskManager::new();
    assert!(manager.get_all_tasks().is_empty());
    assert!(manager.get_task("anything").is_none());
    assert!(!manager.ingest_next());
    assert!(matches!(manager.dispatch_next(), Dispatch::Idle));
}

#[test]
fn added_task_is_tracked_once_it_was_taken_in() {
    let mut manager: TaskManager<Handler> = TaskManager::new();
    let added = task("download", TaskPriority::Medium);
    assert_eq!(manager.add_task(added.clone()), Ok(()));
    assert!(manager.get_task(&added.id).is_none());
    assert!(manager.get_all_tasks().is_empty());
    assert!(manager.ingest_next());
    let found = manager.get_task(&added.id).unwrap();
    assert_eq!(found.id, added.id);
    assert_eq!(found.task_type, "download");
    assert_eq!(found.status, TaskStatus::Pending);
    assert_eq!(found.progress, 0);
    assert_eq!(manager.get_all_tasks().len(), 1);
    assert!(!manager.ingest_next());
}

#[test]
fn tasks_are_dispatched_high_medium_low() {
    let mut manager: TaskManager<Handler> = TaskManager::new();
    manager.register_handler("job", finish_at_once);
    let low = task("job", TaskPriority::Low);
    let high = task("job", TaskPriority::High);
    let medium = task("job", TaskPriority::Medium);
    manager.add_task(low.clone()).unwrap();
    manager.add_task(high.clone()).unwrap();
    manager.add_task(medium.clone()).unwrap();
    manager.ingest_all();
    let mut sink = Vec::new();
    let mut order = Vec::new();
    while let Some(id) = run_cycle(&mut manager, &mut sink) {
        order.push(id);
    }
    assert_eq!(order, vec![high.id.clone(), medium.id.clone(), low.id.clone()]);
    let seen: Vec<(String, TaskStatus)> = sink.into_iter().map(|t| (t.id, t.status)).collect();
    assert_eq!(
        seen,
        vec![
            (high.id.clone(), TaskStatus::Running),
            (high.id.clone(), TaskStatus::Completed),
            (medium.id.clone(), TaskStatus::Running),
            (medium.id.clone(), TaskStatus::Completed),
            (low.id.clone(), TaskStatus::Running),
            (low.id.clone(), TaskStatus::Completed),
        ]
    );
    for id in [&high.id, &medium.id, &low.id] {
        assert_eq!(manager.get_task(id).unwrap().status, TaskStatus::Completed);
    }
}

#[test]
fn dispatched_task_is_tracked_as_running() {
    let mut manager: TaskManager<Handler> = TaskManager::new();
    manager.register_handler("job", finish_at_once);
    let added = task("job", TaskPriority::High);
    manager.add_task(added.clone()).unwrap();
    manager.ingest_all();
    assert_eq!(manager.get_task(&added.id).unwrap().status, TaskStatus::Pending);
    match manager.dispatch_next() {
        Dispatch::Run { task, .. } => {
            assert_eq!(task.id, added.id);
            assert_eq!(task.status, TaskStatus::Running);
            assert_eq!(task.progress, 0);
        }
        _ => panic!("the task was not dispatched"),
    }
    assert_eq!(manager.get_task(&added.id).unwrap().status, TaskStatus::Running);
    assert!(matches!(manager.dispatch_next(), Dispatch::Idle));
}

#[test]
fn task_without_handler_never_runs() {
    let mut manager: TaskManager<Handler> = TaskManager::new();
    manager.register_handler("download", finish_at_once);
    let orphan = task("transcode", TaskPriority::High);
    manager.add_task(orphan.clone()).unwrap();
    manager.ingest_all();
    assert_eq!(manager.get_task(&orphan.id).unwrap().status, TaskStatus::Pending);
    let found = manager.dispatch_next();
    assert_eq!(found.diagnostic(), Some("No handler registered for task transcode".to_string()));
    match found {
        Dispatch::HandlerMissing { task } => {
            assert_eq!(task.id, orphan.id);
            assert_eq!(task.status, TaskStatus::Pending);
        }
        _ => panic!("a task without a handler was not reported"),
    }
    assert_eq!(manager.get_task(&orphan.id).unwrap().status, TaskStatus::Pending);
    for _ in 0..5 {
        assert!(matches!(manager.dispatch_next(), Dispatch::Idle));
        let status = manager.get_task(&orphan.id).unwrap().status;
        assert_ne!(status, TaskStatus::Running);
        assert_ne!(status, TaskStatus::Completed);
    }
}

#[test]
fn fifty_of_one_hundred_and_fifty_tasks_are_dropped() {
    let mut manager: TaskManager<Handler> = TaskManager::new();
    manager.register_handler("job", finish_at_once);
    let mut submitted = Vec::new();
    for _ in 0..150 {
        let added = task("job", TaskPriority::Medium);
        assert_eq!(manager.add_task(added.clone()), Ok(()));
        submitted.push(added.id);
    }
    manager.ingest_all();
    let known = manager.get_all_tasks();
    assert_eq!(known.len(), 100);
    let missing = submitted.iter().filter(|id| manager.get_task(id).is_none()).count();
    assert_eq!(missing, 50);
    for id in &submitted[..100] {
        assert!(manager.get_task(id).is_some());
    }
    for id in &submitted[100..] {
        assert!(manager.get_task(id).is_none());
        assert!(known.iter().all(|t| &t.id != id));
    }
    let mut sink = Vec::new();
    let mut ran = 0;
    while run_cycle(&mut manager, &mut sink).is_some() {
        ran += 1;
    }
    assert_eq!(ran, 100);
    for found in manager.get_all_tasks() {
        assert_eq!(found.status, TaskStatus::Completed);
    }
    assert_eq!(manager.get_all_tasks().len(), 100);
}

#[test]
fn update_of_an_unknown_task_fails_and_changes_nothing() {
    let mut manager: TaskManager<Handler> = TaskManager::new();
    manager.register_handler("job", finish_at_once);
    let known = task("job", TaskPriority::Low);
    let waiting = task("job", TaskPriority::High);
    manager.add_task(known.clone()).unwrap();
    manager.ingest_all();
    manager.add_task(waiting.clone()).unwrap();
    let unknown = task("job", TaskPriority::Low).id;
    let result = manager.update_task_status(&unknown, TaskStatus::Completed);
    assert_eq!(result.unwrap_err(), Error::TaskNotFound);
    assert!(manager.get_task(&unknown).is_none());
    let all = manager.get_all_tasks();
    assert_eq!(all.len(), 1);
    assert_eq!(all[0].id, known.id);
    assert_eq!(all[0].status, TaskStatus::Pending);
    assert_eq!(all[0].progress, 0);
    let not_yet = manager.update_task_status(&waiting.id, TaskStatus::Completed);
    assert_eq!(not_yet.unwrap_err(), Error::TaskNotFound);
    manager.ingest_all();
    assert_eq!(sorted_ids(manager.get_all_tasks()), sorted_ids(vec![known.clone(), waiting.clone()]));
    match manager.dispatch_next() {
        Dispatch::Run { task, .. } => assert_eq!(task.id, waiting.id),
        _ => panic!("the task was not dispatched"),
    }
}

#[test]
fn update_returns_the_snapshot_for_the_event_sink() {
    let mut manager: TaskManager<Handler> = TaskManager::new();
    let mut added = task("job", TaskPriority::Low);
    added.progress = 45;
    manager.add_task(added.clone()).unwrap();
    manager.ingest_all();
    let snapshot = manager
        .update_task_status(&added.id, TaskStatus::Failed("out of memory".to_string()))
        .unwrap();
    assert_eq!(snapshot.id, added.id);
    assert_eq!(snapshot.status, TaskStatus::Failed("out of memory".to_string()));
    assert_eq!(snapshot.progress, 45);
    assert_eq!(snapshot.task_type, "job");
    assert_eq!(snapshot.priority, TaskPriority::Low);
    let found = manager.get_task(&added.id).unwrap();
    assert_eq!(found.status, TaskStatus::Failed("out of memory".to_string()));
    assert_eq!(found.progress, 45);
    let canceled = manager.update_task_status(&added.id, TaskStatus::Canceled).unwrap();
    assert_eq!(canceled.status, TaskStatus::Canceled);
}

#[test]
fn handler_reports_rising_progress_and_completes() {
    let mut manager: TaskManager<Handler> = TaskManager::new();
    manager.register_handler("download", progress_reports);
    let added = task("download", TaskPriority::High);
    manager.add_task(added.clone()).unwrap();
    manager.ingest_all();
    let mut sink = Vec::new();
    assert_eq!(run_cycle(&mut manager, &mut sink), Some(added.id.clone()));
    assert_eq!(sink.len(), 103);
    assert_eq!(sink[0].progress, 0);
    assert_eq!(sink[1].progress, 0);
    assert_eq!(sink[51].progress, 50);
    assert_eq!(sink[101].progress, 100);
    for pair in sink.windows(2) {
        assert!(pair[0].progress <= pair[1].progress);
    }
    for event in &sink {
        assert_eq!(event.id, added.id);
        assert!(event.progress <= 100);
    }
    for event in &sink[..102] {
        assert_eq!(event.status, TaskStatus::Running);
    }
    assert_eq!(sink[102].status, TaskStatus::Completed);
    assert_eq!(sink[102].progress, 100);
    assert_eq!(manager.get_task(&added.id).unwrap().status, TaskStatus::Completed);
}

#[test]
fn retired_task_is_no_longer_tracked() {
    let mut manager: TaskManager<Handler> = TaskManager::new();
    manager.register_handler("job", finish_at_once);
    let first = task("job", TaskPriority::High);
    let second = task("job", TaskPriority::Low);
    manager.add_task(first.clone()).unwrap();
    manager.add_task(second.clone()).unwrap();
    manager.ingest_all();
    let mut sink = Vec::new();
    assert_eq!(run_cycle(&mut manager, &mut sink), Some(first.id.clone()));
    let retired = manager.retire(&first.id).unwrap();
    assert_eq!(retired.id, first.id);
    assert_eq!(retired.status, TaskStatus::Completed);
    assert!(manager.get_task(&first.id).is_none());
    assert_eq!(manager.get_task(&second.id).unwrap().status, TaskStatus::Pending);
    assert!(manager.retire(&first.id).is_none());
    assert_eq!(manager.get_all_tasks().len(), 1);
}

#[test]
fn all_tasks_are_listed_whatever_their_status() {
    let mut manager: TaskManager<Handler> = TaskManager::new();
    manager.register_handler("job", finish_at_once);
    let done = task("job", TaskPriority::High);
    let running = task("job", TaskPriority::Medium);
    let pending = task("job", TaskPriority::Low);
    for t in [&done, &running, &pending] {
        manager.add_task(t.clone()).unwrap();
    }
    manager.ingest_all();
    let mut sink = Vec::new();
    run_cycle(&mut manager, &mut sink);
    assert!(matches!(manager.dispatch_next(), Dispatch::Run { .. }));
    let all = manager.get_all_tasks();
    assert_eq!(sorted_ids(all.clone()), sorted_ids(vec![done.clone(), running.clone(), pending.clone()]));
    for found in all {
        let expected = if found.id == done.id {
            TaskStatus::Completed
        } else if found.id == running.id {
            TaskStatus::Running
        } else {
            TaskStatus::Pending
        };
        assert_eq!(found.status, expected);
    }
}

#[test]
fn progress_of_tracked_tasks_stays_a_percentage() {
    let mut manager: TaskManager<Handler> = TaskManager::new();
    manager.register_handler("job", finish_at_once);
    let mut partly = task("job", TaskPriority::High);
    partly.progress = 100;
    let fresh = task("job", TaskPriority::Low);
    manager.add_task(partly.clone()).unwrap();
    manager.add_task(fresh.clone()).unwrap();
    manager.ingest_all();
    let mut sink = Vec::new();
    run_cycle(&mut manager, &mut sink);
    manager.update_task_status(&fresh.id, TaskStatus::Canceled).unwrap();
    assert_eq!(manager.get_task(&partly.id).unwrap().progress, 100);
    assert_eq!(manager.get_task(&fresh.id).unwrap().progress, 0);
    for found in manager.get_all_tasks() {
        assert!(found.progress <= 100);
    }
}

#[test]
fn terminal_status_stays_through_later_steps() {
    let mut manager: TaskManager<Handler> = TaskManager::new();
    manager.register_handler("job", finish_at_once);
    let first = task("job", TaskPriority::High);
    manager.add_task(first.clone()).unwrap();
    manager.ingest_all();
    let mut sink = Vec::new();
    run_cycle(&mut manager, &mut sink);
    assert_eq!(manager.get_task(&first.id).unwrap().status, TaskStatus::Completed);
    let second = task("job", TaskPriority::Low);
    manager.add_task(second.clone()).unwrap();
    assert_eq!(manager.get_task(&first.id).unwrap().status, TaskStatus::Completed);
    manager.ingest_all();
    assert_eq!(manager.get_task(&first.id).unwrap().status, TaskStatus::Completed);
    manager.register_handler("job", progress_reports);
    run_cycle(&mut manager, &mut sink);
    assert_eq!(manager.get_task(&first.id).unwrap().status, TaskStatus::Completed);
    manager.update_task_status(&first.id, TaskStatus::Failed("late".to_string())).unwrap();
    assert!(manager.get_task(&first.id).unwrap().status.is_terminal());
    manager.retire(&second.id);
    assert!(manager.get_task(&first.id).unwrap().status.is_terminal());
}

#[test]
fn update_never_takes_a_terminal_status_back() {
    let mut manager: TaskManager<Handler> = TaskManager::new();
    let added = task("job", TaskPriority::High);
    manager.add_task(added.clone()).unwrap();
    manager.ingest_all();
    manager.update_task_status(&added.id, TaskStatus::Completed).unwrap();
    let kept = manager.update_task_status(&added.id, TaskStatus::Pending).unwrap();
    assert_eq!(kept.id, added.id);
    assert_eq!(kept.status, TaskStatus::Completed);
    assert_eq!(manager.get_task(&added.id).unwrap().status, TaskStatus::Completed);
    let kept = manager.update_task_status(&added.id, TaskStatus::Running).unwrap();
    assert_eq!(kept.status, TaskStatus::Completed);
    assert_eq!(manager.get_task(&added.id).unwrap().status, TaskStatus::Completed);
    let failed = manager.update_task_status(&added.id, TaskStatus::Failed("late".to_string())).unwrap();
    assert_eq!(failed.status, TaskStatus::Failed("late".to_string()));
    let kept = manager.update_task_status(&added.id, TaskStatus::Running).unwrap();
    assert_eq!(kept.status, TaskStatus::Failed("late".to_string()));
    manager.update_task_status(&added.id, TaskStatus::Canceled).unwrap();
    let kept = manager.update_task_status(&added.id, TaskStatus::Pending).unwrap();
    assert_eq!(kept.status, TaskStatus::Canceled);
    assert_eq!(manager.get_task(&added.id).unwrap().status, TaskStatus::Canceled);
}

#[test]
fn update_moves_a_task_between_pending_and_running() {
    let mut manager: TaskManager<Handler> = TaskManager::new();
    let added = task("job", TaskPriority::High);
    manager.add_task(added.clone()).unwrap();
    manager.ingest_all();
    let running = manager.update_task_status(&added.id, TaskStatus::Running).unwrap();
    assert_eq!(running.status, TaskStatus::Running);
    let pending = manager.update_task_status(&added.id, TaskStatus::Pending).unwrap();
    assert_eq!(pending.status, TaskStatus::Pending);
    assert_eq!(manager.get_task(&added.id).unwrap().status, TaskStatus::Pending);
}

#[test]
fn dispatch_never_takes_a_terminal_status_back() {
    let mut manager: TaskManager<Handler> = TaskManager::new();
    manager.register_handler("job", finish_at_once);
    let added = task("job", TaskPriority::High);
    manager.add_task(added.clone()).unwrap();
    manager.ingest_all();
    manager.update_task_status(&added.id, TaskStatus::Canceled).unwrap();
    match manager.dispatch_next() {
        Dispatch::Run { task, .. } => {
            assert_eq!(task.id, added.id);
            assert_eq!(task.status, TaskStatus::Running);
        }
        _ => panic!("the task was not dispatched"),
    }
    assert_eq!(manager.get_task(&added.id).unwrap().status, TaskStatus::Canceled);
}

#[test]
fn task_taken_in_again_never_takes_a_terminal_status_back() {
    let mut manager: TaskManager<Handler> = TaskManager::new();
    let added = task("job", TaskPriority::High);
    manager.add_task(added.clone()).unwrap();
    manager.ingest_all();
    manager.update_task_status(&added.id, TaskStatus::Completed).unwrap();
    manager.add_task(added.clone()).unwrap();
    assert!(manager.ingest_next());
    assert_eq!(manager.get_task(&added.id).unwrap().status, TaskStatus::Completed);
    assert_eq!(manager.get_all_tasks().len(), 1);
    let mut failed = added.clone();
    failed.status = TaskStatus::Failed("again".to_string());
    manager.add_task(failed).unwrap();
    manager.ingest_all();
    assert_eq!(manager.get_task(&added.id).unwrap().status, TaskStatus::Failed("again".to_string()));
}

#[test]
fn retired_task_can_be_taken_in_anew() {
    let mut manager: TaskManager<Handler> = TaskManager::new();
    let added = task("job", TaskPriority::High);
    manager.add_task(added.clone()).unwrap();
    manager.ingest_all();
    manager.update_task_status(&added.id, TaskStatus::Completed).unwrap();
    manager.retire(&added.id);
    manager.add_task(added.clone()).unwrap();
    manager.ingest_all();
    assert_eq!(manager.get_task(&added.id).unwrap().status, TaskStatus::Pending);
}

#[test]
fn task_taken_in_twice_is_tracked_once() {
    let mut manager: TaskManager<Handler> = TaskManager::new();
    let added = task("job", TaskPriority::High);
    let mut again = added.clone();
    again.progress = 10;
    manager.add_task(added.clone()).unwrap();
    manager.add_task(again).unwrap();
    manager.ingest_all();
    assert_eq!(manager.get_all_tasks().len(), 1);
    assert_eq!(manager.get_task(&added.id).unwrap().progress, 10);
}
