use std::cmp::Ordering;
use task_queue::error::Error;
use task_queue::state::TaskQueueState;
use task_queue::task::{Task, TaskOrigin, TaskPriority, TaskStatus, MAX_PROGRESS};

fn sample(priority: TaskPriority) -> Task {
    Task::new("download", TaskOrigin::Frontend, serde_json::Value::Null, priority)
}

#[test]
fn new_task_is_pending_without_progress() {
    let params = serde_json::Value::String("https://example.org/file".to_string());
    let task = Task::new("download", TaskOrigin::Backend, params.clone(), TaskPriority::High);
    assert_eq!(task.task_type, "download");
    assert_eq!(task.origin, TaskOrigin::Backend);
    assert_eq!(task.status, TaskStatus::Pending);
    assert_eq!(task.progress, 0);
    assert_eq!(task.params, params);
    assert_eq!(task.priority, TaskPriority::High);
}

#[test]
fn new_task_keeps_an_unknown_type_and_an_empty_one() {
    let odd = Task::new("no such handler", TaskOrigin::Frontend, serde_json::Value::Null, TaskPriority::Low);
    assert_eq!(odd.task_type, "no such handler");
    let empty = Task::new("", TaskOrigin::Frontend, serde_json::Value::Null, TaskPriority::Low);
    assert_eq!(empty.task_type, "");
}

#[test]
fn identifier_is_a_hyphenated_random_identifier() {
    let task = sample(TaskPriority::Medium);
    let id: Vec<char> = task.id.chars().collect();
    assert_eq!(id.len(), 36);
    for (i, c) in id.iter().enumerate() {
        if i == 8 || i == 13 || i == 18 || i == 23 {
            assert_eq!(*c, '-');
        } else {
            assert!(c.is_ascii_digit() || ('a'..='f').contains(c));
        }
    }
    assert_eq!(id[14], '4');
}

#[test]
fn identifiers_of_two_tasks_differ() {
    let first = sample(TaskPriority::Medium);
    let second = sample(TaskPriority::Medium);
    assert_ne!(first.id, second.id);
}

#[test]
fn tasks_are_equal_when_their_identifiers_are() {
    let first = sample(TaskPriority::High);
    let mut same = first.clone();
    same.task_type = "upload".to_string();
    same.status = TaskStatus::Failed("disk full".to_string());
    same.progress = 40;
    same.priority = TaskPriority::Low;
    assert!(first == same);
    let other = sample(TaskPriority::High);
    assert!(first != other);
}

#[test]
fn clone_keeps_every_field() {
    let mut task = Task::new(
        "resize",
        TaskOrigin::Backend,
        serde_json::Value::Array(vec![serde_json::Value::Bool(true), serde_json::Value::Null]),
        TaskPriority::Low,
    );
    task.status = TaskStatus::Failed("boom".to_string());
    task.progress = 77;
    let copy = task.clone();
    assert_eq!(copy.id, task.id);
    assert_eq!(copy.task_type, "resize");
    assert_eq!(copy.origin, TaskOrigin::Backend);
    assert_eq!(copy.status, TaskStatus::Failed("boom".to_string()));
    assert_eq!(copy.progress, 77);
    assert_eq!(copy.params, task.params);
    assert_eq!(copy.priority, TaskPriority::Low);
}

#[test]
fn more_urgent_task_is_the_greater_one() {
    let high = sample(TaskPriority::High);
    let medium = sample(TaskPriority::Medium);
    let low = sample(TaskPriority::Low);
    assert_eq!(high.cmp(&medium), Ordering::Greater);
    assert_eq!(medium.cmp(&low), Ordering::Greater);
    assert_eq!(low.cmp(&high), Ordering::Less);
    assert_eq!(medium.cmp(&sample(TaskPriority::Medium)), Ordering::Equal);
    assert_eq!(high.partial_cmp(&low), Some(Ordering::Greater));
    assert_eq!(low.partial_cmp(&medium), Some(Ordering::Less));
    assert_eq!(low.partial_cmp(&sample(TaskPriority::Low)), Some(Ordering::Equal));
    assert!(high > medium);
    assert!(low < medium);
}

#[test]
fn priority_levels_are_zero_one_two() {
    assert_eq!(TaskPriority::High.level(), 0);
    assert_eq!(TaskPriority::Medium.level(), 1);
    assert_eq!(TaskPriority::Low.level(), 2);
    assert!(TaskPriority::High < TaskPriority::Medium);
    assert!(TaskPriority::Medium < TaskPriority::Low);
}

#[test]
fn completed_failed_and_canceled_are_terminal() {
    assert!(!TaskStatus::Pending.is_terminal());
    assert!(!TaskStatus::Running.is_terminal());
    assert!(TaskStatus::Completed.is_terminal());
    assert!(TaskStatus::Failed("why".to_string()).is_terminal());
    assert!(TaskStatus::Canceled.is_terminal());
}

#[test]
fn statuses_compare_by_variant_and_reason() {
    assert_eq!(TaskStatus::Pending, TaskStatus::Pending);
    assert_eq!(TaskStatus::Running, TaskStatus::Running);
    assert_eq!(TaskStatus::Completed, TaskStatus::Completed);
    assert_eq!(TaskStatus::Canceled, TaskStatus::Canceled);
    assert_eq!(TaskStatus::Failed("a".to_string()), TaskStatus::Failed("a".to_string()));
    assert_ne!(TaskStatus::Failed("a".to_string()), TaskStatus::Failed("b".to_string()));
    assert_ne!(TaskStatus::Pending, TaskStatus::Running);
    assert_ne!(TaskStatus::Completed, TaskStatus::Canceled);
    assert_eq!(TaskStatus::Failed("a".to_string()).clone(), TaskStatus::Failed("a".to_string()));
}

#[test]
fn largest_progress_is_one_hundred() {
    assert_eq!(MAX_PROGRESS, 100);
}

#[test]
fn task_not_found_has_a_message() {
    assert_eq!(Error::TaskNotFound.message(), "task not found");
    assert_eq!(Error::TaskNotFound, Error::TaskNotFound);
}

#[test]
fn default_state_tracks_nothing() {
    let state = TaskQueueState::default();
    assert_eq!(state.tasks.len(), 0);
    assert!(state.tasks.values().is_empty());
}
