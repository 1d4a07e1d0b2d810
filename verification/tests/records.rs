use taskr::{release, Address, Lookup, Project, Task, TaskrError};

fn owner() -> Address {
    Address::new([9; 32])
}

fn named(count: usize) -> Vec<String> {
    (0..count).map(|i| format!("task{}", i)).collect()
}

#[test]
fn a_new_task_is_pending() {
    let task = Task::new("write".to_string());
    assert_eq!(task.name, "write");
    assert!(!task.completed);
    assert_eq!(task.pow, None);
}

#[test]
fn a_new_project_keeps_what_it_was_given() {
    let project = Project::new("site".to_string(), named(3), 90, owner(), -5).unwrap();
    assert_eq!(project.name, "site");
    assert_eq!(project.amount, 90);
    assert_eq!(project.owner, owner());
    assert_eq!(project.creation_time, -5);
    assert_eq!(project.tasks.len(), 3);
    for (i, task) in project.tasks.iter().enumerate() {
        assert_eq!(task.name, format!("task{}", i));
        assert!(!task.completed);
        assert_eq!(task.pow, None);
    }
}

#[test]
fn a_project_may_have_no_tasks() {
    let mut project = Project::new(String::new(), Vec::new(), 5, owner(), 0).unwrap();
    assert!(project.tasks.is_empty());
    assert_eq!(project.complete_task(0), Err(TaskrError::IndexOutOfRange));
}

#[test]
fn names_of_thirty_bytes_fit() {
    let name = "n".repeat(30);
    let tasks = vec!["t".repeat(30); 30];
    let project = Project::new(name.clone(), tasks, 1, owner(), 0).unwrap();
    assert_eq!(project.name, name);
    assert_eq!(project.tasks.len(), 30);
}

#[test]
fn a_name_of_thirty_one_bytes_is_too_large() {
    let opened = Project::new("n".repeat(31), named(1), 1, owner(), 0);
    assert_eq!(opened, Err(TaskrError::InputTooLarge));
}

#[test]
fn thirty_one_tasks_are_too_many() {
    let opened = Project::new("p".to_string(), named(31), 1, owner(), 0);
    assert_eq!(opened, Err(TaskrError::InputTooLarge));
}

#[test]
fn a_task_name_of_thirty_one_bytes_is_too_large() {
    let mut tasks = named(4);
    tasks[3] = "t".repeat(31);
    let opened = Project::new("p".to_string(), tasks, 1, owner(), 0);
    assert_eq!(opened, Err(TaskrError::InputTooLarge));
}

#[test]
fn length_counts_bytes_not_characters() {
    let fifteen = "\u{e9}".repeat(15);
    assert_eq!(fifteen.len(), 30);
    assert!(Project::new(fifteen, Vec::new(), 0, owner(), 0).is_ok());
    let sixteen = "\u{e9}".repeat(16);
    assert_eq!(sixteen.chars().count(), 16);
    assert_eq!(
        Project::new(sixteen, Vec::new(), 0, owner(), 0),
        Err(TaskrError::InputTooLarge)
    );
}

#[test]
fn the_share_is_the_amount_divided_by_the_tasks_rounded_down() {
    let mut project = Project::new("p".to_string(), named(3), 10, owner(), 0).unwrap();
    assert_eq!(project.complete_task(1), Ok(3));
    let mut small = Project::new("p".to_string(), named(3), 2, owner(), 0).unwrap();
    assert_eq!(small.complete_task(0), Ok(0));
    let mut single = Project::new("p".to_string(), named(1), u64::MAX, owner(), 0).unwrap();
    assert_eq!(single.complete_task(0), Ok(u64::MAX));
}

#[test]
fn completing_marks_only_the_task_at_the_index() {
    let mut project = Project::new("p".to_string(), named(3), 9, owner(), 0).unwrap();
    let before = project.clone();
    assert_eq!(project.complete_task(2), Ok(3));
    assert!(project.tasks[2].completed);
    assert_eq!(project.tasks[0], before.tasks[0]);
    assert_eq!(project.tasks[1], before.tasks[1]);
    assert_eq!(project.tasks[2].name, before.tasks[2].name);
    assert_eq!(project.amount, 9);
    assert_eq!(project.name, before.name);
    assert_eq!(project.owner, before.owner);
}

#[test]
fn completing_again_returns_the_share_again() {
    let mut project = Project::new("p".to_string(), named(2), 8, owner(), 0).unwrap();
    assert_eq!(project.complete_task(0), Ok(4));
    let marked = project.clone();
    assert_eq!(project.complete_task(0), Ok(4));
    assert_eq!(project, marked);
}

#[test]
fn an_index_at_or_past_the_end_changes_nothing() {
    let mut project = Project::new("p".to_string(), named(2), 8, owner(), 0).unwrap();
    let before = project.clone();
    assert_eq!(project.complete_task(2), Err(TaskrError::IndexOutOfRange));
    assert_eq!(project.complete_task(u64::MAX), Err(TaskrError::IndexOutOfRange));
    assert_eq!(project, before);
}

#[test]
fn a_lookup_appends_in_order() {
    let mut index = Lookup::new();
    assert!(index.projects.is_empty());
    assert_eq!(index.append(Address::new([1; 32])), Ok(()));
    assert_eq!(index.append(Address::new([2; 32])), Ok(()));
    assert_eq!(index.append(Address::new([1; 32])), Ok(()));
    assert_eq!(
        index.projects,
        vec![Address::new([1; 32]), Address::new([2; 32]), Address::new([1; 32])]
    );
}

#[test]
fn a_lookup_holds_thirty_addresses_and_no_more() {
    let mut index = Lookup::new();
    for i in 0..30u8 {
        assert_eq!(index.append(Address::new([i; 32])), Ok(()));
    }
    let full = index.clone();
    assert_eq!(index.append(Address::new([99; 32])), Err(TaskrError::InputTooLarge));
    assert_eq!(index, full);
}

#[test]
fn addresses_are_the_same_when_their_bytes_are() {
    let mut bytes = [3u8; 32];
    let a = Address::new(bytes);
    assert!(a.same(&Address::new([3; 32])));
    bytes[31] = 4;
    assert!(!a.same(&Address::new(bytes)));
    bytes[31] = 3;
    bytes[0] = 0;
    assert!(!a.same(&Address::new(bytes)));
    assert_eq!(a.to_seed(), vec![3u8; 32]);
}

#[test]
fn a_release_moves_the_share_from_custody_to_balance() {
    assert_eq!(release(9, 11, 3), Ok((6, 14)));
    assert_eq!(release(3, 0, 3), Ok((0, 3)));
    assert_eq!(release(0, 5, 0), Ok((0, 5)));
    assert_eq!(release(u64::MAX, 0, u64::MAX), Ok((0, u64::MAX)));
}

#[test]
fn a_release_is_refused_when_custody_is_short() {
    assert_eq!(release(2, 0, 3), Err(TaskrError::InsufficientCustody));
    assert_eq!(release(0, 0, 1), Err(TaskrError::InsufficientCustody));
    assert_eq!(release(2, u64::MAX, 3), Err(TaskrError::InsufficientCustody));
}

#[test]
fn a_release_is_refused_when_the_balance_has_no_room() {
    assert_eq!(release(10, u64::MAX - 2, 3), Err(TaskrError::ArithmeticOverflow));
    assert_eq!(release(10, u64::MAX - 3, 3), Ok((7, u64::MAX)));
    assert_eq!(release(10, u64::MAX, 0), Ok((10, u64::MAX)));
}
