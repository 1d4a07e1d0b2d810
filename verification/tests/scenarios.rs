use taskr::{
    complete_task, complete_task_at, create_project, create_project_at, Address, CompleteTask,
    CreateProject, Ledger, TaskrError,
};

fn key(tag: u8) -> Address {
    Address::new([tag; 32])
}

fn texts(list: &[&str]) -> Vec<String> {
    list.iter().map(|text| text.to_string()).collect()
}

fn funded(program: Address, owner: &Address, balance: u64) -> Ledger {
    let mut ledger = Ledger::new(program);
    assert_eq!(ledger.deposit(owner, balance), Ok(()));
    ledger
}

#[test]
fn nine_units_over_three_tasks_release_three_each() {
    let owner = key(7);
    let mut ledger = funded(key(1), &owner, 20);
    let accounts = CreateProject { project: key(50), lookup: key(51), signer: owner };
    assert_eq!(
        create_project_at(&mut ledger, &accounts, "p".to_string(), texts(&["A", "B", "C"]), 9, 1_700_000_000),
        Ok(())
    );
    assert_eq!(ledger.balance(&key(50)), 9);
    assert_eq!(ledger.balance(&owner), 11);

    let named = CompleteTask { project: key(50), signer: owner };
    assert_eq!(complete_task_at(&mut ledger, &named, 0), Ok(()));
    assert_eq!(ledger.balance(&key(50)), 6);
    assert_eq!(ledger.balance(&owner), 14);

    assert_eq!(complete_task_at(&mut ledger, &named, 2), Ok(()));
    assert_eq!(ledger.balance(&key(50)), 3);
    assert_eq!(ledger.balance(&owner), 17);

    let project = ledger.project(&key(50)).unwrap();
    assert!(project.tasks[0].completed);
    assert!(!project.tasks[1].completed);
    assert!(project.tasks[2].completed);
    assert_eq!(project.amount, 9);
}

#[test]
fn nine_units_over_three_tasks_through_derived_accounts() {
    let program = key(1);
    let owner = key(7);
    let mut ledger = funded(program, &owner, 9);
    let accounts = CreateProject::resolve(&program, &owner, "p").unwrap();
    assert_eq!(
        create_project(&mut ledger, &accounts, "p".to_string(), texts(&["A", "B", "C"]), 9, 42),
        Ok(())
    );
    let named = CompleteTask::resolve(&program, &owner, "p").unwrap();
    assert_eq!(named.project, accounts.project);
    assert_eq!(complete_task(&mut ledger, &named, 0), Ok(()));
    assert_eq!(ledger.balance(&named.project), 6);
    assert_eq!(complete_task(&mut ledger, &named, 2), Ok(()));
    assert_eq!(ledger.balance(&named.project), 3);
    assert_eq!(ledger.balance(&owner), 6);
    let project = ledger.project(&named.project).unwrap();
    assert!(!project.tasks[1].completed);
}

#[test]
fn second_creation_under_the_same_name_is_a_duplicate() {
    let program = key(1);
    let owner = key(7);
    let mut ledger = funded(program, &owner, 100);
    let accounts = CreateProject::resolve(&program, &owner, "p").unwrap();
    assert_eq!(
        create_project(&mut ledger, &accounts, "p".to_string(), texts(&["t1"]), 10, 5),
        Ok(())
    );
    let again = CreateProject::resolve(&program, &owner, "p").unwrap();
    assert_eq!(again, accounts);
    assert_eq!(
        create_project(&mut ledger, &again, "p".to_string(), texts(&["t2"]), 5, 6),
        Err(TaskrError::DuplicateProject)
    );
    let index = ledger.lookup(&accounts.lookup).unwrap();
    assert_eq!(index.projects, vec![accounts.project]);
    let project = ledger.project(&accounts.project).unwrap();
    assert_eq!(project.name, "p");
    assert_eq!(project.tasks.len(), 1);
    assert_eq!(project.tasks[0].name, "t1");
    assert_eq!(project.amount, 10);
    assert_eq!(project.creation_time, 5);
    assert_eq!(ledger.balance(&accounts.project), 10);
    assert_eq!(ledger.balance(&owner), 90);
}

#[test]
fn index_five_of_two_tasks_is_out_of_range() {
    let owner = key(7);
    let mut ledger = funded(key(1), &owner, 10);
    let accounts = CreateProject { project: key(50), lookup: key(51), signer: owner };
    assert_eq!(
        create_project_at(&mut ledger, &accounts, "two".to_string(), texts(&["a", "b"]), 10, 0),
        Ok(())
    );
    let named = CompleteTask { project: key(50), signer: owner };
    assert_eq!(complete_task_at(&mut ledger, &named, 5), Err(TaskrError::IndexOutOfRange));
    assert_eq!(ledger.balance(&key(50)), 10);
    assert_eq!(ledger.balance(&owner), 0);
    let project = ledger.project(&key(50)).unwrap();
    assert!(!project.tasks[0].completed);
    assert!(!project.tasks[1].completed);
}

#[test]
fn completing_twice_releases_twice_until_custody_runs_out() {
    let owner = key(7);
    let mut ledger = funded(key(1), &owner, 9);
    let accounts = CreateProject { project: key(50), lookup: key(51), signer: owner };
    assert_eq!(
        create_project_at(&mut ledger, &accounts, "p".to_string(), texts(&["A", "B", "C"]), 9, 0),
        Ok(())
    );
    let named = CompleteTask { project: key(50), signer: owner };
    assert_eq!(complete_task_at(&mut ledger, &named, 1), Ok(()));
    assert_eq!(complete_task_at(&mut ledger, &named, 1), Ok(()));
    assert_eq!(ledger.balance(&key(50)), 3);
    assert_eq!(complete_task_at(&mut ledger, &named, 1), Ok(()));
    assert_eq!(ledger.balance(&key(50)), 0);
    assert_eq!(ledger.balance(&owner), 9);
    assert_eq!(complete_task_at(&mut ledger, &named, 1), Err(TaskrError::InsufficientCustody));
    assert_eq!(complete_task_at(&mut ledger, &named, 0), Err(TaskrError::InsufficientCustody));
    assert_eq!(ledger.balance(&key(50)), 0);
    assert_eq!(ledger.balance(&owner), 9);
    let project = ledger.project(&key(50)).unwrap();
    assert!(!project.tasks[0].completed);
    assert!(project.tasks[1].completed);
}

#[test]
fn every_task_once_leaves_the_remainder_in_custody() {
    let owner = key(7);
    let mut ledger = funded(key(1), &owner, 10);
    let accounts = CreateProject { project: key(50), lookup: key(51), signer: owner };
    assert_eq!(
        create_project_at(&mut ledger, &accounts, "p".to_string(), texts(&["A", "B", "C"]), 10, 0),
        Ok(())
    );
    let named = CompleteTask { project: key(50), signer: owner };
    for index in [2u64, 0, 1] {
        assert_eq!(complete_task_at(&mut ledger, &named, index), Ok(()));
    }
    assert_eq!(ledger.balance(&owner), 9);
    assert_eq!(ledger.balance(&key(50)), 1);
    let project = ledger.project(&key(50)).unwrap();
    assert!(project.tasks.iter().all(|task| task.completed));
}

fn created(ledger: &mut Ledger, program: &Address, owner: &Address, name: &str, tasks: &[&str], amount: u64) -> CompleteTask {
    let accounts = CreateProject::resolve(program, owner, name).unwrap();
    assert_eq!(
        create_project(ledger, &accounts, name.to_string(), texts(tasks), amount, 0),
        Ok(())
    );
    CompleteTask { project: accounts.project, signer: *owner }
}

#[test]
fn a_named_project_is_completed_by_its_owner() {
    let program = key(1);
    let owner = key(7);
    let mut ledger = funded(program, &owner, 10);
    let named = created(&mut ledger, &program, &owner, "named", &["a"], 10);
    assert_eq!(CompleteTask::resolve(&program, &owner, "named"), Some(named));
    assert_eq!(complete_task(&mut ledger, &named, 0), Ok(()));
    assert_eq!(ledger.balance(&named.project), 0);
    assert_eq!(ledger.balance(&owner), 10);
    assert!(ledger.project(&named.project).unwrap().tasks[0].completed);
}

#[test]
fn each_of_an_owners_projects_is_completed_on_its_own() {
    let program = key(1);
    let owner = key(7);
    let mut ledger = funded(program, &owner, 30);
    let p = created(&mut ledger, &program, &owner, "p", &["a", "b"], 10);
    let e = created(&mut ledger, &program, &owner, "e", &["a", "b", "c"], 20);
    let unnamed = created(&mut ledger, &program, &owner, "", &[], 0);
    assert_ne!(p.project, e.project);
    assert_eq!(complete_task(&mut ledger, &e, 2), Ok(()));
    assert_eq!(ledger.balance(&e.project), 14);
    assert_eq!(ledger.balance(&p.project), 10);
    assert_eq!(complete_task(&mut ledger, &p, 1), Ok(()));
    assert_eq!(ledger.balance(&p.project), 5);
    assert_eq!(ledger.balance(&owner), 11);
    assert_eq!(complete_task(&mut ledger, &unnamed, 0), Err(TaskrError::IndexOutOfRange));
    assert!(!ledger.project(&p.project).unwrap().tasks[0].completed);
    assert!(ledger.project(&e.project).unwrap().tasks[2].completed);
}

#[test]
fn an_index_out_of_range_is_refused_through_complete_task() {
    let program = key(1);
    let owner = key(7);
    let mut ledger = funded(program, &owner, 10);
    let named = created(&mut ledger, &program, &owner, "p", &["a", "b"], 10);
    for index in [2u64, 5, 1 << 32, u64::MAX] {
        assert_eq!(complete_task(&mut ledger, &named, index), Err(TaskrError::IndexOutOfRange));
    }
    assert_eq!(ledger.balance(&named.project), 10);
    assert_eq!(ledger.balance(&owner), 0);
    let project = ledger.project(&named.project).unwrap();
    assert!(project.tasks.iter().all(|task| !task.completed));
}

#[test]
fn every_task_once_through_complete_task_leaves_the_remainder() {
    let program = key(1);
    let owner = key(7);
    let mut ledger = funded(program, &owner, 15);
    let named = created(&mut ledger, &program, &owner, "e", &["a", "b", "c"], 10);
    for index in [1u64, 2, 0] {
        assert_eq!(complete_task(&mut ledger, &named, index), Ok(()));
    }
    assert_eq!(ledger.balance(&named.project), 1);
    assert_eq!(ledger.balance(&owner), 14);
    let project = ledger.project(&named.project).unwrap();
    assert!(project.tasks.iter().all(|task| task.completed));
    assert_eq!(project.amount, 10);
}

#[test]
fn completing_twice_through_complete_task_runs_custody_out() {
    let program = key(1);
    let owner = key(7);
    let mut ledger = funded(program, &owner, 9);
    let named = created(&mut ledger, &program, &owner, "p", &["A", "B", "C"], 9);
    assert_eq!(complete_task(&mut ledger, &named, 0), Ok(()));
    assert_eq!(ledger.balance(&named.project), 6);
    assert_eq!(complete_task(&mut ledger, &named, 2), Ok(()));
    assert_eq!(ledger.balance(&named.project), 3);
    assert_eq!(complete_task(&mut ledger, &named, 2), Ok(()));
    assert_eq!(ledger.balance(&named.project), 0);
    assert_eq!(complete_task(&mut ledger, &named, 1), Err(TaskrError::InsufficientCustody));
    assert_eq!(ledger.balance(&owner), 9);
    assert!(!ledger.project(&named.project).unwrap().tasks[1].completed);
}

#[test]
fn a_project_is_not_completed_by_another_caller() {
    let program = key(1);
    let owner = key(7);
    let mut ledger = funded(program, &owner, 10);
    let named = created(&mut ledger, &program, &owner, "p", &["a"], 10);
    let stranger = CompleteTask { project: named.project, signer: key(8) };
    assert_eq!(complete_task(&mut ledger, &stranger, 0), Err(TaskrError::Unauthorized));
    let elsewhere = CompleteTask::resolve(&program, &key(8), "p").unwrap();
    assert_ne!(elsewhere.project, named.project);
    assert_eq!(complete_task(&mut ledger, &elsewhere, 0), Err(TaskrError::Unauthorized));
    assert_eq!(ledger.balance(&named.project), 10);
    assert!(!ledger.project(&named.project).unwrap().tasks[0].completed);
}

#[test]
fn a_project_away_from_its_derived_address_is_not_served() {
    let program = key(1);
    let owner = key(7);
    let mut ledger = funded(program, &owner, 10);
    let accounts = CreateProject { project: key(50), lookup: key(51), signer: owner };
    assert_eq!(
        create_project_at(&mut ledger, &accounts, "p".to_string(), texts(&["a"]), 10, 0),
        Ok(())
    );
    let named = CompleteTask { project: key(50), signer: owner };
    assert_eq!(complete_task(&mut ledger, &named, 0), Err(TaskrError::Unauthorized));
    assert_eq!(complete_task(&mut ledger, &named, 9), Err(TaskrError::Unauthorized));
    assert_eq!(ledger.balance(&key(50)), 10);
    assert_eq!(complete_task_at(&mut ledger, &named, 0), Ok(()));
}
