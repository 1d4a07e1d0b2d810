use crate::address::Address;
use crate::error::TaskrError;
use vstd::prelude::*;
use vstd::utf8::encode_utf8;

verus! {

/// Most bytes that a project's or a task's name may take.
pub const MAX_NAME_LEN: usize = 30;

/// Most tasks that a project may hold.
pub const MAX_TASKS: usize = 30;

/// Most project addresses that a lookup record may hold.
pub const MAX_PROJECTS: usize = 30;

/// Number of bytes that a text takes when stored.
pub open spec fn byte_len(text: Seq<char>) -> nat {
    encode_utf8(text).len()
}

/// One unit of deliverable work inside a project.
#[derive(Clone, Debug, PartialEq, Eq)]
pub struct Task {
    pub name: String,
    pub completed: bool,
    pub pow: Option<String>,
}

/// What a task is, as plain values.
pub struct TaskView {
    pub name: Seq<char>,
    pub completed: bool,
    pub pow: Option<Seq<char>>,
}

impl View for Task {
    type V = TaskView;

    open spec fn view(&self) -> TaskView {
        TaskView {
            name: self.name@,
            completed: self.completed,
            pow: match self.pow {
                Some(text) => Some(text@),
                None => None,
            },
        }
    }
}

/// The task called `name` that nobody has completed yet.
pub open spec fn pending_task(name: Seq<char>) -> TaskView {
    TaskView { name, completed: false, pow: None }
}

/// The pending tasks called `names`, in the same order.
pub open spec fn pending_tasks(names: Seq<Seq<char>>) -> Seq<TaskView> {
    Seq::new(names.len(), |i: int| pending_task(names[i]))
}

/// The views of the tasks in `tasks`, in the same order.
pub open spec fn task_views(tasks: Seq<Task>) -> Seq<TaskView> {
    Seq::new(tasks.len(), |i: int| tasks[i]@)
}

impl Task {
    /// A task that nobody has completed yet.
    pub fn new(name: String) -> (task: Task)
        ensures
            task@ == pending_task(name@),
    {
        Task { name, completed: false, pow: None }
    }
}

/// One funded unit of work: a deposit split evenly over its tasks.
#[derive(Clone, Debug, PartialEq, Eq)]
pub struct Project {
    pub tasks: Vec<Task>,
    pub name: String,
    pub amount: u64,
    pub owner: Address,
    pub creation_time: i64,
}

/// What a project is, as plain values.
pub struct ProjectView {
    pub tasks: Seq<TaskView>,
    pub name: Seq<char>,
    pub amount: nat,
    pub owner: Seq<u8>,
    pub creation_time: int,
}

impl View for Project {
    type V = ProjectView;

    open spec fn view(&self) -> ProjectView {
        ProjectView {
            tasks: task_views(self.tasks@),
            name: self.name@,
            amount: self.amount as nat,
            owner: self.owner@,
            creation_time: self.creation_time as int,
        }
    }
}

/// Whether a project of this name with these tasks fits a project record.
pub open spec fn fits_record(name: Seq<char>, task_names: Seq<Seq<char>>) -> bool {
    &&& byte_len(name) <= MAX_NAME_LEN
    &&& task_names.len() <= MAX_TASKS
    &&& forall|i: int| 0 <= i < task_names.len() ==> byte_len(#[trigger] task_names[i]) <= MAX_NAME_LEN
}

/// The project that a deposit of `amount` by `owner` opens.
pub open spec fn opened_project(
    name: Seq<char>,
    task_names: Seq<Seq<char>>,
    amount: nat,
    owner: Seq<u8>,
    creation_time: int,
) -> ProjectView {
    ProjectView { tasks: pending_tasks(task_names), name, amount, owner, creation_time }
}

impl ProjectView {
    /// What the completion of one task releases: the deposit divided by the
    /// number of tasks, rounded down. A project without tasks releases nothing.
    pub open spec fn share(self) -> nat {
        if self.tasks.len() == 0 {
            0
        } else {
            self.amount / self.tasks.len()
        }
    }

    /// The project after the task at `index` has been marked complete.
    pub open spec fn with_completed(self, index: int) -> ProjectView {
        ProjectView {
            tasks: self.tasks.update(
                index,
                TaskView { completed: true, ..self.tasks[index] },
            ),
            ..self
        }
    }
}

/// Whether every name in `names` takes at most `MAX_NAME_LEN` bytes.
fn names_fit(names: &Vec<String>) -> (fit: bool)
    ensures
        fit == forall|i: int|
            0 <= i < names.len() ==> byte_len(#[trigger] names.deep_view()[i]) <= MAX_NAME_LEN,
{
    let mut i: usize = 0;
    while i < names.len()
        invariant
            i <= names.len(),
            forall|j: int| 0 <= j < i ==> byte_len(#[trigger] names.deep_view()[j]) <= MAX_NAME_LEN,
        decreases names.len() - i,
    {
        if names[i].as_str().as_bytes().len() > MAX_NAME_LEN {
            assert(byte_len(names.deep_view()[i as int]) > MAX_NAME_LEN);
            return false;
        }
        i += 1;
    }
    true
}

impl Project {
    /// Opens a project: every task starts out pending. Refuses a name or a
    /// task list that does not fit a project record.
    pub fn new(
        name: String,
        task_names: Vec<String>,
        amount: u64,
        owner: Address,
        creation_time: i64,
    ) -> (opened: Result<Project, TaskrError>)
        ensures
            match opened {
                Ok(project) => fits_record(name@, task_names.deep_view()) && project@
                    == opened_project(
                    name@,
                    task_names.deep_view(),
                    amount as nat,
                    owner@,
                    creation_time as int,
                ),
                Err(error) => error == TaskrError::InputTooLarge && !fits_record(
                    name@,
                    task_names.deep_view(),
                ),
            },
    {
        if name.as_str().as_bytes().len() > MAX_NAME_LEN || task_names.len() > MAX_TASKS || !names_fit(
            &task_names,
        ) {
            return Err(TaskrError::InputTooLarge);
        }
        let ghost names = task_names.deep_view();
        let mut tasks: Vec<Task> = Vec::new();
        for task_name in iter: task_names
            invariant
                iter.seq().len() == names.len(),
                forall|j: int| 0 <= j < names.len() ==> (#[trigger] iter.seq()[j])@ == names[j],
                tasks.len() == iter.index(),
                forall|j: int| 0 <= j < tasks.len() ==> (#[trigger] tasks[j])@ == pending_task(names[j]),
        {
            tasks.push(Task::new(task_name));
        }
        let project = Project { tasks, name, amount, owner, creation_time };
        assert(project@.tasks =~= pending_tasks(names));
        Ok(project)
    }

    /// Marks the task at `task_index` complete and returns the share that its
    /// completion releases. A task that is already complete is marked again,
    /// and its share is returned again.
    pub fn complete_task(&mut self, task_index: u64) -> (released: Result<u64, TaskrError>)
        ensures
            match released {
                Ok(share) => {
                    &&& task_index < old(self)@.tasks.len()
                    &&& share == old(self)@.share()
                    &&& final(self)@ == old(self)@.with_completed(task_index as int)
                },
                Err(error) => {
                    &&& error == TaskrError::IndexOutOfRange
                    &&& task_index >= old(self)@.tasks.len()
                    &&& *final(self) == *old(self)
                },
            },
    {
        if task_index >= self.tasks.len() as u64 {
            return Err(TaskrError::IndexOutOfRange);
        }
        let index: usize = task_index as usize;
        let share: u64 = self.amount / (self.tasks.len() as u64);
        self.tasks[index].completed = true;
        assert(self@.tasks =~= old(self)@.with_completed(task_index as int).tasks);
        Ok(share)
    }
}

/// Why the release of `share` from a custody of `custody` to a balance of
/// `balance` is refused, if it is: a custody that does not cover the share
/// comes first, then a balance without room for it.
pub open spec fn release_refusal(custody: nat, balance: nat, share: nat) -> Option<TaskrError> {
    if custody < share {
        Some(TaskrError::InsufficientCustody)
    } else if balance + share > u64::MAX {
        Some(TaskrError::ArithmeticOverflow)
    } else {
        None
    }
}

/// Releases `share` from a project's custody to its owner's balance, which
/// are two different accounts: returns what the custody and the balance
/// become, or refuses and moves nothing.
pub fn release(custody: u64, balance: u64, share: u64) -> (moved: Result<(u64, u64), TaskrError>)
    ensures
        match moved {
            Ok((left, gained)) => {
                &&& release_refusal(custody as nat, balance as nat, share as nat) is None
                &&& left == custody - share
                &&& gained == balance + share
            },
            Err(error) => release_refusal(custody as nat, balance as nat, share as nat) == Some(
                error,
            ),
        },
{
    if custody < share {
        return Err(TaskrError::InsufficientCustody);
    }
    if u64::MAX - balance < share {
        return Err(TaskrError::ArithmeticOverflow);
    }
    Ok((custody - share, balance + share))
}

/// The per-owner index of project addresses: an append-only log.
#[derive(Clone, Debug, PartialEq, Eq)]
pub struct Lookup {
    pub projects: Vec<Address>,
}

/// The views of the addresses in `addresses`, in the same order.
pub open spec fn address_views(addresses: Seq<Address>) -> Seq<Seq<u8>> {
    Seq::new(addresses.len(), |i: int| addresses[i]@)
}

impl View for Lookup {
    type V = Seq<Seq<u8>>;

    open spec fn view(&self) -> Seq<Seq<u8>> {
        address_views(self.projects@)
    }
}

impl Lookup {
    /// A lookup record that lists no project.
    pub fn new() -> (lookup: Lookup)
        ensures
            lookup@ == Seq::<Seq<u8>>::empty(),
    {
        let lookup = Lookup { projects: Vec::new() };
        lookup
    }

    /// Appends a project's address. Refuses when the record is full.
    pub fn append(&mut self, project: Address) -> (appended: Result<(), TaskrError>)
        ensures
            match appended {
                Ok(_) => old(self)@.len() < MAX_PROJECTS && final(self)@ == old(self)@.push(
                    project@,
                ),
                Err(error) => error == TaskrError::InputTooLarge && old(self)@.len()
                    >= MAX_PROJECTS && *final(self) == *old(self),
            },
    {
        if self.projects.len() >= MAX_PROJECTS {
            return Err(TaskrError::InputTooLarge);
        }
        self.projects.push(project);
        Ok(())
    }
}

} // verus!
