use crate::address::{address_text, find_program_address, program_address, render_address, seed_views, Address};
use crate::error::TaskrError;
use crate::ledger::{
    balance_of, created, indexed, lookup_at, project_at, rewritten, transferred, AccountView,
    Ledger, Record, RecordView,
};
use crate::project::{
    byte_len, fits_record, opened_project, release, release_refusal, Project, MAX_NAME_LEN,
    MAX_PROJECTS,
};
use vstd::prelude::*;
use vstd::utf8::encode_utf8;

verus! {

/// The accounts that a greeting names: none.
#[derive(Clone, Copy, Debug, PartialEq, Eq)]
pub struct Ping {}

/// The accounts that the creation of a project names.
#[derive(Clone, Copy, Debug, PartialEq, Eq)]
pub struct CreateProject {
    /// Where the project record is to be created.
    pub project: Address,
    /// Where the caller's index of projects stands or is to be created.
    pub lookup: Address,
    /// The caller, who deposits and owns the project.
    pub signer: Address,
}

/// The accounts that the completion of a task names.
#[derive(Clone, Copy, Debug, PartialEq, Eq)]
pub struct CompleteTask {
    /// Where the project record stands.
    pub project: Address,
    /// The caller, to whom the share is released.
    pub signer: Address,
}

/// The accounts of a creation, as plain values.
pub struct CreateProjectView {
    pub project: Seq<u8>,
    pub lookup: Seq<u8>,
    pub signer: Seq<u8>,
}

/// The accounts of a completion, as plain values.
pub struct CompleteTaskView {
    pub project: Seq<u8>,
    pub signer: Seq<u8>,
}

impl View for CreateProject {
    type V = CreateProjectView;

    open spec fn view(&self) -> CreateProjectView {
        CreateProjectView { project: self.project@, lookup: self.lookup@, signer: self.signer@ }
    }
}

impl View for CompleteTask {
    type V = CompleteTaskView;

    open spec fn view(&self) -> CompleteTaskView {
        CompleteTaskView { project: self.project@, signer: self.signer@ }
    }
}

/// The bytes of the word `lookup`, which marks the seeds of a lookup record.
pub open spec fn lookup_tag() -> Seq<u8> {
    seq![108u8, 111u8, 111u8, 107u8, 117u8, 112u8]
}

/// The seeds of a project record: its name, then its owner.
pub open spec fn project_seeds(name: Seq<char>, owner: Seq<u8>) -> Seq<Seq<u8>> {
    seq![encode_utf8(name), owner]
}

/// The seeds of an owner's lookup record.
pub open spec fn lookup_seeds(owner: Seq<u8>) -> Seq<Seq<u8>> {
    seq![lookup_tag(), owner]
}

/// The accounts that the host derives for a creation by `signer`.
pub open spec fn create_project_accounts(program: Seq<u8>, signer: Seq<u8>, name: Seq<char>) -> Option<
    CreateProjectView,
> {
    match (
        program_address(project_seeds(name, signer), program),
        program_address(lookup_seeds(signer), program),
    ) {
        (Some(project), Some(lookup)) => Some(CreateProjectView { project, lookup, signer }),
        _ => None,
    }
}

/// The accounts that the host derives for a completion by `signer` on the
/// project `name`: the project stands where its creation put it.
pub open spec fn complete_task_accounts(program: Seq<u8>, signer: Seq<u8>, name: Seq<char>) -> Option<
    CompleteTaskView,
> {
    match program_address(project_seeds(name, signer), program) {
        Some(project) => Some(CompleteTaskView { project, signer }),
        None => None,
    }
}

/// Why a call that names the accounts `named` is turned away, given the
/// accounts that were derived for the caller.
pub open spec fn authorization<V>(named: V, derived: Option<V>) -> Option<TaskrError> {
    match derived {
        None => Some(TaskrError::AddressUnavailable),
        Some(expected) => if expected == named {
            None
        } else {
            Some(TaskrError::Unauthorized)
        },
    }
}

impl CreateProject {
    /// Derives the accounts of a creation by `signer` of the project `name`.
    pub fn resolve(program_id: &Address, signer: &Address, name: &str) -> (found: Option<
        CreateProject,
    >)
        ensures
            match found {
                Some(accounts) => create_project_accounts(program_id@, signer@, name@) == Some(
                    accounts@,
                ),
                None => create_project_accounts(program_id@, signer@, name@) is None,
            },
    {
        let mut seeds: Vec<Vec<u8>> = Vec::new();
        seeds.push(name.as_bytes_vec());
        seeds.push(signer.to_seed());
        assert(seed_views(seeds@) =~= project_seeds(name@, signer@));
        let project = find_program_address(&seeds, program_id);
        let mut tagged: Vec<Vec<u8>> = Vec::new();
        tagged.push(vec![108u8, 111u8, 111u8, 107u8, 117u8, 112u8]);
        tagged.push(signer.to_seed());
        assert(seed_views(tagged@) =~= lookup_seeds(signer@));
        let lookup = find_program_address(&tagged, program_id);
        match (project, lookup) {
            (Some(project), Some(lookup)) => Some(CreateProject { project, lookup, signer: *signer }),
            _ => None,
        }
    }

    /// Checks the accounts that a call names against those derived for the
    /// caller.
    pub fn authorize(&self, derived: &Option<CreateProject>) -> (checked: Result<(), TaskrError>)
        ensures
            match checked {
                Ok(_) => derived is Some && derived.unwrap()@ == self@,
                Err(error) => match derived {
                    None => error == TaskrError::AddressUnavailable,
                    Some(expected) => error == TaskrError::Unauthorized && expected@ != self@,
                },
            },
    {
        match derived {
            None => Err(TaskrError::AddressUnavailable),
            Some(expected) => {
                if expected.project.same(&self.project) && expected.lookup.same(&self.lookup)
                    && expected.signer.same(&self.signer) {
                    Ok(())
                } else {
                    Err(TaskrError::Unauthorized)
                }
            },
        }
    }
}

impl CompleteTask {
    /// Derives the accounts of a completion by `signer` on the project `name`.
    pub fn resolve(program_id: &Address, signer: &Address, name: &str) -> (found: Option<
        CompleteTask,
    >)
        ensures
            match found {
                Some(accounts) => complete_task_accounts(program_id@, signer@, name@) == Some(
                    accounts@,
                ),
                None => complete_task_accounts(program_id@, signer@, name@) is None,
            },
    {
        let mut seeds: Vec<Vec<u8>> = Vec::new();
        seeds.push(name.as_bytes_vec());
        seeds.push(signer.to_seed());
        assert(seed_views(seeds@) =~= project_seeds(name@, signer@));
        match find_program_address(&seeds, program_id) {
            Some(project) => Some(CompleteTask { project, signer: *signer }),
            None => None,
        }
    }

    /// Checks the accounts that a call names against those derived for the
    /// caller.
    pub fn authorize(&self, derived: &Option<CompleteTask>) -> (checked: Result<(), TaskrError>)
        ensures
            match checked {
                Ok(_) => derived is Some && derived.unwrap()@ == self@,
                Err(error) => match derived {
                    None => error == TaskrError::AddressUnavailable,
                    Some(expected) => error == TaskrError::Unauthorized && expected@ != self@,
                },
            },
    {
        match derived {
            None => Err(TaskrError::AddressUnavailable),
            Some(expected) => {
                if expected.project.same(&self.project) && expected.signer.same(&self.signer) {
                    Ok(())
                } else {
                    Err(TaskrError::Unauthorized)
                }
            },
        }
    }
}

/// Why the creation of a project at the accounts `named` is refused, if it
/// is. An occupied project address comes first, then a caller that is the
/// project's own account, then a lookup address that holds something else,
/// then a short balance, then a record that does not fit.
pub open spec fn creation_refusal(
    accounts: Map<Seq<u8>, AccountView>,
    named: CreateProjectView,
    name: Seq<char>,
    task_names: Seq<Seq<char>>,
    amount: nat,
) -> Option<TaskrError> {
    if accounts.dom().contains(named.project) {
        if project_at(accounts, named.project) is Some {
            Some(TaskrError::DuplicateProject)
        } else {
            Some(TaskrError::AlreadyExists)
        }
    } else if named.signer == named.project {
        Some(TaskrError::Unauthorized)
    } else if named.lookup == named.project || (accounts.dom().contains(named.lookup) && lookup_at(
        accounts,
        named.lookup,
    ) is None) {
        Some(TaskrError::AlreadyExists)
    } else if balance_of(accounts, named.signer) < amount {
        Some(TaskrError::InsufficientFunds)
    } else if !fits_record(name, task_names) || (lookup_at(accounts, named.lookup) matches Some(
        projects,
    ) && projects.len() >= MAX_PROJECTS) {
        Some(TaskrError::InputTooLarge)
    } else {
        None
    }
}

/// The accounts after a project has been created at the accounts `named`:
/// the project is listed in the owner's index, its record is stored, and the
/// deposit has moved from the owner's balance into the project's custody.
pub open spec fn with_project(
    accounts: Map<Seq<u8>, AccountView>,
    named: CreateProjectView,
    name: Seq<char>,
    task_names: Seq<Seq<char>>,
    amount: nat,
    creation_time: int,
) -> Map<Seq<u8>, AccountView> {
    transferred(
        created(
            indexed(accounts, named.lookup, named.project),
            named.project,
            RecordView::Project(
                opened_project(name, task_names, amount, named.signer, creation_time),
            ),
        ),
        named.signer,
        named.project,
        amount,
    )
}

/// Why the completion of the task at `task_index` is refused at the
/// accounts `named`, if it is. A caller who does not own a project at the
/// named address comes first, then an index out of range, then a caller
/// that is the project's own account, then a custody that does not cover
/// the share, then a caller's balance without room for it.
pub open spec fn completion_refusal(
    accounts: Map<Seq<u8>, AccountView>,
    named: CompleteTaskView,
    task_index: nat,
) -> Option<TaskrError> {
    match project_at(accounts, named.project) {
        None => Some(TaskrError::Unauthorized),
        Some(project) => if project.owner != named.signer {
            Some(TaskrError::Unauthorized)
        } else if task_index >= project.tasks.len() {
            Some(TaskrError::IndexOutOfRange)
        } else if named.signer == named.project {
            Some(TaskrError::Unauthorized)
        } else {
            release_refusal(
                balance_of(accounts, named.project),
                balance_of(accounts, named.signer),
                project.share(),
            )
        },
    }
}

/// The accounts after the task at `task_index` has been completed: the task
/// is marked, and one share has moved from the project's custody to the
/// caller's balance.
pub open spec fn with_completion(
    accounts: Map<Seq<u8>, AccountView>,
    named: CompleteTaskView,
    task_index: nat,
) -> Map<Seq<u8>, AccountView> {
    let project = project_at(accounts, named.project).unwrap();
    transferred(
        rewritten(
            accounts,
            named.project,
            RecordView::Project(project.with_completed(task_index as int)),
        ),
        named.project,
        named.signer,
        project.share(),
    )
}

/// Why a creation that names the accounts `named` is refused, if it is. A
/// name that is too long comes first, then accounts that are not the ones
/// derived for the caller and the name, then what `creation_refusal` says.
pub open spec fn create_project_refusal(
    program: Seq<u8>,
    accounts: Map<Seq<u8>, AccountView>,
    named: CreateProjectView,
    name: Seq<char>,
    task_names: Seq<Seq<char>>,
    amount: nat,
) -> Option<TaskrError> {
    if byte_len(name) > MAX_NAME_LEN {
        Some(TaskrError::InputTooLarge)
    } else if authorization(named, create_project_accounts(program, named.signer, name)) is Some {
        authorization(named, create_project_accounts(program, named.signer, name))
    } else {
        creation_refusal(accounts, named, name, task_names, amount)
    }
}

/// Why a completion that names the accounts `named` is refused, if it is:
/// a named address that holds no project comes first, then a project that
/// does not stand at the address derived for its name and the caller, then
/// what `completion_refusal` says.
pub open spec fn complete_task_refusal(
    program: Seq<u8>,
    accounts: Map<Seq<u8>, AccountView>,
    named: CompleteTaskView,
    task_index: nat,
) -> Option<TaskrError> {
    match project_at(accounts, named.project) {
        None => Some(TaskrError::Unauthorized),
        Some(project) => if authorization(
            named,
            complete_task_accounts(program, named.signer, project.name),
        ) is Some {
            authorization(named, complete_task_accounts(program, named.signer, project.name))
        } else {
            completion_refusal(accounts, named, task_index)
        },
    }
}

/// The text of the greeting of the program `program`.
pub open spec fn greeting(program: Seq<u8>) -> Seq<char> {
    "\u{1F44B} Greetings from: Taskr, Contract Address: "@ + address_text(program)
}

/// Greets the caller with the program's address. Nothing is changed.
pub fn ping(_ctx: &Ping, program_id: &Address) -> (text: String)
    ensures
        text@ == greeting(program_id@),
{
    let opening = String::from_str("\u{1F44B} Greetings from: Taskr, Contract Address: ");
    opening.concat(render_address(program_id).as_str())
}

/// Creates a project at the named accounts, which are taken to be the
/// caller's: stores the record with every task pending, lists it in the
/// caller's index, and moves the deposit into the project's custody. A
/// refusal changes nothing.
pub fn create_project_at(
    ledger: &mut Ledger,
    ctx: &CreateProject,
    name: String,
    tasks: Vec<String>,
    amount: u64,
    creation_time: i64,
) -> (outcome: Result<(), TaskrError>)
    ensures
        final(ledger).program() == old(ledger).program(),
        match outcome {
            Ok(_) => creation_refusal(old(ledger)@, ctx@, name@, tasks.deep_view(), amount as nat)
                is None && final(ledger)@ == with_project(
                old(ledger)@,
                ctx@,
                name@,
                tasks.deep_view(),
                amount as nat,
                creation_time as int,
            ),
            Err(error) => creation_refusal(
                old(ledger)@,
                ctx@,
                name@,
                tasks.deep_view(),
                amount as nat,
            ) == Some(error) && *final(ledger) == *old(ledger),
        },
{
    match ledger.read(&ctx.project) {
        Some(Record::Project(_)) => {
            return Err(TaskrError::DuplicateProject);
        },
        Some(_) => {
            return Err(TaskrError::AlreadyExists);
        },
        None => {},
    }
    if ctx.signer.same(&ctx.project) {
        return Err(TaskrError::Unauthorized);
    }
    if ctx.lookup.same(&ctx.project) {
        return Err(TaskrError::AlreadyExists);
    }
    match ledger.read(&ctx.lookup) {
        Some(Record::Lookup(_)) => {},
        Some(_) => {
            return Err(TaskrError::AlreadyExists);
        },
        None => {},
    }
    if ledger.balance(&ctx.signer) < amount {
        return Err(TaskrError::InsufficientFunds);
    }
    let project = match Project::new(name, tasks, amount, ctx.signer, creation_time) {
        Ok(project) => project,
        Err(error) => {
            return Err(error);
        },
    };
    match ledger.index_project(&ctx.lookup, ctx.project) {
        Ok(_) => {},
        Err(error) => {
            return Err(error);
        },
    }
    match ledger.create(ctx.project, Record::Project(project)) {
        Ok(_) => ledger.transfer(&ctx.signer, &ctx.project, amount),
        Err(error) => Err(error),
    }
}

/// Creates a project for the caller `ctx.signer`. The accounts that the call
/// names must be the ones derived for the caller and the project's name.
pub fn create_project(
    ledger: &mut Ledger,
    ctx: &CreateProject,
    name: String,
    tasks: Vec<String>,
    amount: u64,
    creation_time: i64,
) -> (outcome: Result<(), TaskrError>)
    ensures
        final(ledger).program() == old(ledger).program(),
        match outcome {
            Ok(_) => create_project_refusal(
                old(ledger).program(),
                old(ledger)@,
                ctx@,
                name@,
                tasks.deep_view(),
                amount as nat,
            ) is None && final(ledger)@ == with_project(
                old(ledger)@,
                ctx@,
                name@,
                tasks.deep_view(),
                amount as nat,
                creation_time as int,
            ),
            Err(error) => create_project_refusal(
                old(ledger).program(),
                old(ledger)@,
                ctx@,
                name@,
                tasks.deep_view(),
                amount as nat,
            ) == Some(error) && *final(ledger) == *old(ledger),
        },
{
    if name.as_str().as_bytes().len() > MAX_NAME_LEN {
        return Err(TaskrError::InputTooLarge);
    }
    let derived = CreateProject::resolve(&ledger.program_id(), &ctx.signer, name.as_str());
    match ctx.authorize(&derived) {
        Ok(_) => create_project_at(ledger, ctx, name, tasks, amount, creation_time),
        Err(error) => Err(error),
    }
}

/// Completes a task of the project at the named address, for the caller who
/// owns it: marks the task and releases one share of the deposit from the
/// project's custody to the caller. Whether the task was complete before is
/// not looked at. A refusal changes nothing.
pub fn complete_task_at(ledger: &mut Ledger, ctx: &CompleteTask, task_index: u64) -> (outcome:
    Result<(), TaskrError>)
    ensures
        final(ledger).program() == old(ledger).program(),
        match outcome {
            Ok(_) => completion_refusal(old(ledger)@, ctx@, task_index as nat) is None
                && final(ledger)@ == with_completion(old(ledger)@, ctx@, task_index as nat),
            Err(error) => completion_refusal(old(ledger)@, ctx@, task_index as nat) == Some(error)
                && *final(ledger) == *old(ledger),
        },
{
    let share: u64 = match ledger.read(&ctx.project) {
        Some(Record::Project(project)) => {
            if !project.owner.same(&ctx.signer) {
                return Err(TaskrError::Unauthorized);
            }
            if task_index >= project.tasks.len() as u64 {
                return Err(TaskrError::IndexOutOfRange);
            }
            project.amount / (project.tasks.len() as u64)
        },
        _ => {
            return Err(TaskrError::Unauthorized);
        },
    };
    if ctx.signer.same(&ctx.project) {
        return Err(TaskrError::Unauthorized);
    }
    match release(ledger.balance(&ctx.project), ledger.balance(&ctx.signer), share) {
        Ok(_) => {},
        Err(error) => {
            return Err(error);
        },
    }
    let released = ledger.mark_complete(&ctx.project, task_index);
    ledger.transfer(&ctx.project, &ctx.signer, released)
}

/// Completes a task of the caller's project. The project that the call names
/// must stand at the address derived from its own name and the caller, which
/// is where its creation put it.
pub fn complete_task(ledger: &mut Ledger, ctx: &CompleteTask, task_index: u64) -> (outcome: Result<
    (),
    TaskrError,
>)
    ensures
        final(ledger).program() == old(ledger).program(),
        match outcome {
            Ok(_) => complete_task_refusal(
                old(ledger).program(),
                old(ledger)@,
                ctx@,
                task_index as nat,
            ) is None && final(ledger)@ == with_completion(old(ledger)@, ctx@, task_index as nat),
            Err(error) => complete_task_refusal(
                old(ledger).program(),
                old(ledger)@,
                ctx@,
                task_index as nat,
            ) == Some(error) && *final(ledger) == *old(ledger),
        },
{
    let derived = match ledger.project(&ctx.project) {
        Some(project) => CompleteTask::resolve(
            &ledger.program_id(),
            &ctx.signer,
            project.name.as_str(),
        ),
        None => {
            return Err(TaskrError::Unauthorized);
        },
    };
    match ctx.authorize(&derived) {
        Ok(_) => complete_task_at(ledger, ctx, task_index),
        Err(error) => Err(error),
    }
}

} // verus!
