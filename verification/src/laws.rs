use crate::error::TaskrError;
use crate::address::program_address;
use crate::instructions::{
    authorization, complete_task_refusal, completion_refusal, create_project_accounts,
    create_project_refusal, creation_refusal, project_seeds, with_completion, with_project,
    CompleteTaskView, CreateProjectView,
};
use crate::ledger::{balance_of, project_at, AccountView};
use crate::project::opened_project;
use vstd::prelude::*;

verus! {

/// A created project holds exactly its deposit: once a creation has gone
/// through, the record stored at the project's address is the one that was
/// opened, the custody at that address equals the project's amount, and the
/// owner's balance, which is another account, is lower by that amount.
pub proof fn law_custody_at_creation(
    accounts: Map<Seq<u8>, AccountView>,
    named: CreateProjectView,
    name: Seq<char>,
    task_names: Seq<Seq<char>>,
    amount: nat,
    creation_time: int,
)
    requires
        creation_refusal(accounts, named, name, task_names, amount) is None,
    ensures
        project_at(
            with_project(accounts, named, name, task_names, amount, creation_time),
            named.project,
        ) == Some(opened_project(name, task_names, amount, named.signer, creation_time)),
        balance_of(
            with_project(accounts, named, name, task_names, amount, creation_time),
            named.project,
        ) == amount,
        balance_of(
            with_project(accounts, named, name, task_names, amount, creation_time),
            named.signer,
        ) + amount == balance_of(accounts, named.signer),
        named.signer != named.project,
{
}

/// A project is created once: after a creation has gone through, every
/// further creation that names the same project address is refused as a
/// duplicate, whatever else it asks for.
pub proof fn law_second_creation_is_refused(
    accounts: Map<Seq<u8>, AccountView>,
    first: CreateProjectView,
    name: Seq<char>,
    task_names: Seq<Seq<char>>,
    amount: nat,
    creation_time: int,
    second: CreateProjectView,
    second_name: Seq<char>,
    second_task_names: Seq<Seq<char>>,
    second_amount: nat,
)
    requires
        creation_refusal(accounts, first, name, task_names, amount) is None,
        second.project == first.project,
    ensures
        creation_refusal(
            with_project(accounts, first, name, task_names, amount, creation_time),
            second,
            second_name,
            second_task_names,
            second_amount,
        ) == Some(TaskrError::DuplicateProject),
{
    law_custody_at_creation(accounts, first, name, task_names, amount, creation_time);
}

/// The same owner cannot create the same name twice: after a creation by an
/// owner under a name has gone through, a second creation by that owner under
/// that name, at the accounts derived for it, is refused as a duplicate.
pub proof fn law_same_owner_and_name_is_refused(
    program: Seq<u8>,
    accounts: Map<Seq<u8>, AccountView>,
    first: CreateProjectView,
    name: Seq<char>,
    task_names: Seq<Seq<char>>,
    amount: nat,
    creation_time: int,
    second: CreateProjectView,
    second_task_names: Seq<Seq<char>>,
    second_amount: nat,
)
    requires
        create_project_refusal(program, accounts, first, name, task_names, amount) is None,
        second.signer == first.signer,
        authorization(second, create_project_accounts(program, second.signer, name)) is None,
    ensures
        create_project_refusal(
            program,
            with_project(accounts, first, name, task_names, amount, creation_time),
            second,
            name,
            second_task_names,
            second_amount,
        ) == Some(TaskrError::DuplicateProject),
{
    law_custody_at_creation(accounts, first, name, task_names, amount, creation_time);
}

/// An index that names no task is always refused to the project's owner as
/// out of range, whatever the custody and the balances are.
pub proof fn law_index_out_of_range(
    accounts: Map<Seq<u8>, AccountView>,
    named: CompleteTaskView,
    task_index: nat,
)
    requires
        project_at(accounts, named.project) is Some,
        project_at(accounts, named.project).unwrap().owner == named.signer,
        task_index >= project_at(accounts, named.project).unwrap().tasks.len(),
    ensures
        completion_refusal(accounts, named, task_index) == Some(TaskrError::IndexOutOfRange),
{
}

/// Completing a task a second time is not prevented: after a completion has
/// gone through, the same completion either goes through again and releases
/// one more share, or is refused because the custody no longer covers a
/// share. The caller's balance is taken to have room for two shares.
pub proof fn law_second_completion(
    accounts: Map<Seq<u8>, AccountView>,
    named: CompleteTaskView,
    task_index: nat,
)
    requires
        completion_refusal(accounts, named, task_index) is None,
        balance_of(accounts, named.signer) + 2 * project_at(
            accounts,
            named.project,
        ).unwrap().share() <= u64::MAX,
    ensures
        ({
            let share = project_at(accounts, named.project).unwrap().share();
            let once = with_completion(accounts, named, task_index);
            let twice = with_completion(once, named, task_index);
            if balance_of(accounts, named.project) >= 2 * share {
                &&& completion_refusal(once, named, task_index) is None
                &&& balance_of(twice, named.project) == balance_of(accounts, named.project) - 2
                    * share
                &&& balance_of(twice, named.signer) == balance_of(accounts, named.signer) + 2
                    * share
            } else {
                completion_refusal(once, named, task_index) == Some(
                    TaskrError::InsufficientCustody,
                )
            }
        }),
{
}

/// Only the owner is served: a completion that goes through was asked for
/// by the owner of the project at the named address, who is not the
/// project's own account.
pub proof fn law_only_the_owner_completes(
    accounts: Map<Seq<u8>, AccountView>,
    named: CompleteTaskView,
    task_index: nat,
)
    requires
        completion_refusal(accounts, named, task_index) is None,
    ensures
        project_at(accounts, named.project) is Some,
        project_at(accounts, named.project).unwrap().owner == named.signer,
        named.signer != named.project,
{
}

/// A task only ever goes from pending to complete: a completion that goes
/// through leaves its task complete, keeps every task's name and
/// attestation, and leaves complete whatever was complete before.
pub proof fn law_tasks_only_become_complete(
    accounts: Map<Seq<u8>, AccountView>,
    named: CompleteTaskView,
    task_index: nat,
    task: int,
)
    requires
        completion_refusal(accounts, named, task_index) is None,
        0 <= task < project_at(accounts, named.project).unwrap().tasks.len(),
    ensures
        ({
            let before = project_at(accounts, named.project).unwrap();
            let after = project_at(with_completion(accounts, named, task_index), named.project);
            &&& after is Some
            &&& after.unwrap().tasks.len() == before.tasks.len()
            &&& after.unwrap().tasks[task].name == before.tasks[task].name
            &&& after.unwrap().tasks[task].pow == before.tasks[task].pow
            &&& after.unwrap().tasks[task].completed == (before.tasks[task].completed || task
                == task_index)
        }),
{
}

/// The accounts after the completions at `indices` have been asked for one
/// after the other at the accounts `named`; a refused one changes nothing.
pub open spec fn after_completions(
    accounts: Map<Seq<u8>, AccountView>,
    named: CompleteTaskView,
    indices: Seq<nat>,
) -> Map<Seq<u8>, AccountView>
    decreases indices.len(),
{
    if indices.len() == 0 {
        accounts
    } else {
        let before = after_completions(accounts, named, indices.drop_last());
        if completion_refusal(before, named, indices.last()) is None {
            with_completion(before, named, indices.last())
        } else {
            before
        }
    }
}

/// The value that the completions at `indices` release in all: one share for
/// each of them that goes through.
pub open spec fn released_by(
    accounts: Map<Seq<u8>, AccountView>,
    named: CompleteTaskView,
    indices: Seq<nat>,
) -> nat
    decreases indices.len(),
{
    if indices.len() == 0 {
        0
    } else {
        let before = after_completions(accounts, named, indices.drop_last());
        let earlier = released_by(accounts, named, indices.drop_last());
        if completion_refusal(before, named, indices.last()) is None {
            earlier + project_at(before, named.project).unwrap().share()
        } else {
            earlier
        }
    }
}

/// The accounts after the completions at `indices` have been asked for one
/// after the other through `complete_task`, which holds the named address
/// against the derived one each time; a refused one changes nothing.
pub open spec fn after_complete_tasks(
    program: Seq<u8>,
    accounts: Map<Seq<u8>, AccountView>,
    named: CompleteTaskView,
    indices: Seq<nat>,
) -> Map<Seq<u8>, AccountView>
    decreases indices.len(),
{
    if indices.len() == 0 {
        accounts
    } else {
        let before = after_complete_tasks(program, accounts, named, indices.drop_last());
        if complete_task_refusal(program, before, named, indices.last()) is None {
            with_completion(before, named, indices.last())
        } else {
            before
        }
    }
}

/// The value that the completions at `indices` release in all when they are
/// asked for through `complete_task`.
pub open spec fn released_by_complete_tasks(
    program: Seq<u8>,
    accounts: Map<Seq<u8>, AccountView>,
    named: CompleteTaskView,
    indices: Seq<nat>,
) -> nat
    decreases indices.len(),
{
    if indices.len() == 0 {
        0
    } else {
        let before = after_complete_tasks(program, accounts, named, indices.drop_last());
        let earlier = released_by_complete_tasks(program, accounts, named, indices.drop_last());
        if complete_task_refusal(program, before, named, indices.last()) is None {
            earlier + project_at(before, named.project).unwrap().share()
        } else {
            earlier
        }
    }
}

/// Custody is conserved: whatever completions are asked for, in whatever
/// order and however often, what they release in all is exactly what leaves
/// the project's custody and exactly what the caller gains. So they never
/// release more than the custody held, and for a project that holds its
/// deposit, never more than the deposit. The project keeps its name, its
/// amount, its owner and the number of its tasks.
pub proof fn law_custody_conserved(
    accounts: Map<Seq<u8>, AccountView>,
    named: CompleteTaskView,
    indices: Seq<nat>,
)
    requires
        project_at(accounts, named.project) is Some,
    ensures
        ({
            let after = after_completions(accounts, named, indices);
            let released = released_by(accounts, named, indices);
            let project = project_at(accounts, named.project).unwrap();
            &&& project_at(after, named.project) is Some
            &&& project_at(after, named.project).unwrap().name == project.name
            &&& project_at(after, named.project).unwrap().amount == project.amount
            &&& project_at(after, named.project).unwrap().owner == project.owner
            &&& project_at(after, named.project).unwrap().tasks.len() == project.tasks.len()
            &&& balance_of(after, named.project) + released == balance_of(accounts, named.project)
            &&& balance_of(after, named.signer) == balance_of(accounts, named.signer) + released
            &&& released <= balance_of(accounts, named.project)
            &&& balance_of(accounts, named.project) <= project.amount ==> released
                <= project.amount
        }),
    decreases indices.len(),
{
    if indices.len() > 0 {
        law_custody_conserved(accounts, named, indices.drop_last());
    }
}

/// Custody is conserved through `complete_task` as well: what its
/// completions release in all is exactly what leaves the project's custody
/// and exactly what the caller gains, and never more than the custody held.
pub proof fn law_complete_task_conserves_custody(
    program: Seq<u8>,
    accounts: Map<Seq<u8>, AccountView>,
    named: CompleteTaskView,
    indices: Seq<nat>,
)
    requires
        project_at(accounts, named.project) is Some,
    ensures
        ({
            let after = after_complete_tasks(program, accounts, named, indices);
            let released = released_by_complete_tasks(program, accounts, named, indices);
            let project = project_at(accounts, named.project).unwrap();
            &&& project_at(after, named.project) is Some
            &&& project_at(after, named.project).unwrap().name == project.name
            &&& project_at(after, named.project).unwrap().amount == project.amount
            &&& project_at(after, named.project).unwrap().owner == project.owner
            &&& project_at(after, named.project).unwrap().tasks.len() == project.tasks.len()
            &&& balance_of(after, named.project) + released == balance_of(accounts, named.project)
            &&& balance_of(after, named.signer) == balance_of(accounts, named.signer) + released
            &&& released <= balance_of(accounts, named.project)
            &&& balance_of(accounts, named.project) <= project.amount ==> released
                <= project.amount
        }),
    decreases indices.len(),
{
    if indices.len() > 0 {
        law_complete_task_conserves_custody(program, accounts, named, indices.drop_last());
    }
}

/// An index that names no task is always refused by `complete_task` as out
/// of range to the owner of a project that stands where its creation put it,
/// whatever the custody and the balances are.
pub proof fn law_complete_task_index_out_of_range(
    program: Seq<u8>,
    accounts: Map<Seq<u8>, AccountView>,
    named: CompleteTaskView,
    task_index: nat,
)
    requires
        project_at(accounts, named.project) is Some,
        project_at(accounts, named.project).unwrap().owner == named.signer,
        program_address(
            project_seeds(project_at(accounts, named.project).unwrap().name, named.signer),
            program,
        ) == Some(named.project),
        task_index >= project_at(accounts, named.project).unwrap().tasks.len(),
    ensures
        complete_task_refusal(program, accounts, named, task_index) == Some(
            TaskrError::IndexOutOfRange,
        ),
{
}

/// For a project that stands where its creation put it, `complete_task`
/// refuses exactly what `complete_task_at` refuses, for the same reason.
pub proof fn law_complete_task_serves_the_derived_project(
    program: Seq<u8>,
    accounts: Map<Seq<u8>, AccountView>,
    named: CompleteTaskView,
    task_index: nat,
)
    requires
        project_at(accounts, named.project) is Some,
        program_address(
            project_seeds(project_at(accounts, named.project).unwrap().name, named.signer),
            program,
        ) == Some(named.project),
    ensures
        complete_task_refusal(program, accounts, named, task_index) == completion_refusal(
            accounts,
            named,
            task_index,
        ),
{
}

/// Completing a task a second time through `complete_task` is not prevented
/// either: after a completion has gone through, the same completion either
/// goes through again and releases one more share, or is refused because the
/// custody no longer covers a share. The caller's balance is taken to have
/// room for two shares.
pub proof fn law_second_completion_through_complete_task(
    program: Seq<u8>,
    accounts: Map<Seq<u8>, AccountView>,
    named: CompleteTaskView,
    task_index: nat,
)
    requires
        complete_task_refusal(program, accounts, named, task_index) is None,
        balance_of(accounts, named.signer) + 2 * project_at(
            accounts,
            named.project,
        ).unwrap().share() <= u64::MAX,
    ensures
        ({
            let share = project_at(accounts, named.project).unwrap().share();
            let once = with_completion(accounts, named, task_index);
            let twice = with_completion(once, named, task_index);
            if balance_of(accounts, named.project) >= 2 * share {
                &&& complete_task_refusal(program, once, named, task_index) is None
                &&& balance_of(twice, named.project) == balance_of(accounts, named.project) - 2
                    * share
                &&& balance_of(twice, named.signer) == balance_of(accounts, named.signer) + 2
                    * share
            } else {
                complete_task_refusal(program, once, named, task_index) == Some(
                    TaskrError::InsufficientCustody,
                )
            }
        }),
{
    law_second_completion(accounts, named, task_index);
}

/// Completions at indices in range all go through while the custody covers
/// them and the owner's balance has room: they release one share each, and
/// leave complete exactly the tasks that were complete before or that one
/// of them names.
proof fn lemma_completions_go_through(
    accounts: Map<Seq<u8>, AccountView>,
    named: CompleteTaskView,
    indices: Seq<nat>,
)
    requires
        project_at(accounts, named.project) is Some,
        project_at(accounts, named.project).unwrap().owner == named.signer,
        named.signer != named.project,
        forall|k: int|
            0 <= k < indices.len() ==> indices[k] < project_at(
                accounts,
                named.project,
            ).unwrap().tasks.len(),
        project_at(accounts, named.project).unwrap().share() * indices.len() <= balance_of(
            accounts,
            named.project,
        ),
        balance_of(accounts, named.signer) + project_at(accounts, named.project).unwrap().share()
            * indices.len() <= u64::MAX,
    ensures
        ({
            let project = project_at(accounts, named.project).unwrap();
            let ended = project_at(after_completions(accounts, named, indices), named.project);
            &&& released_by(accounts, named, indices) == project.share() * indices.len()
            &&& ended is Some
            &&& ended.unwrap().tasks.len() == project.tasks.len()
            &&& forall|t: int|
                0 <= t < project.tasks.len() ==> (#[trigger] ended.unwrap().tasks[t]).completed == (
                project.tasks[t].completed || indices.contains(t as nat))
        }),
    decreases indices.len(),
{
    let project = project_at(accounts, named.project).unwrap();
    let share = project.share();
    let count = indices.len() as int;
    if count == 0 {
        assert(share * count == 0) by (nonlinear_arith)
            requires
                count == 0,
        ;
    } else {
        let earlier = indices.drop_last();
        assert(share * (count - 1) + share == share * count && share * (count - 1) >= 0)
            by (nonlinear_arith)
            requires
                count >= 1,
                share >= 0,
        ;
        lemma_completions_go_through(accounts, named, earlier);
        law_custody_conserved(accounts, named, earlier);
        let before = after_completions(accounts, named, earlier);
        let ended = project_at(after_completions(accounts, named, indices), named.project).unwrap();
        assert(completion_refusal(before, named, indices.last()) is None);
        assert forall|t: int| 0 <= t < project.tasks.len() implies (#[trigger] ended.tasks[t]).completed
            == (project.tasks[t].completed || indices.contains(t as nat)) by {
            law_tasks_only_become_complete(before, named, indices.last(), t);
            if earlier.contains(t as nat) {
                let k = choose|k: int| 0 <= k < earlier.len() && earlier[k] == t as nat;
                assert(indices[k] == t as nat);
            }
            if indices.contains(t as nat) {
                let k = choose|k: int| 0 <= k < indices.len() && indices[k] == t as nat;
                if k < count - 1 {
                    assert(earlier[k] == t as nat);
                }
            }
            if indices.last() == t as nat {
                assert(indices[count - 1] == t as nat);
            }
        }
    }
}

/// Completing every task once releases the deposit rounded down to a
/// multiple of the number of tasks: on a project that was just created with
/// `n` tasks, `n` completions by its owner that name every task, in any
/// order, all go through. They release `n` times the share in all, which is
/// at most the deposit; what is left of the deposit stays in custody; the
/// owner gains what was released; and every task ends complete. The owner's
/// balance before the creation is a machine word.
pub proof fn law_every_task_once(
    accounts: Map<Seq<u8>, AccountView>,
    created: CreateProjectView,
    name: Seq<char>,
    task_names: Seq<Seq<char>>,
    amount: nat,
    creation_time: int,
    indices: Seq<nat>,
)
    requires
        creation_refusal(accounts, created, name, task_names, amount) is None,
        balance_of(accounts, created.signer) <= u64::MAX,
        indices.len() == task_names.len(),
        forall|k: int| 0 <= k < indices.len() ==> indices[k] < task_names.len(),
        forall|t: nat| t < task_names.len() ==> #[trigger] indices.contains(t),
    ensures
        ({
            let opened = with_project(accounts, created, name, task_names, amount, creation_time);
            let named = CompleteTaskView { project: created.project, signer: created.signer };
            let after = after_completions(opened, named, indices);
            let released = released_by(opened, named, indices);
            let n = task_names.len();
            &&& released <= amount
            &&& n > 0 ==> released == (amount / n) * n
            &&& n > 0 ==> balance_of(after, named.project) == amount % n
            &&& balance_of(after, named.project) == amount - released
            &&& balance_of(after, named.signer) == balance_of(opened, named.signer) + released
            &&& project_at(after, named.project) is Some
            &&& project_at(after, named.project).unwrap().tasks.len() == n
            &&& forall|t: int|
                0 <= t < n ==> (#[trigger] project_at(
                    after,
                    named.project,
                ).unwrap().tasks[t]).completed
        }),
{
    let opened = with_project(accounts, created, name, task_names, amount, creation_time);
    let named = CompleteTaskView { project: created.project, signer: created.signer };
    let project = project_at(opened, named.project).unwrap();
    let n = task_names.len();
    law_custody_at_creation(accounts, created, name, task_names, amount, creation_time);
    assert(project.share() * n <= amount && (n > 0 ==> project.share() * n == (amount / n) * n
        && amount - (amount / n) * n == amount % n)) by (nonlinear_arith)
        requires
            project.share() == (if n == 0 {
                0
            } else {
                amount / n
            }),
    ;
    lemma_completions_go_through(opened, named, indices);
    law_custody_conserved(opened, named, indices);
}

/// Completing every task once through `complete_task` does the same: on a
/// project that was just created through `create_project`, the owner's `n`
/// completions that name every task all go through, release `n` times the
/// share, leave the rest of the deposit in custody and every task complete.
pub proof fn law_every_task_once_through_complete_task(
    program: Seq<u8>,
    accounts: Map<Seq<u8>, AccountView>,
    created: CreateProjectView,
    name: Seq<char>,
    task_names: Seq<Seq<char>>,
    amount: nat,
    creation_time: int,
    indices: Seq<nat>,
)
    requires
        create_project_refusal(program, accounts, created, name, task_names, amount) is None,
        balance_of(accounts, created.signer) <= u64::MAX,
        indices.len() == task_names.len(),
        forall|k: int| 0 <= k < indices.len() ==> indices[k] < task_names.len(),
        forall|t: nat| t < task_names.len() ==> #[trigger] indices.contains(t),
    ensures
        ({
            let opened = with_project(accounts, created, name, task_names, amount, creation_time);
            let named = CompleteTaskView { project: created.project, signer: created.signer };
            let after = after_complete_tasks(program, opened, named, indices);
            let released = released_by_complete_tasks(program, opened, named, indices);
            let n = task_names.len();
            &&& released <= amount
            &&& n > 0 ==> released == (amount / n) * n
            &&& n > 0 ==> balance_of(after, named.project) == amount % n
            &&& balance_of(after, named.project) == amount - released
            &&& balance_of(after, named.signer) == balance_of(opened, named.signer) + released
            &&& project_at(after, named.project) is Some
            &&& project_at(after, named.project).unwrap().tasks.len() == n
            &&& forall|t: int|
                0 <= t < n ==> (#[trigger] project_at(
                    after,
                    named.project,
                ).unwrap().tasks[t]).completed
        }),
{
    let opened = with_project(accounts, created, name, task_names, amount, creation_time);
    let named = CompleteTaskView { project: created.project, signer: created.signer };
    law_custody_at_creation(accounts, created, name, task_names, amount, creation_time);
    lemma_complete_tasks_agree(program, opened, named, indices);
    law_every_task_once(accounts, created, name, task_names, amount, creation_time, indices);
}

/// For a project that stands where its creation put it, a run of
/// completions through `complete_task` is the same run through
/// `complete_task_at`.
proof fn lemma_complete_tasks_agree(
    program: Seq<u8>,
    accounts: Map<Seq<u8>, AccountView>,
    named: CompleteTaskView,
    indices: Seq<nat>,
)
    requires
        project_at(accounts, named.project) is Some,
        program_address(
            project_seeds(project_at(accounts, named.project).unwrap().name, named.signer),
            program,
        ) == Some(named.project),
    ensures
        after_complete_tasks(program, accounts, named, indices) == after_completions(
            accounts,
            named,
            indices,
        ),
        released_by_complete_tasks(program, accounts, named, indices) == released_by(
            accounts,
            named,
            indices,
        ),
    decreases indices.len(),
{
    if indices.len() > 0 {
        lemma_complete_tasks_agree(program, accounts, named, indices.drop_last());
        law_custody_conserved(accounts, named, indices.drop_last());
    }
}

} // verus!
