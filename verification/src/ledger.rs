use crate::address::Address;
use crate::error::TaskrError;
use crate::project::{Lookup, Project, ProjectView, MAX_PROJECTS};
use vstd::prelude::*;

verus! {

/// What an account stores besides its balance.
#[derive(Clone, Debug, PartialEq, Eq)]
pub enum Record {
    /// Nothing: the account only holds a caller's general balance.
    Wallet,
    /// A project; the account's balance is the project's custody.
    Project(Project),
    /// An owner's index of project addresses.
    Lookup(Lookup),
}

/// What a record is, as plain values.
pub enum RecordView {
    Wallet,
    Project(ProjectView),
    Lookup(Seq<Seq<u8>>),
}

impl View for Record {
    type V = RecordView;

    open spec fn view(&self) -> RecordView {
        match self {
            Record::Wallet => RecordView::Wallet,
            Record::Project(project) => RecordView::Project(project@),
            Record::Lookup(lookup) => RecordView::Lookup(lookup@),
        }
    }
}

/// One entry of the ledger: a balance and a record, found by its address.
#[derive(Clone, Debug, PartialEq, Eq)]
pub struct Account {
    pub address: Address,
    pub balance: u64,
    pub record: Record,
}

/// What the ledger holds at one address, as plain values.
pub struct AccountView {
    pub address: Seq<u8>,
    pub balance: nat,
    pub record: RecordView,
}

impl View for Account {
    type V = AccountView;

    open spec fn view(&self) -> AccountView {
        AccountView { address: self.address@, balance: self.balance as nat, record: self.record@ }
    }
}

/// The balance held at `address`; an address without an account holds nothing.
pub open spec fn balance_of(accounts: Map<Seq<u8>, AccountView>, address: Seq<u8>) -> nat {
    if accounts.dom().contains(address) {
        accounts[address].balance
    } else {
        0
    }
}

/// The project stored at `address`, if a project is stored there.
pub open spec fn project_at(accounts: Map<Seq<u8>, AccountView>, address: Seq<u8>) -> Option<
    ProjectView,
> {
    if accounts.dom().contains(address) {
        match accounts[address].record {
            RecordView::Project(project) => Some(project),
            _ => None,
        }
    } else {
        None
    }
}

/// The lookup index stored at `address`, if one is stored there.
pub open spec fn lookup_at(accounts: Map<Seq<u8>, AccountView>, address: Seq<u8>) -> Option<
    Seq<Seq<u8>>,
> {
    if accounts.dom().contains(address) {
        match accounts[address].record {
            RecordView::Lookup(projects) => Some(projects),
            _ => None,
        }
    } else {
        None
    }
}

/// The accounts after `record` has been stored at `address` with no balance.
pub open spec fn created(
    accounts: Map<Seq<u8>, AccountView>,
    address: Seq<u8>,
    record: RecordView,
) -> Map<Seq<u8>, AccountView> {
    accounts.insert(address, AccountView { address, balance: 0, record })
}

/// The accounts after the record at `address` has been replaced; the balance stays.
pub open spec fn rewritten(
    accounts: Map<Seq<u8>, AccountView>,
    address: Seq<u8>,
    record: RecordView,
) -> Map<Seq<u8>, AccountView> {
    accounts.insert(address, AccountView { address, balance: accounts[address].balance, record })
}

/// The accounts after `amount` has been added to the balance at `address`.
/// An address without an account becomes a wallet.
pub open spec fn credited(accounts: Map<Seq<u8>, AccountView>, address: Seq<u8>, amount: nat) -> Map<
    Seq<u8>,
    AccountView,
> {
    if accounts.dom().contains(address) {
        accounts.insert(
            address,
            AccountView {
                address,
                balance: accounts[address].balance + amount,
                record: accounts[address].record,
            },
        )
    } else {
        accounts.insert(
            address,
            AccountView { address, balance: amount, record: RecordView::Wallet },
        )
    }
}

/// The accounts after `amount` has been taken from the balance at `address`.
pub open spec fn debited(accounts: Map<Seq<u8>, AccountView>, address: Seq<u8>, amount: nat) -> Map<
    Seq<u8>,
    AccountView,
> {
    accounts.insert(
        address,
        AccountView {
            address,
            balance: (accounts[address].balance - amount) as nat,
            record: accounts[address].record,
        },
    )
}

/// The accounts after `amount` has moved from `from` to `to`.
pub open spec fn transferred(
    accounts: Map<Seq<u8>, AccountView>,
    from: Seq<u8>,
    to: Seq<u8>,
    amount: nat,
) -> Map<Seq<u8>, AccountView> {
    if from == to || amount == 0 {
        accounts
    } else {
        credited(debited(accounts, from, amount), to, amount)
    }
}

/// Why a move of `amount` from `from` to `to` is refused, if it is.
pub open spec fn transfer_refusal(
    accounts: Map<Seq<u8>, AccountView>,
    from: Seq<u8>,
    to: Seq<u8>,
    amount: nat,
) -> Option<TaskrError> {
    if balance_of(accounts, from) < amount {
        Some(TaskrError::InsufficientFunds)
    } else if from != to && amount > 0 && balance_of(accounts, to) + amount > u64::MAX {
        Some(TaskrError::ArithmeticOverflow)
    } else {
        None
    }
}

/// The accounts after `project` has been appended to the owner's index at
/// `lookup`, which is created if nothing is stored there.
pub open spec fn indexed(
    accounts: Map<Seq<u8>, AccountView>,
    lookup: Seq<u8>,
    project: Seq<u8>,
) -> Map<Seq<u8>, AccountView> {
    match lookup_at(accounts, lookup) {
        Some(projects) => rewritten(accounts, lookup, RecordView::Lookup(projects.push(project))),
        None => created(accounts, lookup, RecordView::Lookup(seq![project])),
    }
}

/// Why an append to the owner's index at `lookup` is refused, if it is.
pub open spec fn index_refusal(accounts: Map<Seq<u8>, AccountView>, lookup: Seq<u8>) -> Option<
    TaskrError,
> {
    if !accounts.dom().contains(lookup) {
        None
    } else {
        match accounts[lookup].record {
            RecordView::Lookup(projects) => if projects.len() >= MAX_PROJECTS {
                Some(TaskrError::InputTooLarge)
            } else {
                None
            },
            _ => Some(TaskrError::AlreadyExists),
        }
    }
}

spec fn holds(accounts: Seq<Account>, address: Seq<u8>) -> bool {
    exists|i: int| 0 <= i < accounts.len() && (#[trigger] accounts[i]).address@ == address
}

spec fn slot(accounts: Seq<Account>, address: Seq<u8>) -> int {
    choose|i: int| 0 <= i < accounts.len() && (#[trigger] accounts[i]).address@ == address
}

spec fn table(accounts: Seq<Account>) -> Map<Seq<u8>, AccountView> {
    Map::new(|address: Seq<u8>| holds(accounts, address), |address: Seq<u8>| accounts[slot(accounts, address)]@)
}

spec fn distinct(accounts: Seq<Account>) -> bool {
    forall|i: int, j: int|
        0 <= i < j < accounts.len() ==> (#[trigger] accounts[i]).address@ != (
        #[trigger] accounts[j]).address@
}

proof fn lemma_table_at(accounts: Seq<Account>, i: int)
    requires
        distinct(accounts),
        0 <= i < accounts.len(),
    ensures
        table(accounts).dom().contains(accounts[i].address@),
        table(accounts)[accounts[i].address@] == accounts[i]@,
{
    assert(slot(accounts, accounts[i].address@) == i);
}

proof fn lemma_table_update(accounts: Seq<Account>, i: int, account: Account)
    requires
        distinct(accounts),
        0 <= i < accounts.len(),
        account.address@ == accounts[i].address@,
    ensures
        distinct(accounts.update(i, account)),
        table(accounts.update(i, account)) == table(accounts).insert(account.address@, account@),
{
    let updated = accounts.update(i, account);
    let expected = table(accounts).insert(account.address@, account@);
    assert forall|address: Seq<u8>| table(updated).dom().contains(address)
        <==> expected.dom().contains(address) by {
        if holds(accounts, address) {
            assert(updated[slot(accounts, address)].address@ == address);
        }
    }
    assert forall|address: Seq<u8>| table(updated).dom().contains(address) implies table(
        updated,
    )[address] == expected[address] by {
        let k = slot(updated, address);
        lemma_table_at(updated, k);
        if k != i {
            lemma_table_at(accounts, k);
        }
    }
}

proof fn lemma_table_push(accounts: Seq<Account>, account: Account)
    requires
        distinct(accounts),
        !holds(accounts, account.address@),
    ensures
        distinct(accounts.push(account)),
        table(accounts.push(account)) == table(accounts).insert(account.address@, account@),
{
    let pushed = accounts.push(account);
    let expected = table(accounts).insert(account.address@, account@);
    assert forall|address: Seq<u8>| table(pushed).dom().contains(address)
        <==> expected.dom().contains(address) by {
        if holds(accounts, address) {
            assert(pushed[slot(accounts, address)].address@ == address);
        }
        if address == account.address@ {
            assert(pushed[accounts.len() as int].address@ == address);
        }
    }
    assert forall|address: Seq<u8>| table(pushed).dom().contains(address) implies table(
        pushed,
    )[address] == expected[address] by {
        let k = slot(pushed, address);
        lemma_table_at(pushed, k);
        if k < accounts.len() {
            lemma_table_at(accounts, k);
        }
    }
}

/// Where in `accounts` the account at `address` stands, if there is one.
fn position(accounts: &Vec<Account>, address: &Address) -> (found: Option<usize>)
    ensures
        match found {
            Some(i) => i < accounts.len() && accounts[i as int].address@ == address@,
            None => !holds(accounts@, address@),
        },
{
    let mut i: usize = 0;
    while i < accounts.len()
        invariant
            i <= accounts.len(),
            forall|j: int| 0 <= j < i ==> (#[trigger] accounts[j]).address@ != address@,
        decreases accounts.len() - i,
    {
        if accounts[i].address.same(address) {
            return Some(i);
        }
        i += 1;
    }
    None
}

/// The record store: every account of one program, each found by its address.
#[derive(Debug, PartialEq, Eq)]
pub struct Ledger {
    program_id: Address,
    accounts: Vec<Account>,
}

impl View for Ledger {
    type V = Map<Seq<u8>, AccountView>;

    closed spec fn view(&self) -> Map<Seq<u8>, AccountView> {
        table(self.accounts@)
    }
}

impl Ledger {
    #[verifier::type_invariant]
    spec fn well_formed(self) -> bool {
        distinct(self.accounts@)
    }

    /// The identity of the program whose accounts the ledger holds.
    pub closed spec fn program(self) -> Seq<u8> {
        self.program_id@
    }

    /// A ledger without accounts.
    pub fn new(program_id: Address) -> (ledger: Ledger)
        ensures
            ledger@ == Map::<Seq<u8>, AccountView>::empty(),
            ledger.program() == program_id@,
    {
        Ledger { program_id, accounts: Vec::new() }
    }

    /// The identity of the program whose accounts the ledger holds.
    pub fn program_id(&self) -> (id: Address)
        ensures
            id@ == self.program(),
    {
        self.program_id
    }

    /// Whether an account exists at `address`.
    pub fn contains(&self, address: &Address) -> (found: bool)
        ensures
            found == self@.dom().contains(address@),
    {
        position(&self.accounts, address).is_some()
    }

    /// The balance held at `address`.
    pub fn balance(&self, address: &Address) -> (balance: u64)
        ensures
            balance == balance_of(self@, address@),
    {
        proof {
            use_type_invariant(&*self);
        }
        match position(&self.accounts, address) {
            Some(i) => {
                proof {
                    lemma_table_at(self.accounts@, i as int);
                }
                self.accounts[i].balance
            },
            None => 0,
        }
    }

    /// The record stored at `address`.
    pub fn read(&self, address: &Address) -> (found: Option<&Record>)
        ensures
            match found {
                Some(record) => self@.dom().contains(address@) && self@[address@].record == record@,
                None => !self@.dom().contains(address@),
            },
    {
        proof {
            use_type_invariant(&*self);
        }
        match position(&self.accounts, address) {
            Some(i) => {
                proof {
                    lemma_table_at(self.accounts@, i as int);
                }
                Some(&self.accounts[i].record)
            },
            None => None,
        }
    }

    /// The project stored at `address`, if a project is stored there.
    pub fn project(&self, address: &Address) -> (found: Option<&Project>)
        ensures
            match found {
                Some(project) => project_at(self@, address@) == Some(project@),
                None => project_at(self@, address@) is None,
            },
    {
        match self.read(address) {
            Some(Record::Project(project)) => Some(project),
            _ => None,
        }
    }

    /// The owner's index stored at `address`, if one is stored there.
    pub fn lookup(&self, address: &Address) -> (found: Option<&Lookup>)
        ensures
            match found {
                Some(index) => lookup_at(self@, address@) == Some(index@),
                None => lookup_at(self@, address@) is None,
            },
    {
        match self.read(address) {
            Some(Record::Lookup(index)) => Some(index),
            _ => None,
        }
    }

    /// Stores `record` at `address`, with no balance. Refuses an address at
    /// which an account already exists.
    pub fn create(&mut self, address: Address, record: Record) -> (stored: Result<(), TaskrError>)
        ensures
            final(self).program() == old(self).program(),
            match stored {
                Ok(_) => !old(self)@.dom().contains(address@) && final(self)@ == created(
                    old(self)@,
                    address@,
                    record@,
                ),
                Err(error) => error == TaskrError::AlreadyExists && old(self)@.dom().contains(
                    address@,
                ) && *final(self) == *old(self),
            },
    {
        proof {
            use_type_invariant(&*self);
        }
        if position(&self.accounts, &address).is_some() {
            return Err(TaskrError::AlreadyExists);
        }
        let mut accounts: Vec<Account> = Vec::new();
        std::mem::swap(&mut accounts, &mut self.accounts);
        let account = Account { address, balance: 0, record };
        proof {
            lemma_table_push(accounts@, account);
        }
        accounts.push(account);
        self.accounts = accounts;
        Ok(())
    }

    /// Adds `amount` to the balance at `address`; an address without an
    /// account becomes a wallet. Refuses a balance that would overflow.
    pub fn deposit(&mut self, address: &Address, amount: u64) -> (added: Result<(), TaskrError>)
        ensures
            final(self).program() == old(self).program(),
            match added {
                Ok(_) => balance_of(old(self)@, address@) + amount <= u64::MAX && final(self)@
                    == credited(old(self)@, address@, amount as nat),
                Err(error) => error == TaskrError::ArithmeticOverflow && balance_of(
                    old(self)@,
                    address@,
                ) + amount > u64::MAX && *final(self) == *old(self),
            },
    {
        proof {
            use_type_invariant(&*self);
        }
        match position(&self.accounts, address) {
            Some(i) => {
                proof {
                    lemma_table_at(self.accounts@, i as int);
                }
                if u64::MAX - self.accounts[i].balance < amount {
                    return Err(TaskrError::ArithmeticOverflow);
                }
                let mut accounts: Vec<Account> = Vec::new();
                std::mem::swap(&mut accounts, &mut self.accounts);
                let ghost before = accounts@;
                accounts[i].balance = accounts[i].balance + amount;
                proof {
                    lemma_table_update(before, i as int, accounts@[i as int]);
                }
                self.accounts = accounts;
            },
            None => {
                let mut accounts: Vec<Account> = Vec::new();
                std::mem::swap(&mut accounts, &mut self.accounts);
                let account = Account { address: *address, balance: amount, record: Record::Wallet };
                proof {
                    lemma_table_push(accounts@, account);
                }
                accounts.push(account);
                self.accounts = accounts;
            },
        }
        Ok(())
    }

    /// Moves `amount` from the balance at `from` to the balance at `to`, or
    /// moves nothing at all.
    pub fn transfer(&mut self, from: &Address, to: &Address, amount: u64) -> (moved: Result<
        (),
        TaskrError,
    >)
        ensures
            final(self).program() == old(self).program(),
            match moved {
                Ok(_) => transfer_refusal(old(self)@, from@, to@, amount as nat) is None
                    && final(self)@ == transferred(old(self)@, from@, to@, amount as nat),
                Err(error) => transfer_refusal(old(self)@, from@, to@, amount as nat) == Some(error)
                    && *final(self) == *old(self),
            },
    {
        proof {
            use_type_invariant(&*self);
        }
        let source = position(&self.accounts, from);
        let available: u64 = match source {
            Some(i) => {
                proof {
                    lemma_table_at(self.accounts@, i as int);
                }
                self.accounts[i].balance
            },
            None => 0,
        };
        if available < amount {
            return Err(TaskrError::InsufficientFunds);
        }
        if amount == 0 || from.same(to) {
            return Ok(());
        }
        let i: usize = source.unwrap();
        let target = position(&self.accounts, to);
        match target {
            Some(j) => {
                proof {
                    lemma_table_at(self.accounts@, j as int);
                }
                if u64::MAX - self.accounts[j].balance < amount {
                    return Err(TaskrError::ArithmeticOverflow);
                }
                let mut accounts: Vec<Account> = Vec::new();
                std::mem::swap(&mut accounts, &mut self.accounts);
                let ghost before = accounts@;
                accounts[i].balance = accounts[i].balance - amount;
                let ghost between = accounts@;
                proof {
                    lemma_table_update(before, i as int, between[i as int]);
                    lemma_table_at(between, j as int);
                }
                accounts[j].balance = accounts[j].balance + amount;
                proof {
                    lemma_table_update(between, j as int, accounts@[j as int]);
                }
                self.accounts = accounts;
            },
            None => {
                let mut accounts: Vec<Account> = Vec::new();
                std::mem::swap(&mut accounts, &mut self.accounts);
                let ghost before = accounts@;
                accounts[i].balance = accounts[i].balance - amount;
                let ghost between = accounts@;
                let account = Account { address: *to, balance: amount, record: Record::Wallet };
                proof {
                    lemma_table_update(before, i as int, between[i as int]);
                    lemma_table_push(between, account);
                }
                accounts.push(account);
                self.accounts = accounts;
            },
        }
        Ok(())
    }

    /// Appends `project` to the owner's index at `lookup`; the index is
    /// created first if no account exists there. Refuses an address that
    /// holds something else, and an index that is full.
    pub fn index_project(&mut self, lookup: &Address, project: Address) -> (appended: Result<
        (),
        TaskrError,
    >)
        ensures
            final(self).program() == old(self).program(),
            match appended {
                Ok(_) => index_refusal(old(self)@, lookup@) is None && final(self)@ == indexed(
                    old(self)@,
                    lookup@,
                    project@,
                ),
                Err(error) => index_refusal(old(self)@, lookup@) == Some(error) && *final(self)
                    == *old(self),
            },
    {
        proof {
            use_type_invariant(&*self);
        }
        match position(&self.accounts, lookup) {
            Some(i) => {
                proof {
                    lemma_table_at(self.accounts@, i as int);
                }
                match &self.accounts[i].record {
                    Record::Lookup(index) => {
                        if index.projects.len() >= MAX_PROJECTS {
                            return Err(TaskrError::InputTooLarge);
                        }
                    },
                    _ => {
                        return Err(TaskrError::AlreadyExists);
                    },
                }
                let mut accounts: Vec<Account> = Vec::new();
                std::mem::swap(&mut accounts, &mut self.accounts);
                let ghost before = accounts@;
                match &mut accounts[i].record {
                    Record::Lookup(index) => {
                        let _ = index.append(project);
                    },
                    _ => {},
                }
                proof {
                    lemma_table_update(before, i as int, accounts@[i as int]);
                }
                self.accounts = accounts;
            },
            None => {
                let mut index = Lookup::new();
                let _ = index.append(project);
                let mut accounts: Vec<Account> = Vec::new();
                std::mem::swap(&mut accounts, &mut self.accounts);
                let account = Account { address: *lookup, balance: 0, record: Record::Lookup(index) };
                proof {
                    lemma_table_push(accounts@, account);
                }
                accounts.push(account);
                self.accounts = accounts;
            },
        }
        Ok(())
    }

    /// Marks a task of the project at `project` complete and returns the
    /// share that its completion releases. The balance is left alone.
    pub(crate) fn mark_complete(&mut self, project: &Address, task_index: u64) -> (share: u64)
        requires
            project_at(old(self)@, project@) matches Some(stored) && task_index
                < stored.tasks.len(),
        ensures
            final(self).program() == old(self).program(),
            share == project_at(old(self)@, project@).unwrap().share(),
            final(self)@ == rewritten(
                old(self)@,
                project@,
                RecordView::Project(
                    project_at(old(self)@, project@).unwrap().with_completed(task_index as int),
                ),
            ),
    {
        proof {
            use_type_invariant(&*self);
        }
        let found = position(&self.accounts, project);
        let i: usize = found.unwrap();
        proof {
            lemma_table_at(self.accounts@, i as int);
        }
        let mut accounts: Vec<Account> = Vec::new();
        std::mem::swap(&mut accounts, &mut self.accounts);
        let ghost before = accounts@;
        let mut share: u64 = 0;
        match &mut accounts[i].record {
            Record::Project(stored) => {
                match stored.complete_task(task_index) {
                    Ok(released) => {
                        share = released;
                    },
                    Err(_) => {},
                }
            },
            _ => {},
        }
        proof {
            lemma_table_update(before, i as int, accounts@[i as int]);
        }
        self.accounts = accounts;
        share
    }
}

} // verus!
