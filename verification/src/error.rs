use vstd::prelude::*;

verus! {

/// Why the ledger refused an operation. A refused operation changes nothing.
#[derive(Clone, Copy, Debug, PartialEq, Eq, Structural)]
pub enum TaskrError {
    /// A record already occupies the address at which one was to be created.
    AlreadyExists,
    /// A project already exists at the address derived for the new project.
    DuplicateProject,
    /// A name, a task list or a lookup index would exceed its fixed capacity.
    InputTooLarge,
    /// The caller's balance is below the amount to be deposited.
    InsufficientFunds,
    /// The task index does not name a task of the project.
    IndexOutOfRange,
    /// The caller does not own a project at the named address, the named
    /// accounts are not the ones derived for the caller, or the caller is the
    /// project's own account.
    Unauthorized,
    /// The project's custody is below the share to be released.
    InsufficientCustody,
    /// A balance would exceed the largest representable value.
    ArithmeticOverflow,
    /// No address can be derived from the given seeds.
    AddressUnavailable,
}

} // verus!
