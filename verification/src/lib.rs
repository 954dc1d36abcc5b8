//! Two cooperating ledger-style registries.
//!
//! The role registry issues, redeems and revokes non-transferable role
//! credentials bound to identities; the presence registry creates
//! time-windowed events, records attendee check-ins and serves paginated
//! and ranked queries over them.
//!
//! Each registry is an explicit state value: the hosting environment's
//! persistent store is modelled by the struct's fields, its clock by a
//! timestamp parameter, and its authentication proof by the caller
//! identity handed to each operation. The hash and random primitives are
//! called through thin trusted wrappers.

use vstd::prelude::*;

mod alist;
mod crypto;
mod roles;
mod presence;

pub use crypto::claim_preimage;
pub use crypto::sha256_of;
pub use crypto::spec_claim_preimage;
pub use roles::ClaimData;
pub use roles::LogEntry;
pub use roles::OwnerRules;
pub use roles::RoleSlots;
pub use roles::TokenData;
pub use roles::role_ok;
pub use roles::lemma_role_token_matches;
pub use roles::lemma_role_token_unique;
pub use presence::AttendeeInfo;
pub use presence::EventData;
pub use presence::EventRecord;
pub use presence::EventSummary;
pub use presence::PresenceEvents;
pub use presence::closed_ids;
pub use presence::first_match;
pub use presence::upcoming_count;

verus! {

/// The role kind held by the contract administrator.
pub const ROLE_ADMIN: u32 = 1;
/// The role kind held by event supervisors.
pub const ROLE_SUPERVISOR: u32 = 2;
/// The role kind held by ordinary associates.
pub const ROLE_ASSOCIATE: u32 = 3;

/// Every way an operation of either registry can fail. Each failure is
/// terminal for its call: the state is left exactly as it was.
#[derive(Clone, Copy, Debug, PartialEq, Eq, Structural)]
pub enum Error {
    /// The caller is not the identity the operation demands.
    NotAuthorized,
    /// Credential claiming is administratively paused.
    Paused,
    /// The reentrancy lock was already held on entry.
    Reentrancy,
    /// No claim record exists under the given hash.
    ClaimNotFound,
    /// The claim under the given hash was already redeemed.
    ClaimAlreadyUsed,
    /// The redeeming wallet is not the claim's bound recipient.
    RecipientMismatch,
    /// The wallet already holds a token for the claimed role.
    AlreadyHasRole,
    /// The wallet holds no token for the given role.
    CredentialNotFound,
    /// No event record exists under the given id.
    EventNotFound,
    /// The event window is empty or touches timestamp zero.
    InvalidWindow,
    /// The registration time is past the event's end.
    OutsideWindow,
    /// The attendee is already registered for the event.
    AlreadyRegistered,
    /// The acting identity is not an approved supervisor.
    NotSupervisor,
    /// The attendee has no active presence for the event.
    NotRegistered,
}

} // verus!
