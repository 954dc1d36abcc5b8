//! The role registry: issues, redeems and revokes non-transferable role
//! credentials bound to identities.
//!
//! The registry owns the admin identity, a pause flag, the reentrancy
//! lock, the minted token records, the per-identity role slots, the
//! single-use claim vouchers and the emitted event log. Token ids are
//! assigned from a counter starting at 1 and are never reused; the
//! token store keeps one (possibly cleared) cell per assigned id, so
//! the next id is always one past the store's length.

use vstd::prelude::*;

use crate::Error;
use crate::ROLE_ADMIN;
use crate::ROLE_ASSOCIATE;
use crate::ROLE_SUPERVISOR;
use crate::alist::al_get;
use crate::alist::alist_get;
use crate::alist::alist_set;
use crate::alist::bkeys_distinct;
use crate::alist::bl_get;
use crate::alist::blist_get;
use crate::alist::blist_set;
use crate::alist::clone_bytes;
use crate::alist::keys_distinct;
use crate::crypto::claim_preimage;
use crate::crypto::random_nonzero_u64;
use crate::crypto::sha256;
use crate::crypto::sha256_of;
use crate::crypto::spec_claim_preimage;

verus! {

/// A role kind is one of the three small integer constants.
pub open spec fn role_ok(role_id: u32) -> bool {
    role_id == ROLE_ADMIN || role_id == ROLE_SUPERVISOR || role_id == ROLE_ASSOCIATE
}

/// One minted credential: a role bound to its sole owner.
#[derive(Clone, Copy, Debug, PartialEq, Eq, Structural)]
pub struct TokenData {
    pub role_id: u32,
    pub owner: u64,
}

/// One single-use claim voucher, kept forever as an audit record.
#[derive(Clone, Copy, Debug, PartialEq, Eq, Structural)]
pub struct ClaimData {
    pub role_id: u32,
    pub recipient: u64,
    pub valid: bool,
}

/// The token an identity holds for each role kind: at most one per kind.
#[derive(Clone, Copy, Debug)]
pub struct RoleSlots {
    pub admin_token: Option<u64>,
    pub supervisor_token: Option<u64>,
    pub associate_token: Option<u64>,
}

impl RoleSlots {
    /// No role held at all.
    pub open spec fn spec_empty() -> RoleSlots {
        RoleSlots { admin_token: None, supervisor_token: None, associate_token: None }
    }

    /// The token held for a role kind, `None` for an unknown kind.
    pub open spec fn spec_slot(self, role_id: u32) -> Option<u64> {
        if role_id == ROLE_ADMIN {
            self.admin_token
        } else if role_id == ROLE_SUPERVISOR {
            self.supervisor_token
        } else if role_id == ROLE_ASSOCIATE {
            self.associate_token
        } else {
            None
        }
    }

    /// These slots with the binding for one role kind replaced.
    pub open spec fn spec_with_slot(self, role_id: u32, v: Option<u64>) -> RoleSlots {
        if role_id == ROLE_ADMIN {
            RoleSlots { admin_token: v, ..self }
        } else if role_id == ROLE_SUPERVISOR {
            RoleSlots { supervisor_token: v, ..self }
        } else if role_id == ROLE_ASSOCIATE {
            RoleSlots { associate_token: v, ..self }
        } else {
            self
        }
    }

    /// No role held at all.
    pub fn empty() -> (r: RoleSlots)
        ensures
            r == RoleSlots::spec_empty(),
    {
        RoleSlots { admin_token: None, supervisor_token: None, associate_token: None }
    }

    /// Reads the slot for a role kind.
    pub fn slot(&self, role_id: u32) -> (r: Option<u64>)
        ensures
            r == self.spec_slot(role_id),
    {
        if role_id == ROLE_ADMIN {
            self.admin_token
        } else if role_id == ROLE_SUPERVISOR {
            self.supervisor_token
        } else if role_id == ROLE_ASSOCIATE {
            self.associate_token
        } else {
            None
        }
    }

    /// Replaces the slot for a role kind.
    pub fn set_slot(&mut self, role_id: u32, v: Option<u64>)
        ensures
            *final(self) == old(self).spec_with_slot(role_id, v),
    {
        if role_id == ROLE_ADMIN {
            self.admin_token = v;
        } else if role_id == ROLE_SUPERVISOR {
            self.supervisor_token = v;
        } else if role_id == ROLE_ASSOCIATE {
            self.associate_token = v;
        }
    }
}

/// One entry of the append-only event log observers consume.
#[derive(Clone, Debug)]
pub enum LogEntry {
    CredentialMinted { role_id: u32, recipient: u64, token_id: u64 },
    CredentialRevoked { role_id: u32, wallet: u64, token_id: u64 },
    AdminTransferred { old_admin: u64, new_admin: u64 },
    BaseUriUpdated { uri: String },
    ClaimLinkGenerated { role_id: u32, recipient: u64, claim_hash: Vec<u8> },
    EventContractUpdated { contract_id: String },
}

/// The role slots recorded for `w`, empty when none were recorded yet.
pub open spec fn sl_slots(wallets: Seq<(u64, RoleSlots)>, w: u64) -> RoleSlots {
    match al_get(wallets, w) {
        Some(s) => s,
        None => RoleSlots::spec_empty(),
    }
}

/// The token `w` holds for role kind `r`, if any.
pub open spec fn sl_role_token(wallets: Seq<(u64, RoleSlots)>, w: u64, r: u32) -> Option<u64> {
    sl_slots(wallets, w).spec_slot(r)
}

/// The token record stored under id `id`, if the id was assigned and
/// the record not revoked since.
pub open spec fn tk_token(tokens: Seq<Option<TokenData>>, id: u64) -> Option<TokenData> {
    if 1 <= id && id <= tokens.len() {
        tokens[id - 1]
    } else {
        None
    }
}

/// Every held (role, token) pair is matched by a live token record
/// binding exactly that role to exactly that identity.
pub open spec fn slots_match_tokens(
    tokens: Seq<Option<TokenData>>,
    wallets: Seq<(u64, RoleSlots)>,
) -> bool {
    forall|w: u64, r: u32|
        (#[trigger] sl_role_token(wallets, w, r)) is Some ==> tk_token(
            tokens,
            sl_role_token(wallets, w, r)->Some_0,
        ) == Some(TokenData { role_id: r, owner: w })
}

/// Every stored claim names one of the three role kinds.
pub open spec fn claims_roles_ok(claims: Seq<(Vec<u8>, ClaimData)>) -> bool {
    forall|h: Seq<u8>|
        (#[trigger] bl_get(claims, h)) is Some ==> role_ok(bl_get(claims, h)->Some_0.role_id)
}

/// The credential/role registry.
pub struct OwnerRules {
    /// The single current admin identity.
    pub admin: u64,
    /// When set, credential claiming is blocked.
    pub paused: bool,
    /// The reentrancy lock guarding claiming and revocation.
    pub locked: bool,
    /// The admin-settable base of every token's metadata reference.
    pub base_uri: String,
    /// An informational reference to an external event contract.
    pub event_contract: Option<String>,
    /// One cell per assigned token id; id `i + 1` lives at index `i`,
    /// cleared (never removed) on revocation.
    pub tokens: Vec<Option<TokenData>>,
    /// The role slots of every identity that ever held a role.
    pub wallet_roles: Vec<(u64, RoleSlots)>,
    /// Claim vouchers keyed by their 256-bit hash, never deleted.
    pub claims: Vec<(Vec<u8>, ClaimData)>,
    /// The disaster-recovery operator allow-list.
    pub authorized: Vec<(u64, bool)>,
    /// The append-only event log.
    pub log: Vec<LogEntry>,
}

impl OwnerRules {
    /// The token `wallet` holds for `role_id`, if any.
    pub open spec fn spec_role_token(self, wallet: u64, role_id: u32) -> Option<u64> {
        sl_role_token(self.wallet_roles@, wallet, role_id)
    }

    /// The token record stored under `token_id`, if live.
    pub open spec fn spec_token(self, token_id: u64) -> Option<TokenData> {
        tk_token(self.tokens@, token_id)
    }

    /// The claim stored under the hash `h`, if any.
    pub open spec fn spec_claim(self, h: Seq<u8>) -> Option<ClaimData> {
        bl_get(self.claims@, h)
    }

    /// Whether `operator` is currently on the recovery allow-list.
    pub open spec fn spec_authorized(self, operator: u64) -> bool {
        al_get(self.authorized@, operator) == Some(true)
    }

    /// The id the next minted token will receive.
    pub open spec fn spec_next_token_id(self) -> u64 {
        (self.tokens@.len() + 1) as u64
    }

    /// The registry's invariant: distinct store keys, token ids that fit
    /// in a `u64`, role slots matched by token records, and claims that
    /// name real role kinds.
    pub open spec fn wf(self) -> bool {
        &&& keys_distinct(self.wallet_roles@)
        &&& bkeys_distinct(self.claims@)
        &&& keys_distinct(self.authorized@)
        &&& self.tokens@.len() + 1 <= u64::MAX
        &&& slots_match_tokens(self.tokens@, self.wallet_roles@)
        &&& claims_roles_ok(self.claims@)
    }

    /// Creates the registry: records the admin, clears the flags, and
    /// immediately mints the admin an Admin-role token with id 1.
    pub fn initialize(admin: u64) -> (s: OwnerRules)
        ensures
            s.wf(),
            s.admin == admin,
            !s.paused,
            !s.locked,
            s.base_uri@.len() == 0,
            s.event_contract is None,
            s.tokens@.len() == 1,
            s.spec_token(1) == Some(TokenData { role_id: ROLE_ADMIN, owner: admin }),
            s.spec_role_token(admin, ROLE_ADMIN) == Some(1u64),
            forall|w: u64, r: u32|
                !(w == admin && r == ROLE_ADMIN) ==> #[trigger] s.spec_role_token(w, r) is None,
            forall|h: Seq<u8>| #[trigger] s.spec_claim(h) is None,
            forall|o: u64| !(#[trigger] s.spec_authorized(o)),
            s.log@ =~= seq![
                LogEntry::CredentialMinted { role_id: ROLE_ADMIN, recipient: admin, token_id: 1u64 },
            ],
    {
        let mut tokens: Vec<Option<TokenData>> = Vec::new();
        tokens.push(Some(TokenData { role_id: ROLE_ADMIN, owner: admin }));
        let mut slots = RoleSlots::empty();
        slots.set_slot(ROLE_ADMIN, Some(1u64));
        let mut wallet_roles: Vec<(u64, RoleSlots)> = Vec::new();
        wallet_roles.push((admin, slots));
        let mut log: Vec<LogEntry> = Vec::new();
        log.push(LogEntry::CredentialMinted { role_id: ROLE_ADMIN, recipient: admin, token_id: 1u64 });
        let s = OwnerRules {
            admin,
            paused: false,
            locked: false,
            base_uri: String::new(),
            event_contract: None,
            tokens,
            wallet_roles,
            claims: Vec::new(),
            authorized: Vec::new(),
            log,
        };
        proof {
            assert forall|w: u64| w != admin implies al_get(s.wallet_roles@, w) is None by {
                crate::alist::lemma_al_get_absent(s.wallet_roles@, w);
            }
            assert(al_get(s.wallet_roles@, admin) == Some(slots)) by {
                crate::alist::lemma_al_get_present(s.wallet_roles@, admin, 0);
            }
            assert forall|h: Seq<u8>| #[trigger] bl_get(s.claims@, h) is None by {
                crate::alist::lemma_bl_get_absent(s.claims@, h);
            }
            assert forall|o: u64| !(#[trigger] s.spec_authorized(o)) by {
                crate::alist::lemma_al_get_absent(s.authorized@, o);
            }
        }
        s
    }

    /// The token `wallet` holds for `role_id`, if any.
    pub fn role_token_for(&self, wallet: u64, role_id: u32) -> (r: Option<u64>)
        ensures
            r == self.spec_role_token(wallet, role_id),
    {
        let slots = match alist_get(&self.wallet_roles, wallet) {
            Some(s) => s,
            None => RoleSlots::empty(),
        };
        slots.slot(role_id)
    }

    /// Whether `wallet` currently holds a token for `role_id`.
    pub fn has_role(&self, wallet: u64, role_id: u32) -> (r: bool)
        ensures
            r == (self.spec_role_token(wallet, role_id) is Some),
    {
        self.role_token_for(wallet, role_id).is_some()
    }

    /// The metadata reference of any token: the base URI verbatim.
    pub fn token_uri(&self, _token_id: u64) -> (r: String)
        ensures
            r@ == self.base_uri@,
    {
        self.base_uri.clone()
    }

    /// Interface discovery: every interface is answered affirmatively.
    pub fn supports_interface(&self, _interface_id: String) -> (r: bool)
        ensures
            r,
    {
        true
    }

    /// The recorded external event-contract reference, if any.
    pub fn get_event_contract(&self) -> (r: Option<String>)
        ensures
            r is Some <==> self.event_contract is Some,
            r is Some ==> r->Some_0@ == self.event_contract->Some_0@,
    {
        match &self.event_contract {
            Some(s) => Some(s.clone()),
            None => None,
        }
    }

    /// Blocks credential claiming. Admin-only.
    pub fn pause(&mut self, caller: u64) -> (r: Result<(), Error>)
        requires
            old(self).wf(),
        ensures
            final(self).wf(),
            caller != old(self).admin ==> r == Err::<(), Error>(Error::NotAuthorized) && *final(self)
                == *old(self),
            caller == old(self).admin ==> r == Ok::<(), Error>(()) && *final(self) == (OwnerRules {
                paused: true,
                ..*old(self)
            }),
    {
        if caller != self.admin {
            return Err(Error::NotAuthorized);
        }
        self.paused = true;
        Ok(())
    }

    /// Unblocks credential claiming. Admin-only.
    pub fn unpause(&mut self, caller: u64) -> (r: Result<(), Error>)
        requires
            old(self).wf(),
        ensures
            final(self).wf(),
            caller != old(self).admin ==> r == Err::<(), Error>(Error::NotAuthorized) && *final(self)
                == *old(self),
            caller == old(self).admin ==> r == Ok::<(), Error>(()) && *final(self) == (OwnerRules {
                paused: false,
                ..*old(self)
            }),
    {
        if caller != self.admin {
            return Err(Error::NotAuthorized);
        }
        self.paused = false;
        Ok(())
    }

    /// Overwrites the base URI and logs the update. Admin-only.
    pub fn set_base_uri(&mut self, caller: u64, new_uri: String) -> (r: Result<(), Error>)
        requires
            old(self).wf(),
        ensures
            final(self).wf(),
            caller != old(self).admin ==> r == Err::<(), Error>(Error::NotAuthorized) && *final(self)
                == *old(self),
            caller == old(self).admin ==> {
                &&& r == Ok::<(), Error>(())
                &&& final(self).base_uri@ == new_uri@
                &&& final(self).log@ == old(self).log@.push(
                    LogEntry::BaseUriUpdated { uri: new_uri },
                )
                &&& final(self).admin == old(self).admin
                &&& final(self).paused == old(self).paused
                &&& final(self).locked == old(self).locked
                &&& final(self).event_contract == old(self).event_contract
                &&& final(self).tokens == old(self).tokens
                &&& final(self).wallet_roles == old(self).wallet_roles
                &&& final(self).claims == old(self).claims
                &&& final(self).authorized == old(self).authorized
            },
    {
        if caller != self.admin {
            return Err(Error::NotAuthorized);
        }
        self.base_uri = new_uri.clone();
        self.log.push(LogEntry::BaseUriUpdated { uri: new_uri });
        Ok(())
    }

    /// Records the external event-contract reference and logs it.
    /// Admin-only; informational linkage only, never invoked.
    pub fn set_event_contract(&mut self, caller: u64, contract_id: String) -> (r: Result<
        (),
        Error,
    >)
        requires
            old(self).wf(),
        ensures
            final(self).wf(),
            caller != old(self).admin ==> r == Err::<(), Error>(Error::NotAuthorized) && *final(self)
                == *old(self),
            caller == old(self).admin ==> {
                &&& r == Ok::<(), Error>(())
                &&& final(self).event_contract is Some
                &&& final(self).event_contract->Some_0@ == contract_id@
                &&& final(self).log@ == old(self).log@.push(
                    LogEntry::EventContractUpdated { contract_id },
                )
                &&& final(self).admin == old(self).admin
                &&& final(self).paused == old(self).paused
                &&& final(self).locked == old(self).locked
                &&& final(self).base_uri == old(self).base_uri
                &&& final(self).tokens == old(self).tokens
                &&& final(self).wallet_roles == old(self).wallet_roles
                &&& final(self).claims == old(self).claims
                &&& final(self).authorized == old(self).authorized
            },
    {
        if caller != self.admin {
            return Err(Error::NotAuthorized);
        }
        self.event_contract = Some(contract_id.clone());
        self.log.push(LogEntry::EventContractUpdated { contract_id });
        Ok(())
    }

    /// Adds `operator` to, or removes it from, the recovery allow-list.
    /// Admin-only.
    pub fn authorize_contract(&mut self, caller: u64, operator: u64, status: bool) -> (r: Result<
        (),
        Error,
    >)
        requires
            old(self).wf(),
        ensures
            final(self).wf(),
            caller != old(self).admin ==> r == Err::<(), Error>(Error::NotAuthorized) && *final(self)
                == *old(self),
            caller == old(self).admin ==> {
                &&& r == Ok::<(), Error>(())
                &&& final(self).spec_authorized(operator) == status
                &&& forall|o: u64|
                    o != operator ==> #[trigger] final(self).spec_authorized(o) == old(self).spec_authorized(o)
                &&& final(self).admin == old(self).admin
                &&& final(self).paused == old(self).paused
                &&& final(self).locked == old(self).locked
                &&& final(self).base_uri == old(self).base_uri
                &&& final(self).event_contract == old(self).event_contract
                &&& final(self).tokens == old(self).tokens
                &&& final(self).wallet_roles == old(self).wallet_roles
                &&& final(self).claims == old(self).claims
                &&& final(self).log == old(self).log
            },
    {
        if caller != self.admin {
            return Err(Error::NotAuthorized);
        }
        alist_set(&mut self.authorized, operator, status);
        Ok(())
    }

    /// Disaster recovery: an allow-listed operator overwrites the admin
    /// pointer. Deliberately performs none of the token bookkeeping that
    /// `transfer_admin` does, so the Admin-role token mapping can be
    /// left pointing at the previous admin.
    pub fn recover_admin(&mut self, operator: u64, new_admin: u64) -> (r: Result<(), Error>)
        requires
            old(self).wf(),
        ensures
            final(self).wf(),
            !old(self).spec_authorized(operator) ==> r == Err::<(), Error>(Error::NotAuthorized)
                && *final(self) == *old(self),
            old(self).spec_authorized(operator) ==> r == Ok::<(), Error>(()) && *final(self) == (
            OwnerRules { admin: new_admin, ..*old(self) }),
    {
        let authorized = match alist_get(&self.authorized, operator) {
            Some(b) => b,
            None => false,
        };
        if !authorized {
            return Err(Error::NotAuthorized);
        }
        self.admin = new_admin;
        Ok(())
    }

    /// Mints a fresh token of `role_id` to `owner`: the next id is
    /// assigned, the record stored, and the owner's slot for that kind
    /// overwritten.
    fn mint(&mut self, role_id: u32, owner: u64) -> (id: u64)
        requires
            old(self).wf(),
            role_ok(role_id),
            old(self).tokens@.len() + 2 <= u64::MAX,
        ensures
            final(self).wf(),
            id == old(self).spec_next_token_id(),
            final(self).tokens@ == old(self).tokens@.push(Some(TokenData { role_id, owner })),
            final(self).spec_token(id) == Some(TokenData { role_id, owner }),
            forall|t: u64| t != id ==> #[trigger] final(self).spec_token(t) == old(self).spec_token(t),
            final(self).spec_role_token(owner, role_id) == Some(id),
            forall|w: u64, r: u32|
                !(w == owner && r == role_id) ==> #[trigger] final(self).spec_role_token(w, r)
                    == old(self).spec_role_token(w, r),
            final(self).admin == old(self).admin,
            final(self).paused == old(self).paused,
            final(self).locked == old(self).locked,
            final(self).base_uri == old(self).base_uri,
            final(self).event_contract == old(self).event_contract,
            final(self).claims == old(self).claims,
            final(self).authorized == old(self).authorized,
            final(self).log == old(self).log,
    {
        let id: u64 = (self.tokens.len() as u64) + 1;
        self.tokens.push(Some(TokenData { role_id, owner }));
        let mut slots = match alist_get(&self.wallet_roles, owner) {
            Some(s) => s,
            None => RoleSlots::empty(),
        };
        slots.set_slot(role_id, Some(id));
        alist_set(&mut self.wallet_roles, owner, slots);
        proof {
            let o = *old(self);
            let n = *self;
            assert(sl_slots(n.wallet_roles@, owner) == sl_slots(o.wallet_roles@, owner)
                .spec_with_slot(role_id, Some(id)));
            assert forall|w: u64, r: u32| !(w == owner && r == role_id) implies #[trigger] n
                .spec_role_token(w, r) == o.spec_role_token(w, r) by {
                if w != owner {
                    assert(al_get(n.wallet_roles@, w) == al_get(o.wallet_roles@, w));
                }
            }
            assert(n.spec_role_token(owner, role_id) == Some(id));
            assert forall|t: u64| t != id implies #[trigger] n.spec_token(t) == o.spec_token(t) by {
                if 1 <= t && t <= o.tokens@.len() {
                    assert(n.tokens@[t - 1] == o.tokens@[t - 1]);
                }
            }
            assert forall|w: u64, r: u32| (#[trigger] sl_role_token(n.wallet_roles@, w, r))
                is Some implies tk_token(n.tokens@, sl_role_token(n.wallet_roles@, w, r)->Some_0)
                == Some(TokenData { role_id: r, owner: w }) by {
                if w == owner && r == role_id {
                    assert(n.spec_token(id) == Some(TokenData { role_id, owner }));
                } else {
                    assert(sl_role_token(n.wallet_roles@, w, r) == sl_role_token(
                        o.wallet_roles@,
                        w,
                        r,
                    ));
                    let t = sl_role_token(o.wallet_roles@, w, r)->Some_0;
                    assert(tk_token(o.tokens@, t) == Some(TokenData { role_id: r, owner: w }));
                    assert(1 <= t && t <= o.tokens@.len());
                    assert(n.tokens@[t - 1] == o.tokens@[t - 1]);
                }
            }
            assert(slots_match_tokens(n.tokens@, n.wallet_roles@));
        }
        id
    }

    /// Revokes the live token `token_id`, held by `wallet` for
    /// `role_id`: the record cell is cleared and the slot emptied.
    fn burn(&mut self, wallet: u64, role_id: u32, token_id: u64)
        requires
            old(self).wf(),
            old(self).spec_role_token(wallet, role_id) == Some(token_id),
        ensures
            final(self).wf(),
            final(self).tokens@ == old(self).tokens@.update(token_id - 1, None::<TokenData>),
            final(self).spec_token(token_id) is None,
            forall|t: u64|
                t != token_id ==> #[trigger] final(self).spec_token(t) == old(self).spec_token(t),
            final(self).spec_role_token(wallet, role_id) is None,
            forall|w: u64, r: u32|
                !(w == wallet && r == role_id) ==> #[trigger] final(self).spec_role_token(w, r)
                    == old(self).spec_role_token(w, r),
            final(self).admin == old(self).admin,
            final(self).paused == old(self).paused,
            final(self).locked == old(self).locked,
            final(self).base_uri == old(self).base_uri,
            final(self).event_contract == old(self).event_contract,
            final(self).claims == old(self).claims,
            final(self).authorized == old(self).authorized,
            final(self).log == old(self).log,
    {
        proof {
            assert(role_ok(role_id));
            assert(tk_token(old(self).tokens@, token_id) == Some(
                TokenData { role_id, owner: wallet },
            ));
        }
        let stored: usize = self.tokens.len();
        proof {
            assert(1 <= token_id && token_id <= stored);
        }
        let idx: usize = (token_id - 1) as usize;
        proof {
            assert(idx == token_id - 1);
        }
        self.tokens.set(idx, None);
        let mut slots = match alist_get(&self.wallet_roles, wallet) {
            Some(s) => s,
            None => RoleSlots::empty(),
        };
        slots.set_slot(role_id, None);
        alist_set(&mut self.wallet_roles, wallet, slots);
        proof {
            let o = *old(self);
            let n = *self;
            assert(sl_slots(n.wallet_roles@, wallet) == sl_slots(o.wallet_roles@, wallet)
                .spec_with_slot(role_id, None));
            assert forall|w: u64, r: u32| !(w == wallet && r == role_id) implies #[trigger] n
                .spec_role_token(w, r) == o.spec_role_token(w, r) by {
                if w != wallet {
                    assert(al_get(n.wallet_roles@, w) == al_get(o.wallet_roles@, w));
                }
            }
            assert forall|t: u64| t != token_id implies #[trigger] n.spec_token(t) == o.spec_token(
                t,
            ) by {
                if 1 <= t && t <= o.tokens@.len() {
                    assert(n.tokens@[t - 1] == o.tokens@[t - 1]);
                }
            }
            assert forall|w: u64, r: u32| (#[trigger] sl_role_token(n.wallet_roles@, w, r))
                is Some implies tk_token(n.tokens@, sl_role_token(n.wallet_roles@, w, r)->Some_0)
                == Some(TokenData { role_id: r, owner: w }) by {
                assert(sl_role_token(n.wallet_roles@, w, r) == sl_role_token(o.wallet_roles@, w, r));
                let t = sl_role_token(o.wallet_roles@, w, r)->Some_0;
                assert(tk_token(o.tokens@, t) == Some(TokenData { role_id: r, owner: w }));
                if t == token_id {
                    assert(TokenData { role_id: r, owner: w } == TokenData {
                        role_id,
                        owner: wallet,
                    });
                    assert(false);
                }
                assert(n.tokens@[t - 1] == o.tokens@[t - 1]);
            }
            assert(slots_match_tokens(n.tokens@, n.wallet_roles@));
        }
    }

    /// Moves the admin role: revokes the outgoing admin's Admin-role
    /// token if one is live, updates the admin pointer, and mints the
    /// incoming admin a fresh Admin-role token, logging a revocation
    /// (when one happened), the transfer, and the mint. Admin-only.
    pub fn transfer_admin(&mut self, caller: u64, new_admin: u64) -> (r: Result<(), Error>)
        requires
            old(self).wf(),
            old(self).tokens@.len() + 2 <= u64::MAX,
        ensures
            final(self).wf(),
            caller != old(self).admin ==> r == Err::<(), Error>(Error::NotAuthorized) && *final(self)
                == *old(self),
            caller == old(self).admin ==> {
                let oa = old(self).admin;
                let nid = old(self).spec_next_token_id();
                &&& r == Ok::<(), Error>(())
                &&& final(self).admin == new_admin
                &&& final(self).spec_role_token(new_admin, ROLE_ADMIN) == Some(nid)
                &&& final(self).spec_token(nid) == Some(
                    TokenData { role_id: ROLE_ADMIN, owner: new_admin },
                )
                &&& final(self).tokens@.len() == old(self).tokens@.len() + 1
                &&& match old(self).spec_role_token(oa, ROLE_ADMIN) {
                    Some(ot) => {
                        &&& final(self).spec_token(ot) is None
                        &&& oa != new_admin ==> final(self).spec_role_token(oa, ROLE_ADMIN) is None
                        &&& forall|w: u64, rr: u32|
                            !(w == oa && rr == ROLE_ADMIN) && !(w == new_admin && rr == ROLE_ADMIN)
                                ==> #[trigger] final(self).spec_role_token(w, rr) == old(self).spec_role_token(w, rr)
                        &&& forall|t: u64|
                            t != ot && t != nid ==> #[trigger] final(self).spec_token(t) == old(self).spec_token(t)
                        &&& final(self).log@ == old(self).log@ + seq![
                            LogEntry::CredentialRevoked {
                                role_id: ROLE_ADMIN,
                                wallet: oa,
                                token_id: ot,
                            },
                            LogEntry::AdminTransferred { old_admin: oa, new_admin },
                            LogEntry::CredentialMinted {
                                role_id: ROLE_ADMIN,
                                recipient: new_admin,
                                token_id: nid,
                            },
                        ]
                    },
                    None => {
                        &&& forall|w: u64, rr: u32|
                            !(w == new_admin && rr == ROLE_ADMIN) ==> #[trigger] final(self).spec_role_token(w, rr) == old(self).spec_role_token(w, rr)
                        &&& forall|t: u64|
                            t != nid ==> #[trigger] final(self).spec_token(t) == old(self).spec_token(t)
                        &&& final(self).log@ == old(self).log@ + seq![
                            LogEntry::AdminTransferred { old_admin: oa, new_admin },
                            LogEntry::CredentialMinted {
                                role_id: ROLE_ADMIN,
                                recipient: new_admin,
                                token_id: nid,
                            },
                        ]
                    },
                }
                &&& final(self).paused == old(self).paused
                &&& final(self).locked == old(self).locked
                &&& final(self).base_uri == old(self).base_uri
                &&& final(self).event_contract == old(self).event_contract
                &&& final(self).claims == old(self).claims
                &&& final(self).authorized == old(self).authorized
            },
    {
        if caller != self.admin {
            return Err(Error::NotAuthorized);
        }
        let oa = self.admin;
        match self.role_token_for(oa, ROLE_ADMIN) {
            Some(ot) => {
                self.burn(oa, ROLE_ADMIN, ot);
                let ghost s1 = *self;
                self.log.push(
                    LogEntry::CredentialRevoked { role_id: ROLE_ADMIN, wallet: oa, token_id: ot },
                );
                self.admin = new_admin;
                let ghost s2 = *self;
                let nid = self.mint(ROLE_ADMIN, new_admin);
                let ghost s3 = *self;
                self.log.push(LogEntry::AdminTransferred { old_admin: oa, new_admin });
                self.log.push(
                    LogEntry::CredentialMinted {
                        role_id: ROLE_ADMIN,
                        recipient: new_admin,
                        token_id: nid,
                    },
                );
                proof {
                    assert(self.log@ =~= old(self).log@ + seq![
                        LogEntry::CredentialRevoked {
                            role_id: ROLE_ADMIN,
                            wallet: oa,
                            token_id: ot,
                        },
                        LogEntry::AdminTransferred { old_admin: oa, new_admin },
                        LogEntry::CredentialMinted {
                            role_id: ROLE_ADMIN,
                            recipient: new_admin,
                            token_id: nid,
                        },
                    ]);
                    assert(tk_token(old(self).tokens@, ot) is Some);
                    assert(ot <= old(self).tokens@.len());
                    assert(self.spec_token(ot) == s3.spec_token(ot));
                    assert(s3.spec_token(ot) == s2.spec_token(ot));
                    assert(s2.spec_token(ot) == s1.spec_token(ot));
                    assert(self.spec_token(ot) is None);
                    assert(self.spec_role_token(new_admin, ROLE_ADMIN) == s3.spec_role_token(
                        new_admin,
                        ROLE_ADMIN,
                    ));
                    assert(self.spec_token(nid) == s3.spec_token(nid));
                    if oa != new_admin {
                        assert(self.spec_role_token(oa, ROLE_ADMIN) == s3.spec_role_token(
                            oa,
                            ROLE_ADMIN,
                        ));
                        assert(s3.spec_role_token(oa, ROLE_ADMIN) == s2.spec_role_token(
                            oa,
                            ROLE_ADMIN,
                        ));
                        assert(s2.spec_role_token(oa, ROLE_ADMIN) == s1.spec_role_token(
                            oa,
                            ROLE_ADMIN,
                        ));
                        assert(self.spec_role_token(oa, ROLE_ADMIN) is None);
                    }
                    assert forall|w: u64, rr: u32|
                        !(w == oa && rr == ROLE_ADMIN) && !(w == new_admin && rr
                            == ROLE_ADMIN) implies #[trigger] self.spec_role_token(w, rr) == old(self).spec_role_token(w, rr) by {
                        assert(self.spec_role_token(w, rr) == s3.spec_role_token(w, rr));
                        assert(s3.spec_role_token(w, rr) == s2.spec_role_token(w, rr));
                        assert(s2.spec_role_token(w, rr) == s1.spec_role_token(w, rr));
                        assert(s1.spec_role_token(w, rr) == old(self).spec_role_token(w, rr));
                    }
                    assert forall|t: u64| t != ot && t != nid implies #[trigger] self.spec_token(t)
                        == old(self).spec_token(t) by {
                        assert(self.spec_token(t) == s3.spec_token(t));
                        assert(s3.spec_token(t) == s2.spec_token(t));
                        assert(s2.spec_token(t) == s1.spec_token(t));
                        assert(s1.spec_token(t) == old(self).spec_token(t));
                    }
                }
            },
            None => {
                self.admin = new_admin;
                let ghost s2 = *self;
                let nid = self.mint(ROLE_ADMIN, new_admin);
                let ghost s3 = *self;
                self.log.push(LogEntry::AdminTransferred { old_admin: oa, new_admin });
                self.log.push(
                    LogEntry::CredentialMinted {
                        role_id: ROLE_ADMIN,
                        recipient: new_admin,
                        token_id: nid,
                    },
                );
                proof {
                    assert(self.log@ =~= old(self).log@ + seq![
                        LogEntry::AdminTransferred { old_admin: oa, new_admin },
                        LogEntry::CredentialMinted {
                            role_id: ROLE_ADMIN,
                            recipient: new_admin,
                            token_id: nid,
                        },
                    ]);
                    assert(self.spec_role_token(new_admin, ROLE_ADMIN) == s3.spec_role_token(
                        new_admin,
                        ROLE_ADMIN,
                    ));
                    assert(self.spec_token(nid) == s3.spec_token(nid));
                    assert forall|w: u64, rr: u32|
                        !(w == new_admin && rr == ROLE_ADMIN) implies #[trigger] self
                        .spec_role_token(w, rr) == old(self).spec_role_token(w, rr) by {
                        assert(self.spec_role_token(w, rr) == s3.spec_role_token(w, rr));
                        assert(s3.spec_role_token(w, rr) == s2.spec_role_token(w, rr));
                        assert(s2.spec_role_token(w, rr) == old(self).spec_role_token(w, rr));
                    }
                    assert forall|t: u64| t != nid implies #[trigger] self.spec_token(t) == old(self).spec_token(t) by {
                        assert(self.spec_token(t) == s3.spec_token(t));
                        assert(s3.spec_token(t) == s2.spec_token(t));
                        assert(s2.spec_token(t) == old(self).spec_token(t));
                    }
                }
            },
        }
        Ok(())
    }

    /// Stores a fresh single-use claim for `recipient` and `role_id`:
    /// draws a random 64-bit value, hashes its big-endian bytes followed
    /// by the role's, and keys the voucher by the digest. The recipient
    /// is bound into the stored record, not into the hash.
    fn new_claim(&mut self, recipient: u64, role_id: u32) -> (h: Vec<u8>)
        requires
            old(self).wf(),
            role_ok(role_id),
        ensures
            final(self).wf(),
            h@.len() == 32,
            exists|d: u64| 1 <= d && h@ == sha256_of(spec_claim_preimage(d, role_id)),
            final(self).spec_claim(h@) == Some(ClaimData { role_id, recipient, valid: true }),
            forall|h2: Seq<u8>|
                h2 != h@ ==> #[trigger] final(self).spec_claim(h2) == old(self).spec_claim(h2),
            final(self).log@.len() == old(self).log@.len() + 1,
            final(self).log@.subrange(0, old(self).log@.len() as int) == old(self).log@,
            final(self).log@.last() matches LogEntry::ClaimLinkGenerated {
                role_id: lr,
                recipient: lrec,
                claim_hash: lh,
            } && lr == role_id && lrec == recipient && lh@ == h@,
            final(self).admin == old(self).admin,
            final(self).paused == old(self).paused,
            final(self).locked == old(self).locked,
            final(self).base_uri == old(self).base_uri,
            final(self).event_contract == old(self).event_contract,
            final(self).tokens == old(self).tokens,
            final(self).wallet_roles == old(self).wallet_roles,
            final(self).authorized == old(self).authorized,
    {
        let d = random_nonzero_u64();
        let pre = claim_preimage(d, role_id);
        let h = sha256(&pre);
        let key = clone_bytes(&h);
        blist_set(&mut self.claims, key, ClaimData { role_id, recipient, valid: true });
        let ghost s1 = *self;
        let payload = clone_bytes(&h);
        self.log.push(LogEntry::ClaimLinkGenerated { role_id, recipient, claim_hash: payload });
        proof {
            assert(1 <= d && h@ == sha256_of(spec_claim_preimage(d, role_id)));
            assert(self.log@.subrange(0, old(self).log@.len() as int) =~= old(self).log@);
            assert forall|h2: Seq<u8>| (#[trigger] bl_get(self.claims@, h2)) is Some implies role_ok(
                bl_get(self.claims@, h2)->Some_0.role_id,
            ) by {
                if h2 != h@ {
                    assert(bl_get(s1.claims@, h2) == bl_get(old(self).claims@, h2));
                }
            }
        }
        h
    }

    /// Produces a Supervisor-role claim for `recipient`. Admin-only.
    pub fn generate_supervisor_claim_link(&mut self, caller: u64, recipient: u64) -> (r: Result<
        Vec<u8>,
        Error,
    >)
        requires
            old(self).wf(),
        ensures
            final(self).wf(),
            caller != old(self).admin ==> r == Err::<Vec<u8>, Error>(Error::NotAuthorized) && *final(self) == *old(self),
            caller == old(self).admin ==> r is Ok && {
                let h = r->Ok_0;
                &&& h@.len() == 32
                &&& exists|d: u64| 1 <= d && h@ == sha256_of(spec_claim_preimage(d, ROLE_SUPERVISOR))
                &&& final(self).spec_claim(h@) == Some(
                    ClaimData { role_id: ROLE_SUPERVISOR, recipient, valid: true },
                )
                &&& forall|h2: Seq<u8>|
                    h2 != h@ ==> #[trigger] final(self).spec_claim(h2) == old(self).spec_claim(h2)
                &&& final(self).log@.len() == old(self).log@.len() + 1
                &&& final(self).log@.subrange(0, old(self).log@.len() as int) == old(self).log@
                &&& final(self).log@.last() matches LogEntry::ClaimLinkGenerated {
                    role_id: lr,
                    recipient: lrec,
                    claim_hash: lh,
                } && lr == ROLE_SUPERVISOR && lrec == recipient && lh@ == h@
                &&& final(self).admin == old(self).admin
                &&& final(self).paused == old(self).paused
                &&& final(self).locked == old(self).locked
                &&& final(self).base_uri == old(self).base_uri
                &&& final(self).event_contract == old(self).event_contract
                &&& final(self).tokens == old(self).tokens
                &&& final(self).wallet_roles == old(self).wallet_roles
                &&& final(self).authorized == old(self).authorized
            },
    {
        if caller != self.admin {
            return Err(Error::NotAuthorized);
        }
        Ok(self.new_claim(recipient, ROLE_SUPERVISOR))
    }

    /// Produces an Associate-role claim for `recipient`. Allowed when
    /// the acting operator is the current admin or holds an active
    /// Supervisor-role token.
    pub fn generate_associate_claim_link(&mut self, recipient: u64, operator: u64) -> (r: Result<
        Vec<u8>,
        Error,
    >)
        requires
            old(self).wf(),
        ensures
            final(self).wf(),
            !(operator == old(self).admin || old(self).spec_role_token(operator, ROLE_SUPERVISOR)
                is Some) ==> r == Err::<Vec<u8>, Error>(Error::NotAuthorized) && *final(self)
                == *old(self),
            (operator == old(self).admin || old(self).spec_role_token(operator, ROLE_SUPERVISOR)
                is Some) ==> r is Ok && {
                let h = r->Ok_0;
                &&& h@.len() == 32
                &&& exists|d: u64| 1 <= d && h@ == sha256_of(spec_claim_preimage(d, ROLE_ASSOCIATE))
                &&& final(self).spec_claim(h@) == Some(
                    ClaimData { role_id: ROLE_ASSOCIATE, recipient, valid: true },
                )
                &&& forall|h2: Seq<u8>|
                    h2 != h@ ==> #[trigger] final(self).spec_claim(h2) == old(self).spec_claim(h2)
                &&& final(self).log@.len() == old(self).log@.len() + 1
                &&& final(self).log@.subrange(0, old(self).log@.len() as int) == old(self).log@
                &&& final(self).log@.last() matches LogEntry::ClaimLinkGenerated {
                    role_id: lr,
                    recipient: lrec,
                    claim_hash: lh,
                } && lr == ROLE_ASSOCIATE && lrec == recipient && lh@ == h@
                &&& final(self).admin == old(self).admin
                &&& final(self).paused == old(self).paused
                &&& final(self).locked == old(self).locked
                &&& final(self).base_uri == old(self).base_uri
                &&& final(self).event_contract == old(self).event_contract
                &&& final(self).tokens == old(self).tokens
                &&& final(self).wallet_roles == old(self).wallet_roles
                &&& final(self).authorized == old(self).authorized
            },
    {
        let allowed = operator == self.admin || self.has_role(operator, ROLE_SUPERVISOR);
        if !allowed {
            return Err(Error::NotAuthorized);
        }
        Ok(self.new_claim(recipient, ROLE_ASSOCIATE))
    }

    /// Redeems the claim stored under `token_hash` for `wallet`: checks
    /// the pause flag, takes the reentrancy lock, requires a live claim
    /// bound to `wallet` for a role the wallet does not yet hold, then
    /// mints the token, consumes the claim (its role and recipient stay
    /// behind as audit history), logs the mint and releases the lock.
    /// Every failure leaves the registry exactly as it was.
    pub fn claim_nft(&mut self, token_hash: &Vec<u8>, wallet: u64) -> (r: Result<u64, Error>)
        requires
            old(self).wf(),
            old(self).tokens@.len() + 2 <= u64::MAX,
        ensures
            final(self).wf(),
            final(self).locked == old(self).locked,
            old(self).paused ==> r == Err::<u64, Error>(Error::Paused) && *final(self) == *old(self),
            !old(self).paused && old(self).locked ==> r == Err::<u64, Error>(Error::Reentrancy)
                && *final(self) == *old(self),
            !old(self).paused && !old(self).locked && old(self).spec_claim(token_hash@) is None ==> r
                == Err::<u64, Error>(Error::ClaimNotFound) && *final(self) == *old(self),
            !old(self).paused && !old(self).locked && old(self).spec_claim(token_hash@) is Some
                ==> {
                let c = old(self).spec_claim(token_hash@)->Some_0;
                &&& !c.valid ==> r == Err::<u64, Error>(Error::ClaimAlreadyUsed) && *final(self)
                    == *old(self)
                &&& c.valid && c.recipient != wallet ==> r == Err::<u64, Error>(
                    Error::RecipientMismatch,
                ) && *final(self) == *old(self)
                &&& c.valid && c.recipient == wallet && old(self).spec_role_token(wallet, c.role_id)
                    is Some ==> r == Err::<u64, Error>(Error::AlreadyHasRole) && *final(self)
                    == *old(self)
                &&& c.valid && c.recipient == wallet && old(self).spec_role_token(wallet, c.role_id)
                    is None ==> {
                    let nid = old(self).spec_next_token_id();
                    &&& r == Ok::<u64, Error>(nid)
                    &&& final(self).spec_token(nid) == Some(
                        TokenData { role_id: c.role_id, owner: wallet },
                    )
                    &&& forall|t: u64|
                        t != nid ==> #[trigger] final(self).spec_token(t) == old(self).spec_token(t)
                    &&& final(self).spec_role_token(wallet, c.role_id) == Some(nid)
                    &&& forall|w: u64, rr: u32|
                        !(w == wallet && rr == c.role_id) ==> #[trigger] final(self).spec_role_token(
                            w,
                            rr,
                        ) == old(self).spec_role_token(w, rr)
                    &&& final(self).spec_claim(token_hash@) == Some(
                        ClaimData { role_id: c.role_id, recipient: c.recipient, valid: false },
                    )
                    &&& forall|h2: Seq<u8>|
                        h2 != token_hash@ ==> #[trigger] final(self).spec_claim(h2) == old(self).spec_claim(h2)
                    &&& final(self).log@ == old(self).log@.push(
                        LogEntry::CredentialMinted {
                            role_id: c.role_id,
                            recipient: wallet,
                            token_id: nid,
                        },
                    )
                    &&& final(self).tokens@.len() == old(self).tokens@.len() + 1
                    &&& final(self).admin == old(self).admin
                    &&& final(self).paused == old(self).paused
                    &&& final(self).base_uri == old(self).base_uri
                    &&& final(self).event_contract == old(self).event_contract
                    &&& final(self).authorized == old(self).authorized
                }
            },
    {
        if self.paused {
            return Err(Error::Paused);
        }
        if self.locked {
            return Err(Error::Reentrancy);
        }
        self.locked = true;
        let claim = match blist_get(&self.claims, token_hash) {
            Some(c) => c,
            None => {
                self.locked = false;
                return Err(Error::ClaimNotFound);
            },
        };
        if !claim.valid {
            self.locked = false;
            return Err(Error::ClaimAlreadyUsed);
        }
        if claim.recipient != wallet {
            self.locked = false;
            return Err(Error::RecipientMismatch);
        }
        if self.role_token_for(wallet, claim.role_id).is_some() {
            self.locked = false;
            return Err(Error::AlreadyHasRole);
        }
        let nid = self.mint(claim.role_id, wallet);
        let ghost s1 = *self;
        let key = clone_bytes(token_hash);
        blist_set(
            &mut self.claims,
            key,
            ClaimData { role_id: claim.role_id, recipient: claim.recipient, valid: false },
        );
        let ghost s2 = *self;
        self.log.push(
            LogEntry::CredentialMinted { role_id: claim.role_id, recipient: wallet, token_id: nid },
        );
        self.locked = false;
        proof {
            assert(self.spec_token(nid) == s1.spec_token(nid));
            assert(self.spec_role_token(wallet, claim.role_id) == s1.spec_role_token(
                wallet,
                claim.role_id,
            ));
            assert forall|t: u64| t != nid implies #[trigger] self.spec_token(t) == old(self).spec_token(t) by {
                assert(self.spec_token(t) == s1.spec_token(t));
            }
            assert forall|w: u64, rr: u32|
                !(w == wallet && rr == claim.role_id) implies #[trigger] self.spec_role_token(w, rr)
                == old(self).spec_role_token(w, rr) by {
                assert(self.spec_role_token(w, rr) == s1.spec_role_token(w, rr));
            }
            assert(self.spec_claim(token_hash@) == s2.spec_claim(token_hash@));
            assert forall|h2: Seq<u8>| h2 != token_hash@ implies #[trigger] self.spec_claim(h2)
                == old(self).spec_claim(h2) by {
                assert(self.spec_claim(h2) == s2.spec_claim(h2));
                assert(s2.spec_claim(h2) == s1.spec_claim(h2));
                assert(s1.spec_claim(h2) == old(self).spec_claim(h2));
            }
            assert forall|h2: Seq<u8>| (#[trigger] bl_get(self.claims@, h2)) is Some implies role_ok(
                bl_get(self.claims@, h2)->Some_0.role_id,
            ) by {
                if h2 != token_hash@ {
                    assert(bl_get(s2.claims@, h2) == bl_get(s1.claims@, h2));
                }
            }
            assert(slots_match_tokens(self.tokens@, self.wallet_roles@));
        }
        Ok(nid)
    }

    /// Revokes the token `wallet` holds for `role_id`: admin-only and
    /// lock-guarded; the record cell is cleared, the slot emptied and
    /// the revocation logged. Every failure leaves the registry exactly
    /// as it was.
    pub fn revoke_credential(&mut self, caller: u64, wallet: u64, role_id: u32) -> (r: Result<
        (),
        Error,
    >)
        requires
            old(self).wf(),
        ensures
            final(self).wf(),
            final(self).locked == old(self).locked,
            caller != old(self).admin ==> r == Err::<(), Error>(Error::NotAuthorized) && *final(self)
                == *old(self),
            caller == old(self).admin && old(self).locked ==> r == Err::<(), Error>(
                Error::Reentrancy,
            ) && *final(self) == *old(self),
            caller == old(self).admin && !old(self).locked && old(self).spec_role_token(
                wallet,
                role_id,
            ) is None ==> r == Err::<(), Error>(Error::CredentialNotFound) && *final(self) == *old(self),
            caller == old(self).admin && !old(self).locked && old(self).spec_role_token(
                wallet,
                role_id,
            ) is Some ==> {
                let tid = old(self).spec_role_token(wallet, role_id)->Some_0;
                &&& r == Ok::<(), Error>(())
                &&& final(self).spec_token(tid) is None
                &&& forall|t: u64|
                    t != tid ==> #[trigger] final(self).spec_token(t) == old(self).spec_token(t)
                &&& final(self).spec_role_token(wallet, role_id) is None
                &&& forall|w: u64, rr: u32|
                    !(w == wallet && rr == role_id) ==> #[trigger] final(self).spec_role_token(
                        w,
                        rr,
                    ) == old(self).spec_role_token(w, rr)
                &&& final(self).log@ == old(self).log@.push(
                    LogEntry::CredentialRevoked { role_id, wallet, token_id: tid },
                )
                &&& final(self).tokens@.len() == old(self).tokens@.len()
                &&& final(self).admin == old(self).admin
                &&& final(self).paused == old(self).paused
                &&& final(self).base_uri == old(self).base_uri
                &&& final(self).event_contract == old(self).event_contract
                &&& final(self).claims == old(self).claims
                &&& final(self).authorized == old(self).authorized
            },
    {
        if caller != self.admin {
            return Err(Error::NotAuthorized);
        }
        if self.locked {
            return Err(Error::Reentrancy);
        }
        self.locked = true;
        match self.role_token_for(wallet, role_id) {
            Some(tid) => {
                self.burn(wallet, role_id, tid);
                let ghost s1 = *self;
                self.log.push(LogEntry::CredentialRevoked { role_id, wallet, token_id: tid });
                self.locked = false;
                proof {
                    assert(self.spec_token(tid) == s1.spec_token(tid));
                    assert(self.spec_role_token(wallet, role_id) == s1.spec_role_token(
                        wallet,
                        role_id,
                    ));
                    assert forall|t: u64| t != tid implies #[trigger] self.spec_token(t) == old(self).spec_token(t) by {
                        assert(self.spec_token(t) == s1.spec_token(t));
                    }
                    assert forall|w: u64, rr: u32|
                        !(w == wallet && rr == role_id) implies #[trigger] self.spec_role_token(
                        w,
                        rr,
                    ) == old(self).spec_role_token(w, rr) by {
                        assert(self.spec_role_token(w, rr) == s1.spec_role_token(w, rr));
                    }
                    assert(slots_match_tokens(self.tokens@, self.wallet_roles@));
                }
                Ok(())
            },
            None => {
                self.locked = false;
                Err(Error::CredentialNotFound)
            },
        }
    }
}

/// For every identity, each held (role, token) pair is matched by a
/// live token record binding exactly that role to that identity; the
/// slot structure itself holds at most one token per role kind.
pub proof fn lemma_role_token_matches(s: OwnerRules, wallet: u64, role_id: u32)
    requires
        s.wf(),
        s.spec_role_token(wallet, role_id) is Some,
    ensures
        s.spec_token(s.spec_role_token(wallet, role_id)->Some_0) == Some(
            TokenData { role_id, owner: wallet },
        ),
{
}

/// A live token backs at most one (identity, role) slot: two slots
/// naming the same token id belong to the same identity and role kind.
pub proof fn lemma_role_token_unique(s: OwnerRules, w1: u64, r1: u32, w2: u64, r2: u32)
    requires
        s.wf(),
        s.spec_role_token(w1, r1) is Some,
        s.spec_role_token(w1, r1) == s.spec_role_token(w2, r2),
    ensures
        w1 == w2 && r1 == r2,
{
    lemma_role_token_matches(s, w1, r1);
    lemma_role_token_matches(s, w2, r2);
}

} // verus!
