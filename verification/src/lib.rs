//! A single-owner registry that associates an identity-verification
//! reference (a samsub id) with an account identifier and a validity flag.
//!
//! The owner is fixed by the first successful initialization and alone may
//! create records or change their validity; paginated reads are open to all.

use vstd::prelude::*;

pub mod account_data;
pub mod laws;
pub mod model;

pub use crate::account_data::AccountData;

use crate::account_data::views;
use crate::model::AccountDataView;
use crate::model::ContractDataView;
use crate::model::add_state;
use crate::model::auth_result;
use crate::model::edit_result;
use crate::model::edit_state;
use crate::model::has_key;
use crate::model::init_result;
use crate::model::init_state;
use crate::model::page;
use crate::model::set_validity;
use crate::model::unique_keys;
use crate::model::upsert;
use vstd::string::StrSliceExecFns;

verus! {

/// Why a mutating call was refused.
#[derive(Clone, Copy, Debug, PartialEq, Eq, Structural)]
pub enum ContractError {
    /// An owner is already set; initialization happens exactly once.
    AlreadyInitialized,
    /// The caller is not the owner (or no owner has been set yet).
    Unauthorized,
}

/// The registry: the single owner identity and the records keyed by samsub
/// id, in insertion order. Both are reached only through the operations
/// below; the host environment that authenticates callers and persists the
/// state stays outside and hands each call the caller's identity.
pub struct ContractData {
    owner_id: String,
    users_data: Vec<AccountData>,
}

impl View for ContractData {
    type V = ContractDataView;

    closed spec fn view(&self) -> ContractDataView {
        ContractDataView { owner_id: self.owner_id@, users_data: views(self.users_data@) }
    }
}

impl Default for ContractData {
    /// The state a registry is deployed in: no owner, no records.
    fn default() -> (d: Self)
        ensures
            d@.owner_id == Seq::<char>::empty(),
            d@.users_data == Seq::<AccountDataView>::empty(),
            d.wf(),
    {
        let d = ContractData { owner_id: String::new(), users_data: Vec::new() };
        proof {
            assert(d@.users_data =~= Seq::<AccountDataView>::empty());
        }
        d
    }
}

impl ContractData {
    /// The registry's invariant: each samsub id keys at most one record.
    pub open spec fn wf(&self) -> bool {
        unique_keys(self@.users_data)
    }

    /// The authorization gate of every mutation: `Ok` exactly when an owner
    /// is set and `caller` is that owner.
    pub fn assert_owner(&self, caller: &String) -> (r: Result<(), ContractError>)
        ensures
            r == auth_result(self@, caller@),
    {
        if self.owner_id.as_str().unicode_len() > 0 && *caller == self.owner_id {
            Ok(())
        } else {
            Err(ContractError::Unauthorized)
        }
    }

    /// The one-time initialization: the first caller becomes the owner; any
    /// later attempt is refused and changes nothing.
    pub fn new(&mut self, caller: String) -> (r: Result<(), ContractError>)
        requires
            old(self).wf(),
            caller@.len() > 0,
        ensures
            final(self).wf(),
            final(self)@ == init_state(old(self)@, caller@),
            r == init_result(old(self)@),
    {
        if self.owner_id.as_str().unicode_len() > 0 {
            return Err(ContractError::AlreadyInitialized);
        }
        self.owner_id = caller;
        Ok(())
    }

    /// The identity that owns the registry; empty until initialization.
    pub fn get_owner_id(&self) -> (r: &String)
        ensures
            r@ == self@.owner_id,
    {
        &self.owner_id
    }

    /// Upsert a record under its samsub id, for the owner only: an existing
    /// record under the same key is overwritten in place, otherwise the
    /// record is appended.
    pub fn add_account(
        &mut self,
        caller: String,
        near_account_id: String,
        samsub_id: String,
        is_valid: bool,
    ) -> (r: Result<(), ContractError>)
        requires
            old(self).wf(),
        ensures
            final(self).wf(),
            final(self)@ == add_state(old(self)@, caller@, near_account_id@, samsub_id@, is_valid),
            r == auth_result(old(self)@, caller@),
    {
        if let Err(e) = self.assert_owner(&caller) {
            return Err(e);
        }
        let idx = index_of_key(&self.users_data, &samsub_id);
        let account_data = AccountData::new(near_account_id, samsub_id, is_valid);
        let ghost s = old(self)@.users_data;
        let ghost rec = account_data@;
        proof {
            laws::lemma_upsert_preserves_unique(s, rec);
        }
        match idx {
            Some(i) => {
                proof {
                    laws::lemma_key_index_unique(s, rec.samsub_id, i as int);
                }
                self.users_data[i] = account_data;
                proof {
                    assert(self@.users_data =~= upsert(s, rec));
                }
            },
            None => {
                self.users_data.push(account_data);
                proof {
                    assert(self@.users_data =~= upsert(s, rec));
                }
            },
        }
        Ok(())
    }

    /// Replace the validity flag of the record under `samsub_id`, for the
    /// owner only. Returns `Ok(true)` when the key was present — only that
    /// record's flag changes — and `Ok(false)` when it was absent, leaving
    /// the store untouched.
    pub fn edit_user_data(&mut self, caller: String, samsub_id: String, is_valid: bool) -> (r:
        Result<bool, ContractError>)
        requires
            old(self).wf(),
        ensures
            final(self).wf(),
            final(self)@ == edit_state(old(self)@, caller@, samsub_id@, is_valid),
            r == edit_result(old(self)@, caller@, samsub_id@),
    {
        if let Err(e) = self.assert_owner(&caller) {
            return Err(e);
        }
        let ghost s = old(self)@.users_data;
        proof {
            laws::lemma_set_validity_frame(s, samsub_id@, is_valid);
        }
        match index_of_key(&self.users_data, &samsub_id) {
            Some(i) => {
                proof {
                    laws::lemma_key_index_unique(s, samsub_id@, i as int);
                }
                let near_account_id = self.users_data[i].near_account_id.clone();
                let stored_samsub_id = self.users_data[i].samsub_id.clone();
                let account_data = AccountData::new(near_account_id, stored_samsub_id, is_valid);
                self.users_data[i] = account_data;
                proof {
                    assert(self@.users_data =~= set_validity(s, samsub_id@, is_valid));
                }
                Ok(true)
            },
            None => Ok(false),
        }
    }

    /// The page of records starting at offset `from_index`, at most `limit`
    /// long, in insertion order. Out-of-range input is clamped to the
    /// bounds of the store, never an error.
    pub fn get_users_data(&self, from_index: u64, limit: u64) -> (r: Vec<AccountData>)
        ensures
            views(r@) == page(self@.users_data, from_index as int, limit as int),
            r@.len() == page(self@.users_data, from_index as int, limit as int).len(),
    {
        let key_count_usize: usize = self.users_data.len();
        let key_count: u64 = key_count_usize as u64;
        let start: u64 = if from_index < key_count {
            from_index
        } else {
            key_count
        };
        let end: u64 = if limit < key_count - start {
            start + limit
        } else {
            key_count
        };
        let mut result: Vec<AccountData> = Vec::new();
        let mut i: u64 = start;
        proof {
            assert(views(result@) =~= self@.users_data.subrange(start as int, start as int));
        }
        while i < end
            invariant
                start <= i <= end <= key_count,
                key_count == self@.users_data.len(),
                key_count == key_count_usize,
                views(result@) == self@.users_data.subrange(start as int, i as int),
            decreases end - i,
        {
            let ghost prev = result@;
            let rec = AccountData::from(&self.users_data[i as usize]);
            proof {
                assert(rec == self.users_data@[i as int]);
            }
            result.push(rec);
            proof {
                assert(result@ == prev.push(rec));
                assert(views(result@) =~= views(prev).push(rec@));
                assert(views(result@) =~= self@.users_data.subrange(start as int, i as int + 1));
            }
            i = i + 1;
        }
        proof {
            assert(views(result@) =~= page(self@.users_data, from_index as int, limit as int));
        }
        result
    }
}

/// The position in `v` of the record whose samsub id equals `samsub_id`,
/// if any record carries it.
fn index_of_key(v: &Vec<AccountData>, samsub_id: &String) -> (r: Option<usize>)
    ensures
        (r is Some) == has_key(views(v@), samsub_id@),
        match r {
            Some(i) => i < v@.len() && views(v@)[i as int].samsub_id == samsub_id@,
            None => true,
        },
{
    let n: usize = v.len();
    let mut i: usize = 0;
    while i < n
        invariant
            0 <= i <= n,
            n == v@.len(),
            forall|k: int| 0 <= k < i ==> views(v@)[k].samsub_id != samsub_id@,
        decreases n - i,
    {
        if v[i].samsub_id == *samsub_id {
            proof {
                let vi = i as int;
                assert(0 <= vi < views(v@).len() && views(v@)[vi].samsub_id == samsub_id@);
                assert(has_key(views(v@), samsub_id@));
            }
            return Some(i);
        }
        i = i + 1;
    }
    None
}

} // verus!
