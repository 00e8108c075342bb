//! The mathematical model of the registry: ghost images of the stored data
//! and the transition functions that every operation's contract refers to.

use vstd::prelude::*;

use crate::ContractError;
use vstd::math::min;

verus! {

/// Ghost image of one stored record: both identifiers as character
/// sequences, plus the validity flag.
pub struct AccountDataView {
    pub near_account_id: Seq<char>,
    pub samsub_id: Seq<char>,
    pub is_valid: bool,
}

/// Ghost image of the whole registry state.
pub struct ContractDataView {
    pub owner_id: Seq<char>,
    pub users_data: Seq<AccountDataView>,
}

/// Some stored record carries this samsub id.
pub open spec fn has_key(s: Seq<AccountDataView>, samsub_id: Seq<char>) -> bool {
    exists|i: int| 0 <= i < s.len() && s[i].samsub_id == samsub_id
}

/// An index of a record carrying this samsub id; under `unique_keys` it is
/// the only one.
pub open spec fn key_index(s: Seq<AccountDataView>, samsub_id: Seq<char>) -> int {
    choose|i: int| 0 <= i < s.len() && s[i].samsub_id == samsub_id
}

/// Every samsub id occurs at most once.
pub open spec fn unique_keys(s: Seq<AccountDataView>) -> bool {
    forall|i: int, j: int| 0 <= i < j < s.len() ==> s[i].samsub_id != s[j].samsub_id
}

/// Insert-or-replace keyed by the record's samsub id: an existing record
/// under the same key is overwritten in place, otherwise the record is
/// appended, so enumeration order is insertion order.
pub open spec fn upsert(s: Seq<AccountDataView>, rec: AccountDataView) -> Seq<AccountDataView> {
    if has_key(s, rec.samsub_id) {
        s.update(key_index(s, rec.samsub_id), rec)
    } else {
        s.push(rec)
    }
}

/// Replace the validity flag of the record under `samsub_id`, leaving both
/// identifiers in place; an absent key leaves the store unchanged.
pub open spec fn set_validity(
    s: Seq<AccountDataView>,
    samsub_id: Seq<char>,
    is_valid: bool,
) -> Seq<AccountDataView> {
    if has_key(s, samsub_id) {
        let i = key_index(s, samsub_id);
        s.update(
            i,
            AccountDataView {
                near_account_id: s[i].near_account_id,
                samsub_id: s[i].samsub_id,
                is_valid,
            },
        )
    } else {
        s
    }
}

/// The page of records starting at offset `from_index`, at most `limit`
/// long, clamped to the bounds of the store: out-of-range input yields a
/// shorter or empty page, never an error.
pub open spec fn page(s: Seq<AccountDataView>, from_index: int, limit: int) -> Seq<AccountDataView>
    recommends
        0 <= from_index,
        0 <= limit,
{
    s.subrange(min(from_index, s.len() as int), min(from_index + limit, s.len() as int))
}

/// An owner is set and the caller is that owner. While no owner is set,
/// no caller is authorized.
pub open spec fn is_owner(st: ContractDataView, caller: Seq<char>) -> bool {
    st.owner_id.len() > 0 && caller == st.owner_id
}

/// State after an initialization attempt: the first caller becomes the
/// owner; once an owner is set the state never changes again.
pub open spec fn init_state(st: ContractDataView, caller: Seq<char>) -> ContractDataView {
    if st.owner_id.len() == 0 {
        ContractDataView { owner_id: caller, users_data: st.users_data }
    } else {
        st
    }
}

/// Outcome of an initialization attempt.
pub open spec fn init_result(st: ContractDataView) -> Result<(), ContractError> {
    if st.owner_id.len() == 0 {
        Ok(())
    } else {
        Err(ContractError::AlreadyInitialized)
    }
}

/// Outcome of the authorization gate that guards every mutation.
pub open spec fn auth_result(st: ContractDataView, caller: Seq<char>) -> Result<(), ContractError> {
    if is_owner(st, caller) {
        Ok(())
    } else {
        Err(ContractError::Unauthorized)
    }
}

/// State after an upsert attempt: only the owner changes anything.
pub open spec fn add_state(
    st: ContractDataView,
    caller: Seq<char>,
    near_account_id: Seq<char>,
    samsub_id: Seq<char>,
    is_valid: bool,
) -> ContractDataView {
    if is_owner(st, caller) {
        ContractDataView {
            owner_id: st.owner_id,
            users_data: upsert(
                st.users_data,
                AccountDataView { near_account_id, samsub_id, is_valid },
            ),
        }
    } else {
        st
    }
}

/// State after a validity-edit attempt: only the owner changes anything,
/// and only the flag of the addressed record.
pub open spec fn edit_state(
    st: ContractDataView,
    caller: Seq<char>,
    samsub_id: Seq<char>,
    is_valid: bool,
) -> ContractDataView {
    if is_owner(st, caller) {
        ContractDataView {
            owner_id: st.owner_id,
            users_data: set_validity(st.users_data, samsub_id, is_valid),
        }
    } else {
        st
    }
}

/// Outcome of a validity-edit attempt: a non-owner is refused; for the
/// owner, the result reports whether the key was present.
pub open spec fn edit_result(
    st: ContractDataView,
    caller: Seq<char>,
    samsub_id: Seq<char>,
) -> Result<bool, ContractError> {
    if is_owner(st, caller) {
        Ok(has_key(st.users_data, samsub_id))
    } else {
        Err(ContractError::Unauthorized)
    }
}

/// One mutating call, with the authenticated caller it arrived with.
pub enum Op {
    Init { caller: Seq<char> },
    Add { caller: Seq<char>, near_account_id: Seq<char>, samsub_id: Seq<char>, is_valid: bool },
    Edit { caller: Seq<char>, samsub_id: Seq<char>, is_valid: bool },
}

/// The caller an operation arrived with.
pub open spec fn op_caller(op: Op) -> Seq<char> {
    match op {
        Op::Init { caller } => caller,
        Op::Add { caller, .. } => caller,
        Op::Edit { caller, .. } => caller,
    }
}

/// The transition one call makes on the registry state.
pub open spec fn step(st: ContractDataView, op: Op) -> ContractDataView {
    match op {
        Op::Init { caller } => init_state(st, caller),
        Op::Add { caller, near_account_id, samsub_id, is_valid } => add_state(
            st,
            caller,
            near_account_id,
            samsub_id,
            is_valid,
        ),
        Op::Edit { caller, samsub_id, is_valid } => edit_state(st, caller, samsub_id, is_valid),
    }
}

/// The state a whole sequence of calls leads to.
pub open spec fn run(st: ContractDataView, ops: Seq<Op>) -> ContractDataView
    decreases ops.len(),
{
    if ops.len() == 0 {
        st
    } else {
        run(step(st, ops[0]), ops.subrange(1, ops.len() as int))
    }
}

/// Index of the first initialization attempt in a call sequence
/// (the sequence's length if there is none).
pub open spec fn first_init(ops: Seq<Op>) -> int
    decreases ops.len(),
{
    if ops.len() == 0 {
        0
    } else if ops[0] is Init {
        0
    } else {
        1 + first_init(ops.subrange(1, ops.len() as int))
    }
}

} // verus!
