//! The laws the registry obeys, proved over the ghost model that the
//! operations' contracts are stated in.

use vstd::prelude::*;

use crate::ContractError;
use crate::model::AccountDataView;
use crate::model::ContractDataView;
use crate::model::Op;
use crate::model::add_state;
use crate::model::auth_result;
use crate::model::edit_result;
use crate::model::edit_state;
use crate::model::first_init;
use crate::model::has_key;
use crate::model::init_result;
use crate::model::init_state;
use crate::model::is_owner;
use crate::model::key_index;
use crate::model::op_caller;
use crate::model::page;
use crate::model::run;
use crate::model::set_validity;
use crate::model::step;
use crate::model::unique_keys;
use crate::model::upsert;

verus! {

/// An upsert keeps samsub ids unique: it either overwrites the one record
/// under the same key or appends a record under a fresh key.
pub proof fn lemma_upsert_preserves_unique(s: Seq<AccountDataView>, rec: AccountDataView)
    requires
        unique_keys(s),
    ensures
        unique_keys(upsert(s, rec)),
{
    if has_key(s, rec.samsub_id) {
        let i = key_index(s, rec.samsub_id);
        assert(0 <= i < s.len() && s[i].samsub_id == rec.samsub_id);
        let t = s.update(i, rec);
        assert forall|p: int, q: int| 0 <= p < q < t.len() implies t[p].samsub_id
            != t[q].samsub_id by {
            assert(s[p].samsub_id != s[q].samsub_id);
        }
    } else {
        let t = s.push(rec);
        assert forall|p: int, q: int| 0 <= p < q < t.len() implies t[p].samsub_id
            != t[q].samsub_id by {
            if q == s.len() {
                assert(t[p] == s[p]);
                if s[p].samsub_id == rec.samsub_id {
                    assert(has_key(s, rec.samsub_id));
                }
            } else {
                assert(s[p].samsub_id != s[q].samsub_id);
            }
        }
    }
}

/// Under unique keys, the stored index of a samsub id is the only index
/// whose record carries it.
pub proof fn lemma_key_index_unique(s: Seq<AccountDataView>, samsub_id: Seq<char>, i: int)
    requires
        unique_keys(s),
        0 <= i < s.len(),
        s[i].samsub_id == samsub_id,
    ensures
        key_index(s, samsub_id) == i,
{
    assert(has_key(s, samsub_id));
    let j = key_index(s, samsub_id);
    assert(0 <= j < s.len() && s[j].samsub_id == samsub_id);
    if i < j {
        assert(s[i].samsub_id != s[j].samsub_id);
    } else if j < i {
        assert(s[j].samsub_id != s[i].samsub_id);
    }
}

/// After an upsert, exactly one stored record carries the upserted samsub
/// id, and that record equals the upserted one, field for field.
pub proof fn lemma_upsert_membership(s: Seq<AccountDataView>, rec: AccountDataView)
    requires
        unique_keys(s),
    ensures
        ({
            let t = upsert(s, rec);
            &&& has_key(t, rec.samsub_id)
            &&& t[key_index(t, rec.samsub_id)] == rec
            &&& forall|i: int|
                0 <= i < t.len() && t[i].samsub_id == rec.samsub_id ==> i == key_index(
                    t,
                    rec.samsub_id,
                )
        }),
{
    lemma_upsert_preserves_unique(s, rec);
    let t = upsert(s, rec);
    if has_key(s, rec.samsub_id) {
        let i = key_index(s, rec.samsub_id);
        assert(0 <= i < s.len() && s[i].samsub_id == rec.samsub_id);
        assert(t[i] == rec);
        lemma_key_index_unique(t, rec.samsub_id, i);
    } else {
        assert(t[s.len() as int] == rec);
        lemma_key_index_unique(t, rec.samsub_id, s.len() as int);
    }
    assert forall|i: int|
        0 <= i < t.len() && t[i].samsub_id == rec.samsub_id implies i == key_index(
        t,
        rec.samsub_id,
    ) by {
        lemma_key_index_unique(t, rec.samsub_id, i);
    }
}

/// Upserting the same record twice leaves the same store as upserting it
/// once.
pub proof fn lemma_upsert_idempotent(s: Seq<AccountDataView>, rec: AccountDataView)
    requires
        unique_keys(s),
    ensures
        upsert(upsert(s, rec), rec) == upsert(s, rec),
{
    lemma_upsert_membership(s, rec);
    let t = upsert(s, rec);
    let i = key_index(t, rec.samsub_id);
    assert(upsert(t, rec) == t.update(i, rec));
    assert(t.update(i, rec) =~= t);
}

/// After the owner upserts a record, a page that starts at the first
/// record and asks for at least the whole store contains exactly one
/// record carrying the upserted samsub id, and its fields equal the
/// arguments passed.
pub proof fn lemma_added_record_is_listed(
    st: ContractDataView,
    caller: Seq<char>,
    near_account_id: Seq<char>,
    samsub_id: Seq<char>,
    is_valid: bool,
    limit: int,
)
    requires
        unique_keys(st.users_data),
        is_owner(st, caller),
        limit >= add_state(st, caller, near_account_id, samsub_id, is_valid).users_data.len(),
    ensures
        ({
            let listed = page(
                add_state(st, caller, near_account_id, samsub_id, is_valid).users_data,
                0,
                limit,
            );
            let rec = AccountDataView { near_account_id, samsub_id, is_valid };
            &&& has_key(listed, samsub_id)
            &&& listed[key_index(listed, samsub_id)] == rec
            &&& forall|i: int|
                0 <= i < listed.len() && listed[i].samsub_id == samsub_id ==> i == key_index(
                    listed,
                    samsub_id,
                )
        }),
{
    let rec = AccountDataView { near_account_id, samsub_id, is_valid };
    lemma_upsert_membership(st.users_data, rec);
    lemma_page_full(upsert(st.users_data, rec), limit);
}

/// Upserting the same arguments twice leaves the same registry state as
/// upserting them once.
pub proof fn lemma_add_account_idempotent(
    st: ContractDataView,
    caller: Seq<char>,
    near_account_id: Seq<char>,
    samsub_id: Seq<char>,
    is_valid: bool,
)
    requires
        unique_keys(st.users_data),
    ensures
        ({
            let once = add_state(st, caller, near_account_id, samsub_id, is_valid);
            add_state(once, caller, near_account_id, samsub_id, is_valid) == once
        }),
{
    if is_owner(st, caller) {
        lemma_upsert_idempotent(
            st.users_data,
            AccountDataView { near_account_id, samsub_id, is_valid },
        );
    }
}

/// Editing the validity of an absent samsub id changes nothing; editing a
/// present one changes only the flag of that one record, keeps every other
/// record word for word, and keeps the keys unique.
pub proof fn lemma_set_validity_frame(s: Seq<AccountDataView>, samsub_id: Seq<char>, is_valid: bool)
    requires
        unique_keys(s),
    ensures
        !has_key(s, samsub_id) ==> set_validity(s, samsub_id, is_valid) == s,
        has_key(s, samsub_id) ==> ({
            let i = key_index(s, samsub_id);
            let t = set_validity(s, samsub_id, is_valid);
            &&& 0 <= i < s.len()
            &&& t.len() == s.len()
            &&& t[i].is_valid == is_valid
            &&& t[i].samsub_id == s[i].samsub_id
            &&& t[i].near_account_id == s[i].near_account_id
            &&& forall|k: int| 0 <= k < s.len() && k != i ==> t[k] == s[k]
            &&& unique_keys(t)
        }),
{
    if has_key(s, samsub_id) {
        let i = key_index(s, samsub_id);
        assert(0 <= i < s.len() && s[i].samsub_id == samsub_id);
        let t = set_validity(s, samsub_id, is_valid);
        assert forall|p: int, q: int| 0 <= p < q < t.len() implies t[p].samsub_id
            != t[q].samsub_id by {
            assert(s[p].samsub_id != s[q].samsub_id);
        }
    }
}

/// A caller other than the owner is refused with `Unauthorized` and
/// mutates nothing, whichever mutation was attempted.
pub proof fn lemma_non_owner_rejected(
    st: ContractDataView,
    caller: Seq<char>,
    near_account_id: Seq<char>,
    samsub_id: Seq<char>,
    is_valid: bool,
)
    requires
        !is_owner(st, caller),
    ensures
        add_state(st, caller, near_account_id, samsub_id, is_valid) == st,
        edit_state(st, caller, samsub_id, is_valid) == st,
        auth_result(st, caller) == Err::<(), ContractError>(ContractError::Unauthorized),
        edit_result(st, caller, samsub_id) == Err::<bool, ContractError>(
            ContractError::Unauthorized,
        ),
{
}

/// A second initialization attempt, by whatever caller, is refused with
/// `AlreadyInitialized` and leaves the state of the first one unchanged.
pub proof fn lemma_initialize_once(
    st: ContractDataView,
    first_caller: Seq<char>,
    second_caller: Seq<char>,
)
    requires
        st.owner_id.len() == 0,
        first_caller.len() > 0,
    ensures
        ({
            let st1 = init_state(st, first_caller);
            &&& st1.owner_id == first_caller
            &&& st1.users_data == st.users_data
            &&& init_result(st1) == Err::<(), ContractError>(ContractError::AlreadyInitialized)
            &&& init_state(st1, second_caller) == st1
        }),
{
}

/// A page that starts at the first record and asks for at least the whole
/// store shows the whole store.
pub proof fn lemma_page_full(s: Seq<AccountDataView>, limit: int)
    requires
        limit >= s.len(),
    ensures
        page(s, 0, limit) == s,
{
    assert(page(s, 0, limit) =~= s);
}

/// Pagination clamps instead of failing: an offset at or past the end
/// yields the empty page, a zero limit yields the empty page, and in
/// general the page is the records from `from_index` on, at most `limit`
/// of them, in stored order.
pub proof fn lemma_page_clamp(s: Seq<AccountDataView>, from_index: int, limit: int)
    requires
        0 <= from_index,
        0 <= limit,
    ensures
        from_index >= s.len() ==> page(s, from_index, limit) == Seq::<AccountDataView>::empty(),
        limit == 0 ==> page(s, from_index, limit) == Seq::<AccountDataView>::empty(),
        from_index + limit <= s.len() ==> page(s, from_index, limit) == s.subrange(
            from_index,
            from_index + limit,
        ),
        from_index < s.len() <= from_index + limit ==> page(s, from_index, limit) == s.subrange(
            from_index,
            s.len() as int,
        ),
{
    if from_index >= s.len() || limit == 0 {
        assert(page(s, from_index, limit) =~= Seq::<AccountDataView>::empty());
    }
}

/// No call moves the owner once one is set.
pub proof fn lemma_step_preserves_owner(st: ContractDataView, op: Op)
    requires
        st.owner_id.len() > 0,
    ensures
        step(st, op).owner_id == st.owner_id,
{
}

/// No sequence of calls moves the owner once one is set.
pub proof fn lemma_run_preserves_owner(st: ContractDataView, ops: Seq<Op>)
    requires
        st.owner_id.len() > 0,
    ensures
        run(st, ops).owner_id == st.owner_id,
    decreases ops.len(),
{
    if ops.len() > 0 {
        lemma_step_preserves_owner(st, ops[0]);
        lemma_run_preserves_owner(step(st, ops[0]), ops.subrange(1, ops.len() as int));
    }
}

/// Starting from an uninitialized registry, the owner is the caller of the
/// first initialization in the call sequence, and every call after it
/// leaves that owner in place.
pub proof fn lemma_owner_is_first_initializer(st: ContractDataView, ops: Seq<Op>)
    requires
        st.owner_id.len() == 0,
        forall|i: int| #![auto] 0 <= i < ops.len() && ops[i] is Init ==> op_caller(ops[i]).len() > 0,
        exists|i: int| 0 <= i < ops.len() && ops[i] is Init,
    ensures
        0 <= first_init(ops) < ops.len(),
        ops[first_init(ops)] is Init,
        run(st, ops).owner_id == op_caller(ops[first_init(ops)]),
    decreases ops.len(),
{
    let tail = ops.subrange(1, ops.len() as int);
    if ops[0] is Init {
        assert(first_init(ops) == 0);
        let st1 = step(st, ops[0]);
        assert(st1.owner_id == op_caller(ops[0]));
        lemma_run_preserves_owner(st1, tail);
    } else {
        let st1 = step(st, ops[0]);
        assert(st1.owner_id == st.owner_id);
        let w = choose|i: int| 0 <= i < ops.len() && ops[i] is Init;
        assert(w >= 1);
        assert(tail[w - 1] is Init);
        assert forall|i: int| #![auto]
            0 <= i < tail.len() && tail[i] is Init implies op_caller(tail[i]).len() > 0 by {
            assert(tail[i] == ops[i + 1]);
        }
        lemma_owner_is_first_initializer(st1, tail);
        assert(first_init(ops) == 1 + first_init(tail));
        assert(ops[first_init(ops)] == tail[first_init(tail)]);
    }
}

/// A call sequence without an initialization leaves the registry without
/// an owner.
pub proof fn lemma_no_init_no_owner(st: ContractDataView, ops: Seq<Op>)
    requires
        st.owner_id.len() == 0,
        forall|i: int| 0 <= i < ops.len() ==> !(#[trigger] ops[i] is Init),
    ensures
        run(st, ops).owner_id.len() == 0,
    decreases ops.len(),
{
    if ops.len() > 0 {
        let tail = ops.subrange(1, ops.len() as int);
        assert(forall|i: int| 0 <= i < tail.len() ==> !(#[trigger] tail[i] is Init));
        lemma_no_init_no_owner(step(st, ops[0]), tail);
    }
}

} // verus!
