//! One identity-verification record: the account it concerns, the samsub id
//! that keys it, and whether the verification currently counts as valid.

use vstd::prelude::*;

use crate::model::AccountDataView;

verus! {

/// One identity-verification outcome. The samsub id is the unique key under
/// which the registry stores the record.
#[derive(Debug, PartialEq)]
pub struct AccountData {
    pub near_account_id: String,
    pub samsub_id: String,
    pub is_valid: bool,
}

impl View for AccountData {
    type V = AccountDataView;

    open spec fn view(&self) -> AccountDataView {
        AccountDataView {
            near_account_id: self.near_account_id@,
            samsub_id: self.samsub_id@,
            is_valid: self.is_valid,
        }
    }
}

/// The ghost images of a sequence of records, element by element.
pub open spec fn views(s: Seq<AccountData>) -> Seq<AccountDataView> {
    s.map_values(|a: AccountData| a@)
}

impl AccountData {
    /// Build a record from its three fields.
    pub fn new(near_account_id: String, samsub_id: String, is_valid: bool) -> (r: Self)
        ensures
            r.near_account_id == near_account_id,
            r.samsub_id == samsub_id,
            r.is_valid == is_valid,
    {
        Self { near_account_id, samsub_id, is_valid }
    }
}

impl Default for AccountData {
    /// The empty record: both identifiers empty, the flag cleared.
    fn default() -> (r: Self)
        ensures
            r@.near_account_id == Seq::<char>::empty(),
            r@.samsub_id == Seq::<char>::empty(),
            !r@.is_valid,
    {
        Self { near_account_id: String::new(), samsub_id: String::new(), is_valid: false }
    }
}

impl From<&AccountData> for AccountData {
    /// A fresh record equal to the given one.
    fn from(account_data: &AccountData) -> (r: Self) {
        Self {
            near_account_id: account_data.near_account_id.clone(),
            samsub_id: account_data.samsub_id.clone(),
            is_valid: account_data.is_valid,
        }
    }
}

impl vstd::std_specs::convert::FromSpecImpl<&AccountData> for AccountData {
    open spec fn obeys_from_spec() -> bool {
        true
    }

    open spec fn from_spec(account_data: &AccountData) -> AccountData {
        *account_data
    }
}

} // verus!
