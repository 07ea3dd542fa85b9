//! Sequences of calls, and what a registry keeps for good across them.

use vstd::prelude::*;
use crate::account::AccountId;
use crate::model::RegistryView;

verus! {

/// A call that may change the registry.
pub ghost enum Call {
    UpdateOracleData { caller: AccountId, new_data: Seq<char> },
    RegisterContent { caller: AccountId, content_hash: Seq<char> },
    TransferOwnership { caller: AccountId, content_id: u64, new_owner: AccountId },
}

impl RegistryView {
    /// The registry after `call`, whether the call was granted or rejected.
    pub open spec fn after(self, call: Call) -> RegistryView {
        match call {
            Call::UpdateOracleData { caller, new_data } => self.update_oracle_data(
                caller,
                new_data,
            ).0,
            Call::RegisterContent { caller, content_hash } => self.register_content(
                caller,
                content_hash,
            ).0,
            Call::TransferOwnership { caller, content_id, new_owner } => self.transfer_ownership(
                caller,
                content_id,
                new_owner,
            ).0,
        }
    }

    /// The registry after `calls`, made one after the other.
    pub open spec fn after_all(self, calls: Seq<Call>) -> RegistryView
        decreases calls.len(),
    {
        if calls.len() == 0 {
            self
        } else {
            self.after_all(calls.drop_last()).after(calls.last())
        }
    }

    /// `self` keeps what `earlier` had settled: the administrator, the kind
    /// of validation, every id with its fingerprint, every index entry, and
    /// a counter that has not gone back.
    pub open spec fn keeps(self, earlier: RegistryView) -> bool {
        &&& self.admin == earlier.admin
        &&& self.gate == earlier.gate
        &&& earlier.next_content_id <= self.next_content_id
        &&& forall|id: u64| #[trigger]
            earlier.contents.contains_key(id) ==> {
                &&& self.contents.contains_key(id)
                &&& self.contents[id].content_hash == earlier.contents[id].content_hash
            }
        &&& forall|content_hash: Seq<char>| #[trigger]
            earlier.content_hash_to_id.contains_key(content_hash) ==> {
                &&& self.content_hash_to_id.contains_key(content_hash)
                &&& self.content_hash_to_id[content_hash]
                    == earlier.content_hash_to_id[content_hash]
            }
    }
}

} // verus!
