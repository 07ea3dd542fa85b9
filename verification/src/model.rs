//! The registry as a mathematical state machine.
//!
//! A [`RegistryView`] is what a registry holds, told with maps and sequences;
//! the functions on it say, for every state and every call, which state
//! follows and what the caller is told. The executable registry is specified
//! against these functions.

use vstd::prelude::*;
use vstd::utf8::encode_utf8;
use crate::account::AccountId;
use crate::error::Error;
use crate::gate::Gate;

verus! {

/// A stored record: the content's fingerprint and the account that owns it.
pub ghost struct ContentView {
    pub content_hash: Seq<char>,
    pub owner: AccountId,
}

/// Everything a registry holds.
pub ghost struct RegistryView {
    /// The administrator, bound when the registry is created.
    pub admin: AccountId,
    /// The kind of validation, chosen when the registry is created.
    pub gate: Gate,
    /// The validation rule that new fingerprints must satisfy.
    pub oracle_data: Seq<char>,
    /// The records, by content id.
    pub contents: Map<u64, ContentView>,
    /// The id that the next new fingerprint will receive.
    pub next_content_id: u64,
    /// The id under which each known fingerprint is recorded.
    pub content_hash_to_id: Map<Seq<char>, u64>,
}

/// The rule that a registry created without one starts with: the empty
/// rule, which admits every fingerprint.
pub open spec fn default_oracle_data() -> Seq<char> {
    Seq::empty()
}

/// A fingerprint satisfies a rule when its bytes begin with the rule's bytes.
pub open spec fn satisfies_rule(oracle_data: Seq<char>, content_hash: Seq<char>) -> bool {
    encode_utf8(oracle_data).is_prefix_of(encode_utf8(content_hash))
}

impl RegistryView {
    /// The registry right after its creation by `admin`.
    pub open spec fn created(admin: AccountId, oracle_data: Seq<char>, gate: Gate)
        -> RegistryView {
        RegistryView {
            admin,
            gate,
            oracle_data,
            contents: Map::empty(),
            next_content_id: 1,
            content_hash_to_id: Map::empty(),
        }
    }

    /// Every record is indexed under its own fingerprint.
    pub open spec fn records_are_indexed(self) -> bool {
        forall|id: u64| #[trigger]
            self.contents.contains_key(id) ==> {
                &&& self.content_hash_to_id.contains_key(self.contents[id].content_hash)
                &&& self.content_hash_to_id[self.contents[id].content_hash] == id
            }
    }

    /// Every index entry leads to a record with that fingerprint.
    pub open spec fn index_is_recorded(self) -> bool {
        forall|content_hash: Seq<char>| #[trigger]
            self.content_hash_to_id.contains_key(content_hash) ==> {
                &&& self.contents.contains_key(self.content_hash_to_id[content_hash])
                &&& self.contents[self.content_hash_to_id[content_hash]].content_hash
                    == content_hash
            }
    }

    /// The counter starts at 1 and lies above every id in use.
    pub open spec fn counter_is_above(self) -> bool {
        &&& self.next_content_id >= 1
        &&& forall|id: u64| #[trigger]
            self.contents.contains_key(id) ==> 1 <= id < self.next_content_id
    }

    /// What holds of a registry between any two calls.
    pub open spec fn well_formed(self) -> bool {
        &&& self.records_are_indexed()
        &&& self.index_is_recorded()
        &&& self.counter_is_above()
    }

    /// Whether a new fingerprint would be admitted as things stand.
    pub open spec fn accepts(self, content_hash: Seq<char>) -> bool {
        match self.gate {
            Gate::Oracle => satisfies_rule(self.oracle_data, content_hash),
            Gate::Open => true,
        }
    }

    /// The registry with a record for `content_hash`, owned by `owner`, under
    /// the id that the counter gives, and the counter advanced by one.
    pub open spec fn with_new_record(self, owner: AccountId, content_hash: Seq<char>)
        -> RegistryView {
        RegistryView {
            contents: self.contents.insert(
                self.next_content_id,
                ContentView { content_hash, owner },
            ),
            next_content_id: (self.next_content_id + 1) as u64,
            content_hash_to_id: self.content_hash_to_id.insert(
                content_hash,
                self.next_content_id,
            ),
            ..self
        }
    }

    /// The registry with the record under `content_id` handed to `new_owner`.
    pub open spec fn with_owner(self, content_id: u64, new_owner: AccountId) -> RegistryView {
        RegistryView {
            contents: self.contents.insert(
                content_id,
                ContentView { owner: new_owner, ..self.contents[content_id] },
            ),
            ..self
        }
    }

    /// A change of the validation rule: granted to the administrator alone.
    pub open spec fn update_oracle_data(self, caller: AccountId, new_data: Seq<char>) -> (
        RegistryView,
        Result<(), Error>,
    ) {
        if caller != self.admin {
            (self, Err(Error::NotAdmin))
        } else {
            (RegistryView { oracle_data: new_data, ..self }, Ok(()))
        }
    }

    /// A registration. A fingerprint that is not admitted is rejected; a known
    /// one gives back its id and changes nothing; a new one takes the next
    /// id, unless the counter is exhausted.
    pub open spec fn register_content(self, caller: AccountId, content_hash: Seq<char>) -> (
        RegistryView,
        Result<u64, Error>,
    ) {
        if !self.accepts(content_hash) {
            (self, Err(Error::InvalidContent))
        } else if self.content_hash_to_id.contains_key(content_hash) {
            (self, Ok(self.content_hash_to_id[content_hash]))
        } else if self.next_content_id == u64::MAX {
            (self, Err(Error::CounterOverflow))
        } else {
            (self.with_new_record(caller, content_hash), Ok(self.next_content_id))
        }
    }

    /// A transfer: granted to the record's current owner alone.
    pub open spec fn transfer_ownership(
        self,
        caller: AccountId,
        content_id: u64,
        new_owner: AccountId,
    ) -> (RegistryView, Result<(), Error>) {
        if !self.contents.contains_key(content_id) {
            (self, Err(Error::ContentNotFound))
        } else if caller != self.contents[content_id].owner {
            (self, Err(Error::NotOwner))
        } else {
            (self.with_owner(content_id, new_owner), Ok(()))
        }
    }

    /// A lookup: the record under `content_id`, if there is one.
    pub open spec fn get_content(self, content_id: u64) -> Option<ContentView> {
        if self.contents.contains_key(content_id) {
            Some(self.contents[content_id])
        } else {
            None
        }
    }
}

} // verus!
