//! The registry: the state it keeps and the operations on it.

use vstd::prelude::*;
use crate::account::AccountId;
use crate::content::Content;
use crate::error::Error;
use crate::gate::Gate;
use crate::listing::{
    contents_of, in_issue_order, index_of, lemma_append, lemma_listed_is_well_formed,
    lemma_place_of_hash, lemma_place_of_id, lemma_replace_owner, lists_hash, lists_id,
};
use crate::model::{default_oracle_data, ContentView, RegistryView};

verus! {

/// The records of a list, each with its fingerprint and owner as values.
pub open spec fn listed(entries: Seq<(u64, Content)>) -> Seq<(u64, ContentView)> {
    Seq::new(entries.len(), |i: int| (entries[i].0, entries[i].1@))
}

/// Whether `text` begins with the bytes of `prefix`.
fn begins_with(text: &[u8], prefix: &[u8]) -> (r: bool)
    ensures
        r == prefix@.is_prefix_of(text@),
{
    if prefix.len() > text.len() {
        return false;
    }
    let mut i: usize = 0;
    while i < prefix.len()
        invariant
            i <= prefix.len() <= text.len(),
            forall|k: int| 0 <= k < i ==> prefix@[k] == text@[k],
        decreases prefix.len() - i,
    {
        if prefix[i] != text[i] {
            return false;
        }
        i += 1;
    }
    true
}

/// A registry of content: who owns which fingerprint, under which id.
pub struct ContentOwnership {
    admin: AccountId,
    gate: Gate,
    oracle_data: String,
    next_content_id: u64,
    entries: Vec<(u64, Content)>,
}

impl View for ContentOwnership {
    type V = RegistryView;

    closed spec fn view(&self) -> RegistryView {
        RegistryView {
            admin: self.admin,
            gate: self.gate,
            oracle_data: self.oracle_data@,
            contents: contents_of(listed(self.entries@)),
            next_content_id: self.next_content_id,
            content_hash_to_id: index_of(listed(self.entries@)),
        }
    }
}

impl ContentOwnership {
    #[verifier::type_invariant]
    spec fn kept_in_issue_order(&self) -> bool {
        in_issue_order(listed(self.entries@), self.next_content_id)
    }

    proof fn lemma_view_is_well_formed(&self)
        requires
            self.kept_in_issue_order(),
        ensures
            self@.well_formed(),
    {
        lemma_listed_is_well_formed(self@, listed(self.entries@));
    }

    /// A new, empty registry administered by `caller`, which admits the
    /// fingerprints that begin with its rule. Without an initial rule the
    /// registry starts with the empty rule and so admits every fingerprint,
    /// until the administrator sets a rule.
    pub fn new(caller: AccountId, initial_rule: Option<String>) -> (r: Self)
        ensures
            r@ == RegistryView::created(
                caller,
                match initial_rule {
                    Some(rule) => rule@,
                    None => default_oracle_data(),
                },
                Gate::Oracle,
            ),
            r@.well_formed(),
    {
        ContentOwnership::with_gate(caller, initial_rule, Gate::Oracle)
    }

    /// A new, empty registry administered by `caller`, with the kind of
    /// validation that `gate` names. Without an initial rule the registry
    /// starts with the empty rule, which admits every fingerprint.
    pub fn with_gate(caller: AccountId, initial_rule: Option<String>, gate: Gate) -> (r: Self)
        ensures
            r@ == RegistryView::created(
                caller,
                match initial_rule {
                    Some(rule) => rule@,
                    None => default_oracle_data(),
                },
                gate,
            ),
            r@.well_formed(),
    {
        let oracle_data = match initial_rule {
            Some(rule) => rule,
            None => String::new(),
        };
        let r = ContentOwnership {
            admin: caller,
            gate,
            oracle_data,
            next_content_id: 1,
            entries: Vec::new(),
        };
        proof {
            assert(contents_of(listed(r.entries@)) =~= Map::empty());
            assert(index_of(listed(r.entries@)) =~= Map::empty());
            r.lemma_view_is_well_formed();
        }
        r
    }

    /// Whether the registry, as things stand, admits `content_hash`.
    pub fn validate_content_with_oracle(&self, content_hash: &str) -> (r: bool)
        ensures
            r == self@.accepts(content_hash@),
    {
        match self.gate {
            Gate::Oracle => begins_with(
                content_hash.as_bytes(),
                self.oracle_data.as_str().as_bytes(),
            ),
            Gate::Open => true,
        }
    }

    /// Replaces the validation rule, for the administrator only.
    pub fn update_oracle_data(&mut self, caller: AccountId, new_data: String) -> (r: Result<
        (),
        Error,
    >)
        ensures
            final(self)@ == old(self)@.update_oracle_data(caller, new_data@).0,
            r == old(self)@.update_oracle_data(caller, new_data@).1,
            final(self)@.well_formed(),
    {
        proof {
            use_type_invariant(&*self);
            self.lemma_view_is_well_formed();
        }
        if caller != self.admin {
            return Err(Error::NotAdmin);
        }
        self.oracle_data = new_data;
        proof {
            self.lemma_view_is_well_formed();
        }
        Ok(())
    }

    /// The place of the record with the fingerprint `content_hash`, if one
    /// is kept.
    fn place_of_hash(&self, content_hash: &String) -> (r: Option<usize>)
        ensures
            match r {
                Some(i) => i < self.entries@.len() && self.entries@[i as int].1.content_hash@
                    == content_hash@,
                None => !lists_hash(listed(self.entries@), content_hash@),
            },
    {
        let mut i: usize = 0;
        while i < self.entries.len()
            invariant
                i <= self.entries@.len(),
                forall|k: int|
                    0 <= k < i ==> (#[trigger] listed(self.entries@)[k]).1.content_hash
                        != content_hash@,
            decreases self.entries@.len() - i,
        {
            if self.entries[i].1.content_hash == *content_hash {
                return Some(i);
            }
            i += 1;
        }
        None
    }

    /// The place of the record with the id `content_id`, if one is kept.
    fn place_of_id(&self, content_id: u64) -> (r: Option<usize>)
        ensures
            match r {
                Some(i) => i < self.entries@.len() && self.entries@[i as int].0 == content_id,
                None => !lists_id(listed(self.entries@), content_id),
            },
    {
        proof {
            use_type_invariant(self);
        }
        let mut low: usize = 0;
        let mut high: usize = self.entries.len();
        while low < high
            invariant
                low <= high <= self.entries@.len(),
                in_issue_order(listed(self.entries@), self.next_content_id),
                forall|k: int| 0 <= k < low ==> (#[trigger] listed(self.entries@)[k]).0 < content_id,
                forall|k: int|
                    high <= k < self.entries@.len() ==> (#[trigger] listed(self.entries@)[k]).0
                        > content_id,
            decreases high - low,
        {
            let middle: usize = low + (high - low) / 2;
            let here: u64 = self.entries[middle].0;
            assert(listed(self.entries@)[middle as int].0 == here);
            if here == content_id {
                return Some(middle);
            } else if here < content_id {
                low = middle + 1;
            } else {
                high = middle;
            }
        }
        None
    }

    /// Registers `content_hash` for `caller` and gives its content id. A
    /// fingerprint that is already registered keeps its id and its owner.
    pub fn register_content(&mut self, caller: AccountId, content_hash: String) -> (r: Result<
        u64,
        Error,
    >)
        ensures
            final(self)@ == old(self)@.register_content(caller, content_hash@).0,
            r == old(self)@.register_content(caller, content_hash@).1,
            final(self)@.well_formed(),
    {
        proof {
            use_type_invariant(&*self);
            self.lemma_view_is_well_formed();
        }
        if !self.validate_content_with_oracle(content_hash.as_str()) {
            return Err(Error::InvalidContent);
        }
        match self.place_of_hash(&content_hash) {
            Some(i) => {
                proof {
                    lemma_place_of_hash(
                        listed(self.entries@),
                        self.next_content_id,
                        i as int,
                    );
                }
                return Ok(self.entries[i].0);
            },
            None => {},
        }
        let content_id: u64 = self.next_content_id;
        let following: u64 = match content_id.checked_add(1) {
            Some(n) => n,
            None => {
                return Err(Error::CounterOverflow);
            },
        };
        let record = Content { content_hash, owner: caller };
        proof {
            lemma_append(content_id, listed(self.entries@), record@);
            assert(listed(self.entries@.push((content_id, record))) =~= listed(
                self.entries@,
            ).push((content_id, record@)));
        }
        let mut entries: Vec<(u64, Content)> = Vec::new();
        core::mem::swap(&mut self.entries, &mut entries);
        entries.push((content_id, record));
        self.next_content_id = following;
        core::mem::swap(&mut self.entries, &mut entries);
        proof {
            self.lemma_view_is_well_formed();
        }
        Ok(content_id)
    }

    /// Hands the record under `content_id` from `caller`, its owner, to
    /// `new_owner`.
    pub fn transfer_ownership(
        &mut self,
        caller: AccountId,
        content_id: u64,
        new_owner: AccountId,
    ) -> (r: Result<(), Error>)
        ensures
            final(self)@ == old(self)@.transfer_ownership(caller, content_id, new_owner).0,
            r == old(self)@.transfer_ownership(caller, content_id, new_owner).1,
            final(self)@.well_formed(),
    {
        proof {
            use_type_invariant(&*self);
            self.lemma_view_is_well_formed();
        }
        let i: usize = match self.place_of_id(content_id) {
            Some(i) => i,
            None => {
                return Err(Error::ContentNotFound);
            },
        };
        proof {
            lemma_place_of_id(listed(self.entries@), self.next_content_id, i as int);
        }
        if caller != self.entries[i].1.owner {
            return Err(Error::NotOwner);
        }
        proof {
            lemma_replace_owner(
                self.next_content_id,
                listed(self.entries@),
                i as int,
                new_owner,
            );
        }
        let mut entries: Vec<(u64, Content)> = Vec::new();
        core::mem::swap(&mut self.entries, &mut entries);
        entries[i].1.owner = new_owner;
        proof {
            assert(listed(entries@) =~= listed(old(self).entries@).update(
                i as int,
                (
                    content_id,
                    ContentView { owner: new_owner, ..listed(old(self).entries@)[i as int].1 },
                ),
            ));
        }
        core::mem::swap(&mut self.entries, &mut entries);
        proof {
            self.lemma_view_is_well_formed();
        }
        Ok(())
    }

    /// The record under `content_id`, if there is one.
    pub fn get_content(&self, content_id: u64) -> (r: Option<Content>)
        ensures
            match r {
                Some(content) => self@.get_content(content_id) == Some(content@),
                None => self@.get_content(content_id).is_none(),
            },
            self@.well_formed(),
    {
        proof {
            use_type_invariant(self);
            self.lemma_view_is_well_formed();
        }
        match self.place_of_id(content_id) {
            Some(i) => {
                proof {
                    lemma_place_of_id(listed(self.entries@), self.next_content_id, i as int);
                }
                Some(self.entries[i].1.clone())
            },
            None => None,
        }
    }

    /// A registry put together again from what an earlier one held: its
    /// administrator, gate, rule and counter, and its records as
    /// [`records`](Self::records) gave them. Records that no registry could
    /// have held under that counter are refused.
    pub fn restore(
        admin: AccountId,
        gate: Gate,
        oracle_data: String,
        next_content_id: u64,
        records: Vec<(u64, Content)>,
    ) -> (r: Option<Self>)
        ensures
            match r {
                Some(registry) => {
                    &&& in_issue_order(listed(records@), next_content_id)
                    &&& registry@ == (RegistryView {
                        admin,
                        gate,
                        oracle_data: oracle_data@,
                        contents: contents_of(listed(records@)),
                        next_content_id,
                        content_hash_to_id: index_of(listed(records@)),
                    })
                    &&& registry@.well_formed()
                },
                None => !in_issue_order(listed(records@), next_content_id),
            },
    {
        if next_content_id < 1 {
            return None;
        }
        let mut i: usize = 0;
        while i < records.len()
            invariant
                i <= records@.len(),
                next_content_id >= 1,
                in_issue_order(listed(records@).subrange(0, i as int), next_content_id),
            decreases records@.len() - i,
        {
            let content_id: u64 = records[i].0;
            assert(listed(records@)[i as int].0 == content_id);
            if content_id < 1 || content_id >= next_content_id {
                return None;
            }
            if i > 0 {
                assert(listed(records@)[i - 1].0 == records@[i - 1].0);
                if records[i - 1].0 >= content_id {
                    return None;
                }
            }
            let mut j: usize = 0;
            while j < i
                invariant
                    j <= i < records@.len(),
                    forall|k: int|
                        0 <= k < j ==> (#[trigger] listed(records@)[k]).1.content_hash != listed(
                            records@,
                        )[i as int].1.content_hash,
                decreases i - j,
            {
                if records[j].1.content_hash == records[i].1.content_hash {
                    assert(listed(records@)[j as int].1.content_hash == listed(
                        records@,
                    )[i as int].1.content_hash);
                    return None;
                }
                j += 1;
            }
            proof {
                let shorter = listed(records@).subrange(0, i as int);
                let longer = listed(records@).subrange(0, i + 1);
                assert forall|a: int, b: int| 0 <= a < b < longer.len() implies (
                #[trigger] longer[a]).0 < (#[trigger] longer[b]).0 by {
                    if b < i {
                        assert(shorter[a].0 < shorter[b].0);
                    } else if a < i - 1 {
                        assert(shorter[a].0 < shorter[i - 1].0);
                    }
                }
                assert forall|a: int, b: int| 0 <= a < b < longer.len() implies (
                #[trigger] longer[a]).1.content_hash != (#[trigger] longer[b]).1.content_hash by {
                    if b < i {
                        assert(shorter[a].1.content_hash != shorter[b].1.content_hash);
                    } else {
                        assert(listed(records@)[a].1.content_hash != listed(
                            records@,
                        )[i as int].1.content_hash);
                    }
                }
                assert forall|a: int| 0 <= a < longer.len() implies 1 <= (#[trigger] longer[a]).0
                    < next_content_id by {
                    if a < i {
                        assert(1 <= shorter[a].0 < next_content_id);
                    }
                }
            }
            i += 1;
        }
        proof {
            assert(listed(records@).subrange(0, i as int) =~= listed(records@));
        }
        let registry = ContentOwnership {
            admin,
            gate,
            oracle_data,
            next_content_id,
            entries: records,
        };
        proof {
            registry.lemma_view_is_well_formed();
        }
        Some(registry)
    }

    /// The records, in the order in which their ids were issued.
    pub fn records(&self) -> (r: Vec<(u64, Content)>)
        ensures
            in_issue_order(listed(r@), self@.next_content_id),
            contents_of(listed(r@)) == self@.contents,
            index_of(listed(r@)) == self@.content_hash_to_id,
            self@.well_formed(),
    {
        proof {
            use_type_invariant(self);
            self.lemma_view_is_well_formed();
        }
        let mut out: Vec<(u64, Content)> = Vec::new();
        let mut i: usize = 0;
        while i < self.entries.len()
            invariant
                i <= self.entries@.len(),
                out@.len() == i,
                listed(out@) =~= listed(self.entries@).subrange(0, i as int),
            decreases self.entries@.len() - i,
        {
            let ghost earlier = out@;
            let content = self.entries[i].1.clone();
            out.push((self.entries[i].0, content));
            proof {
                assert forall|k: int| 0 <= k < i + 1 implies listed(out@)[k] == listed(
                    self.entries@,
                )[k] by {
                    if k < i {
                        assert(out@[k] == earlier[k]);
                        assert(listed(earlier)[k] == listed(self.entries@).subrange(
                            0,
                            i as int,
                        )[k]);
                    }
                }
            }
            i += 1;
        }
        proof {
            assert(listed(out@) =~= listed(self.entries@));
        }
        out
    }

    /// The administrator.
    pub fn admin(&self) -> (r: AccountId)
        ensures
            r == self@.admin,
    {
        self.admin
    }

    /// The kind of validation that the registry applies.
    pub fn gate(&self) -> (r: Gate)
        ensures
            r == self@.gate,
    {
        self.gate
    }

    /// The id that the next new fingerprint will receive.
    pub fn next_content_id(&self) -> (r: u64)
        ensures
            r == self@.next_content_id,
    {
        self.next_content_id
    }

    /// The current validation rule.
    pub fn get_oracle_data(&self) -> (r: String)
        ensures
            r@ == self@.oracle_data,
    {
        self.oracle_data.clone()
    }
}

impl Default for ContentOwnership {
    /// An empty registry with the empty rule, which admits every
    /// fingerprint, administered by the account whose bytes are all zero.
    fn default() -> (r: Self)
        ensures
            r@ == RegistryView::created(r@.admin, default_oracle_data(), Gate::Oracle),
            forall|i: int| 0 <= i < 32 ==> r@.admin.0[i] == 0,
            r@.well_formed(),
    {
        ContentOwnership::new(AccountId([0u8; 32]), None)
    }
}

} // verus!
