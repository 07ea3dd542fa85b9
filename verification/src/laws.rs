//! What holds of the registry whatever is asked of it, proved of the state
//! machine that the executable registry is specified against.

use vstd::prelude::*;
use vstd::utf8::{
    decode_utf8, decode_utf8_split, encode_utf8, encode_utf8_decode_utf8, encode_utf8_valid_utf8,
    is_char_boundary, length_of_first_scalar, pop_first_scalar, valid_first_scalar, valid_utf8,
};
use crate::account::AccountId;
use crate::error::Error;
use crate::gate::Gate;
use crate::history::Call;
use crate::model::{default_oracle_data, satisfies_rule, ContentView, RegistryView};

verus! {

/// The encoding of a text followed by another is the encoding of the first
/// followed by the encoding of the second.
pub proof fn lemma_encode_concat(first: Seq<char>, second: Seq<char>)
    ensures
        encode_utf8(first + second) == encode_utf8(first) + encode_utf8(second),
    decreases first.len(),
{
    if first.len() == 0 {
        assert(first + second =~= second);
        assert(encode_utf8(first) + encode_utf8(second) =~= encode_utf8(second));
    } else {
        lemma_encode_concat(first.drop_first(), second);
        assert((first + second).drop_first() =~= first.drop_first() + second);
        assert((first + second)[0] == first[0]);
        assert(encode_utf8(first + second) =~= encode_utf8(first) + encode_utf8(second));
    }
}

/// The empty rule admits every fingerprint.
pub proof fn lemma_empty_rule_admits_all(content_hash: Seq<char>)
    ensures
        satisfies_rule(Seq::empty(), content_hash),
{
    assert(encode_utf8(Seq::<char>::empty()) =~= Seq::<u8>::empty());
}

/// A registry created without a rule admits every fingerprint, whatever
/// its kind of validation.
pub proof fn lemma_created_without_rule_admits_all(
    admin: AccountId,
    gate: Gate,
    content_hash: Seq<char>,
)
    ensures
        RegistryView::created(admin, default_oracle_data(), gate).accepts(content_hash),
{
    lemma_empty_rule_admits_all(content_hash);
}

/// A rule admits every fingerprint that is the rule followed by anything.
pub proof fn lemma_rule_admits_its_extensions(oracle_data: Seq<char>, rest: Seq<char>)
    ensures
        satisfies_rule(oracle_data, oracle_data + rest),
{
    lemma_encode_concat(oracle_data, rest);
    assert((encode_utf8(oracle_data) + encode_utf8(rest)).subrange(
        0,
        encode_utf8(oracle_data).len() as int,
    ) =~= encode_utf8(oracle_data));
}

/// Where the first `n` bytes of a well-formed encoding are a well-formed
/// encoding themselves, a character begins or the text ends after them.
proof fn lemma_encoded_prefix_ends_a_character(bytes: Seq<u8>, n: int)
    requires
        valid_utf8(bytes),
        0 <= n <= bytes.len(),
        valid_utf8(bytes.subrange(0, n)),
    ensures
        is_char_boundary(bytes, n),
    decreases bytes.len(),
{
    if n != 0 {
        let head = bytes.subrange(0, n);
        let width = length_of_first_scalar(bytes);
        assert(head[0] == bytes[0]);
        assert(valid_first_scalar(head));
        assert(length_of_first_scalar(head) == width);
        assert(width <= n);
        assert(pop_first_scalar(head) =~= pop_first_scalar(bytes).subrange(0, n - width));
        lemma_encoded_prefix_ends_a_character(pop_first_scalar(bytes), n - width);
    }
}

/// A rule admits exactly the fingerprints that begin with its characters:
/// to begin with the bytes of a text and to begin with its characters is
/// one and the same.
pub proof fn lemma_rule_admits_what_begins_with_it(oracle_data: Seq<char>, content_hash: Seq<char>)
    ensures
        satisfies_rule(oracle_data, content_hash) <==> oracle_data.is_prefix_of(content_hash),
{
    if oracle_data.is_prefix_of(content_hash) {
        let rest = content_hash.subrange(oracle_data.len() as int, content_hash.len() as int);
        assert(content_hash =~= oracle_data + rest);
        lemma_rule_admits_its_extensions(oracle_data, rest);
    }
    if satisfies_rule(oracle_data, content_hash) {
        let rule_bytes = encode_utf8(oracle_data);
        let hash_bytes = encode_utf8(content_hash);
        let n = rule_bytes.len() as int;
        encode_utf8_valid_utf8(oracle_data);
        encode_utf8_valid_utf8(content_hash);
        assert(hash_bytes.subrange(0, n) =~= rule_bytes);
        lemma_encoded_prefix_ends_a_character(hash_bytes, n);
        decode_utf8_split(hash_bytes, n);
        encode_utf8_decode_utf8(oracle_data);
        encode_utf8_decode_utf8(content_hash);
        let rest = decode_utf8(hash_bytes.subrange(n, hash_bytes.len() as int));
        assert(content_hash =~= oracle_data + rest);
        assert((oracle_data + rest).subrange(0, oracle_data.len() as int) =~= oracle_data);
    }
}

/// A registry is well formed when it is created.
pub proof fn lemma_created_well_formed(admin: AccountId, oracle_data: Seq<char>, gate: Gate)
    ensures
        RegistryView::created(admin, oracle_data, gate).well_formed(),
{
}

/// No call, granted or rejected, takes a registry out of well-formedness.
pub proof fn lemma_call_keeps_well_formed(before: RegistryView, call: Call)
    requires
        before.well_formed(),
    ensures
        before.after(call).well_formed(),
{
    let after = before.after(call);
    match call {
        Call::UpdateOracleData { caller, new_data } => {},
        Call::RegisterContent { caller, content_hash } => {
            if after != before {
                let id = before.next_content_id;
                assert(!before.contents.contains_key(id));
                assert forall|other: u64| #[trigger] after.contents.contains_key(other) implies {
                    &&& after.content_hash_to_id.contains_key(after.contents[other].content_hash)
                    &&& after.content_hash_to_id[after.contents[other].content_hash] == other
                } by {
                    if other != id {
                        assert(before.contents.contains_key(other));
                        assert(before.content_hash_to_id.contains_key(
                            before.contents[other].content_hash,
                        ));
                    }
                }
                assert forall|h: Seq<char>| #[trigger]
                    after.content_hash_to_id.contains_key(h) implies {
                    &&& after.contents.contains_key(after.content_hash_to_id[h])
                    &&& after.contents[after.content_hash_to_id[h]].content_hash == h
                } by {
                    if h != content_hash {
                        assert(before.content_hash_to_id.contains_key(h));
                    }
                }
                assert forall|other: u64| #[trigger] after.contents.contains_key(other) implies 1
                    <= other < after.next_content_id by {
                    if other != id {
                        assert(before.contents.contains_key(other));
                    }
                }
            }
        },
        Call::TransferOwnership { caller, content_id, new_owner } => {
            if after != before {
                assert forall|other: u64| #[trigger] after.contents.contains_key(other) implies {
                    &&& after.content_hash_to_id.contains_key(after.contents[other].content_hash)
                    &&& after.content_hash_to_id[after.contents[other].content_hash] == other
                    &&& 1 <= other < after.next_content_id
                } by {
                    assert(before.contents.contains_key(other));
                }
                assert forall|h: Seq<char>| #[trigger]
                    after.content_hash_to_id.contains_key(h) implies {
                    &&& after.contents.contains_key(after.content_hash_to_id[h])
                    &&& after.contents[after.content_hash_to_id[h]].content_hash == h
                } by {
                    assert(before.content_hash_to_id.contains_key(h));
                }
            }
        },
    }
}

/// No sequence of calls takes a registry out of well-formedness.
pub proof fn lemma_calls_keep_well_formed(start: RegistryView, calls: Seq<Call>)
    requires
        start.well_formed(),
    ensures
        start.after_all(calls).well_formed(),
    decreases calls.len(),
{
    if calls.len() > 0 {
        lemma_calls_keep_well_formed(start, calls.drop_last());
        lemma_call_keeps_well_formed(start.after_all(calls.drop_last()), calls.last());
    }
}

/// In a well-formed registry two fingerprints never share an id.
pub proof fn lemma_one_fingerprint_per_id(
    registry: RegistryView,
    first: Seq<char>,
    second: Seq<char>,
)
    requires
        registry.well_formed(),
        registry.content_hash_to_id.contains_key(first),
        registry.content_hash_to_id.contains_key(second),
        registry.content_hash_to_id[first] == registry.content_hash_to_id[second],
    ensures
        first == second,
{
}

/// A rejected call changes nothing.
pub proof fn lemma_rejected_call_changes_nothing(before: RegistryView, call: Call)
    ensures
        match call {
            Call::UpdateOracleData { caller, new_data } => before.update_oracle_data(
                caller,
                new_data,
            ).1 is Err ==> before.after(call) == before,
            Call::RegisterContent { caller, content_hash } => before.register_content(
                caller,
                content_hash,
            ).1 is Err ==> before.after(call) == before,
            Call::TransferOwnership { caller, content_id, new_owner } => before.transfer_ownership(
                caller,
                content_id,
                new_owner,
            ).1 is Err ==> before.after(call) == before,
        },
{
}

/// Whatever is called, the registry keeps its administrator, its kind of
/// validation, its ids with their fingerprints, and its index entries; the
/// counter never goes back.
pub proof fn lemma_call_keeps_settled(before: RegistryView, call: Call)
    requires
        before.well_formed(),
    ensures
        before.after(call).keeps(before),
{
    let after = before.after(call);
    match call {
        Call::UpdateOracleData { caller, new_data } => {},
        Call::RegisterContent { caller, content_hash } => {
            if after != before {
                assert(!before.contents.contains_key(before.next_content_id));
            }
        },
        Call::TransferOwnership { caller, content_id, new_owner } => {},
    }
}

/// What one registry keeps of another, it keeps of all that the other kept.
pub proof fn lemma_keeps_is_transitive(
    first: RegistryView,
    second: RegistryView,
    third: RegistryView,
)
    requires
        second.keeps(first),
        third.keeps(second),
    ensures
        third.keeps(first),
{
    assert forall|id: u64| #[trigger] first.contents.contains_key(id) implies {
        &&& third.contents.contains_key(id)
        &&& third.contents[id].content_hash == first.contents[id].content_hash
    } by {
        assert(second.contents.contains_key(id));
    }
    assert forall|h: Seq<char>| #[trigger] first.content_hash_to_id.contains_key(h) implies {
        &&& third.content_hash_to_id.contains_key(h)
        &&& third.content_hash_to_id[h] == first.content_hash_to_id[h]
    } by {
        assert(second.content_hash_to_id.contains_key(h));
    }
}

/// After any further calls a registry keeps what it had settled after the
/// first `n` of them.
pub proof fn lemma_calls_keep_settled(start: RegistryView, calls: Seq<Call>, n: int)
    requires
        start.well_formed(),
        0 <= n <= calls.len(),
    ensures
        start.after_all(calls).keeps(start.after_all(calls.take(n))),
    decreases calls.len(),
{
    if n == calls.len() {
        assert(calls.take(n) =~= calls);
    } else {
        let shorter = calls.drop_last();
        lemma_calls_keep_settled(start, shorter, n);
        assert(shorter.take(n) =~= calls.take(n));
        lemma_calls_keep_well_formed(start, shorter);
        lemma_call_keeps_settled(start.after_all(shorter), calls.last());
        lemma_keeps_is_transitive(
            start.after_all(calls.take(n)),
            start.after_all(shorter),
            start.after_all(calls),
        );
    }
}

/// A successful registration leaves the fingerprint indexed under the id
/// that it returned.
pub proof fn lemma_registered_is_indexed(
    before: RegistryView,
    caller: AccountId,
    content_hash: Seq<char>,
)
    requires
        before.register_content(caller, content_hash).1 is Ok,
    ensures
        ({
            let (after, outcome) = before.register_content(caller, content_hash);
            &&& after.content_hash_to_id.contains_key(content_hash)
            &&& after.content_hash_to_id[content_hash] == outcome->Ok_0
        }),
{
}

/// Among the calls made of a registry, two successful registrations of
/// different fingerprints return different ids; and where the later one
/// registers a fingerprint that was not known before it, its id is the
/// greater.
pub proof fn lemma_ids_are_unique_and_ascend(
    start: RegistryView,
    calls: Seq<Call>,
    i: int,
    j: int,
)
    requires
        start.well_formed(),
        0 <= i < j < calls.len(),
        calls[i] is RegisterContent,
        calls[j] is RegisterContent,
        calls[i]->RegisterContent_content_hash != calls[j]->RegisterContent_content_hash,
        start.after_all(calls.take(i)).register_content(
            calls[i]->RegisterContent_caller,
            calls[i]->RegisterContent_content_hash,
        ).1 is Ok,
        start.after_all(calls.take(j)).register_content(
            calls[j]->RegisterContent_caller,
            calls[j]->RegisterContent_content_hash,
        ).1 is Ok,
    ensures
        ({
            let earlier = start.after_all(calls.take(i)).register_content(
                calls[i]->RegisterContent_caller,
                calls[i]->RegisterContent_content_hash,
            ).1->Ok_0;
            let later_state = start.after_all(calls.take(j));
            let later = later_state.register_content(
                calls[j]->RegisterContent_caller,
                calls[j]->RegisterContent_content_hash,
            ).1->Ok_0;
            &&& earlier != later
            &&& !later_state.content_hash_to_id.contains_key(
                calls[j]->RegisterContent_content_hash,
            ) ==> earlier < later
        }),
{
    let first_hash = calls[i]->RegisterContent_content_hash;
    let second_hash = calls[j]->RegisterContent_content_hash;
    let before_first = start.after_all(calls.take(i));
    let after_first = start.after_all(calls.take(i + 1));
    let before_second = start.after_all(calls.take(j));
    assert(calls.take(i + 1).drop_last() =~= calls.take(i));
    assert(calls.take(i + 1).last() == calls[i]);
    assert(after_first == before_first.after(calls[i]));
    lemma_registered_is_indexed(before_first, calls[i]->RegisterContent_caller, first_hash);
    lemma_calls_keep_settled(start, calls.take(j), i + 1);
    assert(calls.take(j).take(i + 1) =~= calls.take(i + 1));
    lemma_calls_keep_well_formed(start, calls.take(j));
    assert(before_second.content_hash_to_id.contains_key(first_hash));
    if before_second.content_hash_to_id.contains_key(second_hash)
        && before_second.content_hash_to_id[first_hash]
        == before_second.content_hash_to_id[second_hash] {
        lemma_one_fingerprint_per_id(before_second, first_hash, second_hash);
    }
}

/// A fingerprint that is indexed after some calls was indexed before them,
/// or one of them registered it.
pub proof fn lemma_indexed_was_registered(
    start: RegistryView,
    calls: Seq<Call>,
    content_hash: Seq<char>,
)
    requires
        start.after_all(calls).content_hash_to_id.contains_key(content_hash),
        !start.content_hash_to_id.contains_key(content_hash),
    ensures
        exists|k: int|
            0 <= k < calls.len() && (#[trigger] calls[k]) is RegisterContent
                && calls[k]->RegisterContent_content_hash == content_hash,
    decreases calls.len(),
{
    if calls.len() > 0 {
        let shorter = calls.drop_last();
        if start.after_all(shorter).content_hash_to_id.contains_key(content_hash) {
            lemma_indexed_was_registered(start, shorter, content_hash);
            let k = choose|k: int|
                0 <= k < shorter.len() && (#[trigger] shorter[k]) is RegisterContent
                    && shorter[k]->RegisterContent_content_hash == content_hash;
            assert(calls[k] == shorter[k]);
        } else {
            assert(calls[calls.len() - 1] == calls.last());
        }
    }
}

/// Among the calls made of a registry, a successful registration of a
/// fingerprint that the registry did not know at the start, and that no
/// earlier call names, returns an id above those of all successful
/// registrations before it.
pub proof fn lemma_first_registrations_ascend(
    start: RegistryView,
    calls: Seq<Call>,
    i: int,
    j: int,
)
    requires
        start.well_formed(),
        0 <= i < j < calls.len(),
        calls[i] is RegisterContent,
        calls[j] is RegisterContent,
        !start.content_hash_to_id.contains_key(calls[j]->RegisterContent_content_hash),
        forall|k: int|
            0 <= k < j && (#[trigger] calls[k]) is RegisterContent
                ==> calls[k]->RegisterContent_content_hash
                != calls[j]->RegisterContent_content_hash,
        start.after_all(calls.take(i)).register_content(
            calls[i]->RegisterContent_caller,
            calls[i]->RegisterContent_content_hash,
        ).1 is Ok,
        start.after_all(calls.take(j)).register_content(
            calls[j]->RegisterContent_caller,
            calls[j]->RegisterContent_content_hash,
        ).1 is Ok,
    ensures
        start.after_all(calls.take(i)).register_content(
            calls[i]->RegisterContent_caller,
            calls[i]->RegisterContent_content_hash,
        ).1->Ok_0 < start.after_all(calls.take(j)).register_content(
            calls[j]->RegisterContent_caller,
            calls[j]->RegisterContent_content_hash,
        ).1->Ok_0,
{
    let content_hash = calls[j]->RegisterContent_content_hash;
    let earlier = calls.take(j);
    if start.after_all(earlier).content_hash_to_id.contains_key(content_hash) {
        lemma_indexed_was_registered(start, earlier, content_hash);
        let k = choose|k: int|
            0 <= k < earlier.len() && (#[trigger] earlier[k]) is RegisterContent
                && earlier[k]->RegisterContent_content_hash == content_hash;
        assert(calls[k] == earlier[k]);
    }
    lemma_ids_are_unique_and_ascend(start, calls, i, j);
}

/// Among the calls made of a registry, two successful registrations of one
/// fingerprint return the same id, whoever makes them, and the later one
/// changes nothing: the record keeps its owner.
pub proof fn lemma_registering_again_changes_nothing(
    start: RegistryView,
    calls: Seq<Call>,
    i: int,
    j: int,
)
    requires
        start.well_formed(),
        0 <= i < j < calls.len(),
        calls[i] is RegisterContent,
        calls[j] is RegisterContent,
        calls[i]->RegisterContent_content_hash == calls[j]->RegisterContent_content_hash,
        start.after_all(calls.take(i)).register_content(
            calls[i]->RegisterContent_caller,
            calls[i]->RegisterContent_content_hash,
        ).1 is Ok,
        start.after_all(calls.take(j)).register_content(
            calls[j]->RegisterContent_caller,
            calls[j]->RegisterContent_content_hash,
        ).1 is Ok,
    ensures
        start.after_all(calls.take(j)).register_content(
            calls[j]->RegisterContent_caller,
            calls[j]->RegisterContent_content_hash,
        ) == (
            start.after_all(calls.take(j)),
            start.after_all(calls.take(i)).register_content(
                calls[i]->RegisterContent_caller,
                calls[i]->RegisterContent_content_hash,
            ).1,
        ),
{
    let content_hash = calls[i]->RegisterContent_content_hash;
    let before_first = start.after_all(calls.take(i));
    let after_first = start.after_all(calls.take(i + 1));
    assert(calls.take(i + 1).drop_last() =~= calls.take(i));
    assert(calls.take(i + 1).last() == calls[i]);
    assert(after_first == before_first.after(calls[i]));
    lemma_registered_is_indexed(before_first, calls[i]->RegisterContent_caller, content_hash);
    lemma_calls_keep_settled(start, calls.take(j), i + 1);
    assert(calls.take(j).take(i + 1) =~= calls.take(i + 1));
}

/// Registering a fingerprint right after it was registered returns the same
/// id, whoever asks, and changes nothing.
pub proof fn lemma_registering_twice(
    before: RegistryView,
    first_caller: AccountId,
    second_caller: AccountId,
    content_hash: Seq<char>,
)
    requires
        before.register_content(first_caller, content_hash).1 is Ok,
    ensures
        ({
            let (between, outcome) = before.register_content(first_caller, content_hash);
            between.register_content(second_caller, content_hash) == (between, outcome)
        }),
{
}

/// A transfer of an existing record is granted exactly to its owner. Once
/// granted, the record has the new owner and its old fingerprint, and every
/// other record, the index, the counter, the rule and the administrator are
/// as before.
pub proof fn lemma_transfer_is_for_the_owner(
    before: RegistryView,
    caller: AccountId,
    content_id: u64,
    new_owner: AccountId,
)
    requires
        before.contents.contains_key(content_id),
    ensures
        ({
            let (after, outcome) = before.transfer_ownership(caller, content_id, new_owner);
            &&& outcome is Ok <==> caller == before.contents[content_id].owner
            &&& outcome is Err ==> outcome == Err::<(), Error>(Error::NotOwner) && after == before
            &&& outcome is Ok ==> {
                &&& after.get_content(content_id) == Some(
                    ContentView {
                        content_hash: before.contents[content_id].content_hash,
                        owner: new_owner,
                    },
                )
                &&& forall|other: u64|
                    other != content_id ==> after.get_content(other) == before.get_content(other)
                &&& after.content_hash_to_id == before.content_hash_to_id
                &&& after.next_content_id == before.next_content_id
                &&& after.oracle_data == before.oracle_data
                &&& after.admin == before.admin
            }
        }),
{
}

/// Only a transfer that is granted changes who owns a record.
pub proof fn lemma_owner_changes_by_transfer_only(before: RegistryView, call: Call, id: u64)
    requires
        before.well_formed(),
        before.contents.contains_key(id),
        before.after(call).contents[id].owner != before.contents[id].owner,
    ensures
        call is TransferOwnership,
        call->TransferOwnership_content_id == id,
        call->TransferOwnership_caller == before.contents[id].owner,
        before.after(call).contents[id].owner == call->TransferOwnership_new_owner,
{
    match call {
        Call::UpdateOracleData { caller, new_data } => {},
        Call::RegisterContent { caller, content_hash } => {},
        Call::TransferOwnership { caller, content_id, new_owner } => {},
    }
}

/// A change of the rule asked by anyone but the administrator is rejected,
/// and the rule stays.
pub proof fn lemma_rule_is_for_the_admin(
    before: RegistryView,
    caller: AccountId,
    new_data: Seq<char>,
)
    ensures
        ({
            let (after, outcome) = before.update_oracle_data(caller, new_data);
            &&& outcome is Ok <==> caller == before.admin
            &&& caller != before.admin ==> outcome == Err::<(), Error>(Error::NotAdmin) && after
                == before
            &&& caller == before.admin ==> after == RegistryView { oracle_data: new_data, ..before }
        }),
{
}

/// With the counter at its maximum, an admitted fingerprint that is not yet
/// known cannot be registered, and nothing is recorded for it.
pub proof fn lemma_exhausted_counter(
    before: RegistryView,
    caller: AccountId,
    content_hash: Seq<char>,
)
    requires
        before.next_content_id == u64::MAX,
        before.accepts(content_hash),
        !before.content_hash_to_id.contains_key(content_hash),
    ensures
        before.register_content(caller, content_hash) == (
            before,
            Err::<u64, Error>(Error::CounterOverflow),
        ),
{
}

} // verus!
