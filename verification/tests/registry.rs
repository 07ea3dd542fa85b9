use content_ownership::{AccountId, Content, ContentOwnership, Error, Gate};

fn account(byte: u8) -> AccountId {
    AccountId([byte; 32])
}

fn text(s: &str) -> String {
    String::from(s)
}

fn registry_with_rule(admin: AccountId, rule: &str) -> ContentOwnership {
    ContentOwnership::new(admin, Some(text(rule)))
}

#[test]
fn end_to_end_scenario() {
    let a = account(1);
    let b = account(2);
    let c = account(3);
    let mut registry = registry_with_rule(a, "ipfs:");

    assert_eq!(registry.register_content(a, text("ipfs:QmABC")), Ok(1));
    assert_eq!(
        registry.get_content(1),
        Some(Content { content_hash: text("ipfs:QmABC"), owner: a })
    );

    assert_eq!(registry.register_content(b, text("ipfs:QmABC")), Ok(1));
    assert_eq!(registry.get_content(1).unwrap().owner, a);

    assert_eq!(registry.transfer_ownership(a, 1, b), Ok(()));
    assert_eq!(registry.get_content(1).unwrap().owner, b);

    assert_eq!(registry.transfer_ownership(b, 1, c), Ok(()));
    assert_eq!(registry.get_content(1).unwrap().owner, c);

    assert_eq!(registry.transfer_ownership(a, 1, b), Err(Error::NotOwner));
    assert_eq!(
        registry.get_content(1),
        Some(Content { content_hash: text("ipfs:QmABC"), owner: c })
    );
}

#[test]
fn gate_rejects_a_fingerprint_without_the_prefix() {
    let a = account(1);
    let mut registry = registry_with_rule(a, "xyz");
    assert_eq!(registry.register_content(a, text("abc...")), Err(Error::InvalidContent));
    assert_eq!(registry.next_content_id(), 1);
    assert!(registry.records().is_empty());
    assert_eq!(registry.get_content(1), None);
}

#[test]
fn gate_admits_a_fingerprint_with_the_prefix() {
    let a = account(1);
    let mut registry = registry_with_rule(a, "xyz");
    assert_eq!(registry.register_content(a, text("xyz123")), Ok(1));
    assert_eq!(
        registry.get_content(1),
        Some(Content { content_hash: text("xyz123"), owner: a })
    );
}

#[test]
fn gate_admits_the_rule_itself_and_rejects_what_is_shorter() {
    let a = account(1);
    let mut registry = registry_with_rule(a, "xyz");
    assert!(registry.validate_content_with_oracle("xyz"));
    assert!(!registry.validate_content_with_oracle("xy"));
    assert!(!registry.validate_content_with_oracle(""));
    assert!(!registry.validate_content_with_oracle("xzy1"));
    assert!(!registry.validate_content_with_oracle("axyz"));
    assert_eq!(registry.register_content(a, text("xy")), Err(Error::InvalidContent));
    assert_eq!(registry.register_content(a, text("xyz")), Ok(1));
}

#[test]
fn gate_compares_bytes_of_longer_characters() {
    let a = account(1);
    let mut registry = registry_with_rule(a, "\u{e9}t");
    assert!(registry.validate_content_with_oracle("\u{e9}t\u{e9}"));
    assert!(!registry.validate_content_with_oracle("\u{ea}t\u{e9}"));
    assert!(!registry.validate_content_with_oracle("et\u{e9}"));
    assert_eq!(registry.register_content(a, text("\u{e9}t\u{e9}")), Ok(1));
    assert_eq!(registry.register_content(a, text("\u{ea}t\u{e9}")), Err(Error::InvalidContent));
}

#[test]
fn empty_rule_admits_everything() {
    let a = account(1);
    let mut registry = registry_with_rule(a, "");
    assert_eq!(registry.register_content(a, text("anything")), Ok(1));
    assert_eq!(registry.register_content(a, text("")), Ok(2));
    assert_eq!(registry.get_content(2), Some(Content { content_hash: text(""), owner: a }));
}

#[test]
fn open_gate_admits_whatever_the_rule_says() {
    let a = account(1);
    let mut registry = ContentOwnership::with_gate(a, Some(text("xyz")), Gate::Open);
    assert_eq!(registry.gate(), Gate::Open);
    assert_eq!(registry.get_oracle_data(), "xyz");
    assert!(registry.validate_content_with_oracle("abc"));
    assert_eq!(registry.register_content(a, text("abc")), Ok(1));
    assert_eq!(registry.update_oracle_data(a, text("other")), Ok(()));
    assert_eq!(registry.register_content(a, text("def")), Ok(2));
}

#[test]
fn oracle_gate_is_what_new_gives() {
    let a = account(1);
    let registry = ContentOwnership::new(a, None);
    assert_eq!(registry.gate(), Gate::Oracle);
    let same = ContentOwnership::with_gate(a, None, Gate::Oracle);
    assert_eq!(same.gate(), Gate::Oracle);
    assert_eq!(same.get_oracle_data(), registry.get_oracle_data());
}

#[test]
fn new_binds_the_admin_and_starts_empty() {
    let a = account(7);
    let registry = registry_with_rule(a, "ipfs:");
    assert_eq!(registry.admin(), a);
    assert_eq!(registry.get_oracle_data(), "ipfs:");
    assert_eq!(registry.next_content_id(), 1);
    assert!(registry.records().is_empty());
    assert_eq!(registry.get_content(0), None);
    assert_eq!(registry.get_content(1), None);
}

#[test]
fn new_without_a_rule_uses_the_default_rule() {
    let a = account(7);
    let mut registry = ContentOwnership::new(a, None);
    assert_eq!(registry.get_oracle_data(), "");
    assert!(registry.validate_content_with_oracle("abc"));
    assert!(registry.validate_content_with_oracle(""));
    assert_eq!(registry.register_content(a, text("abc")), Ok(1));
    assert_eq!(registry.register_content(a, text("")), Ok(2));
    assert_eq!(registry.get_content(1), Some(Content { content_hash: text("abc"), owner: a }));
}

#[test]
fn a_registry_without_a_rule_is_gated_once_the_admin_sets_one() {
    let a = account(7);
    let mut registry = ContentOwnership::new(a, None);
    assert_eq!(registry.register_content(a, text("abc")), Ok(1));
    assert_eq!(registry.update_oracle_data(a, text("ipfs:")), Ok(()));
    assert_eq!(registry.register_content(a, text("def")), Err(Error::InvalidContent));
    assert_eq!(registry.register_content(a, text("ipfs:def")), Ok(2));
}

#[test]
fn an_open_registry_without_a_rule_has_the_empty_rule_too() {
    let a = account(7);
    let mut registry = ContentOwnership::with_gate(a, None, Gate::Open);
    assert_eq!(registry.get_oracle_data(), "");
    assert_eq!(registry.register_content(a, text("abc")), Ok(1));
}

#[test]
fn default_registry_has_the_zero_admin_and_the_default_rule() {
    let mut registry = ContentOwnership::default();
    assert_eq!(registry.admin(), AccountId([0u8; 32]));
    assert_eq!(registry.get_oracle_data(), "");
    assert_eq!(registry.next_content_id(), 1);
    assert_eq!(registry.gate(), Gate::Oracle);
    assert!(registry.records().is_empty());
    assert!(registry.validate_content_with_oracle("abc"));
    assert!(registry.validate_content_with_oracle(""));
    assert_eq!(registry.register_content(account(1), text("abc")), Ok(1));
    assert_eq!(registry.update_oracle_data(account(1), text("x")), Err(Error::NotAdmin));
    assert_eq!(registry.update_oracle_data(AccountId([0u8; 32]), text("x")), Ok(()));
    assert_eq!(registry.get_oracle_data(), "x");
    assert_eq!(registry.register_content(account(1), text("def")), Err(Error::InvalidContent));
}

#[test]
fn distinct_fingerprints_get_distinct_ascending_ids() {
    let a = account(1);
    let b = account(2);
    let mut registry = registry_with_rule(a, "");
    let names = ["h0", "h1", "h2", "h3", "h4", "h5", "h6", "h7", "h8", "h9"];
    let mut ids: Vec<u64> = Vec::new();
    for (k, name) in names.iter().enumerate() {
        let caller = if k % 2 == 0 { a } else { b };
        ids.push(registry.register_content(caller, text(name)).unwrap());
    }
    assert_eq!(ids, vec![1, 2, 3, 4, 5, 6, 7, 8, 9, 10]);
    for k in 1..ids.len() {
        assert!(ids[k - 1] < ids[k]);
    }
    assert_eq!(registry.next_content_id(), 11);
}

#[test]
fn an_id_returned_again_may_lie_below_a_newer_one() {
    let a = account(1);
    let mut registry = registry_with_rule(a, "");
    assert_eq!(registry.register_content(a, text("b")), Ok(1));
    assert_eq!(registry.register_content(a, text("a")), Ok(2));
    assert_eq!(registry.register_content(a, text("b")), Ok(1));
    assert_eq!(registry.register_content(a, text("c")), Ok(3));
}

#[test]
fn registering_twice_returns_the_same_id_and_keeps_the_owner() {
    let a = account(1);
    let b = account(2);
    let mut registry = registry_with_rule(a, "");
    assert_eq!(registry.register_content(a, text("same")), Ok(1));
    assert_eq!(registry.register_content(a, text("same")), Ok(1));
    assert_eq!(registry.register_content(b, text("same")), Ok(1));
    assert_eq!(registry.get_content(1), Some(Content { content_hash: text("same"), owner: a }));
    assert_eq!(registry.next_content_id(), 2);
    assert_eq!(registry.records().len(), 1);
    assert_eq!(registry.register_content(b, text("other")), Ok(2));
}

#[test]
fn transfer_by_the_owner_changes_the_owner_only() {
    let a = account(1);
    let b = account(2);
    let mut registry = registry_with_rule(a, "");
    assert_eq!(registry.register_content(a, text("first")), Ok(1));
    assert_eq!(registry.register_content(a, text("second")), Ok(2));
    assert_eq!(registry.transfer_ownership(a, 1, b), Ok(()));
    assert_eq!(registry.get_content(1), Some(Content { content_hash: text("first"), owner: b }));
    assert_eq!(registry.get_content(2), Some(Content { content_hash: text("second"), owner: a }));
    assert_eq!(registry.next_content_id(), 3);
    assert_eq!(registry.get_oracle_data(), "");
    assert_eq!(registry.admin(), a);
    assert_eq!(registry.register_content(a, text("first")), Ok(1));
    assert_eq!(registry.get_content(1).unwrap().owner, b);
}

#[test]
fn transfer_by_another_account_is_rejected() {
    let a = account(1);
    let b = account(2);
    let mut registry = registry_with_rule(a, "");
    assert_eq!(registry.register_content(a, text("first")), Ok(1));
    assert_eq!(registry.transfer_ownership(b, 1, b), Err(Error::NotOwner));
    assert_eq!(registry.get_content(1), Some(Content { content_hash: text("first"), owner: a }));
}

#[test]
fn the_admin_has_no_say_over_records_of_others() {
    let admin = account(9);
    let a = account(1);
    let mut registry = registry_with_rule(admin, "");
    assert_eq!(registry.register_content(a, text("first")), Ok(1));
    assert_eq!(registry.transfer_ownership(admin, 1, admin), Err(Error::NotOwner));
    assert_eq!(registry.get_content(1).unwrap().owner, a);
}

#[test]
fn transfer_of_an_unknown_id_is_rejected() {
    let a = account(1);
    let b = account(2);
    let mut registry = registry_with_rule(a, "");
    assert_eq!(registry.transfer_ownership(a, 1, b), Err(Error::ContentNotFound));
    assert_eq!(registry.register_content(a, text("first")), Ok(1));
    assert_eq!(registry.transfer_ownership(a, 0, b), Err(Error::ContentNotFound));
    assert_eq!(registry.transfer_ownership(a, 2, b), Err(Error::ContentNotFound));
    assert_eq!(registry.transfer_ownership(a, u64::MAX, b), Err(Error::ContentNotFound));
    assert_eq!(registry.get_content(1).unwrap().owner, a);
}

#[test]
fn transfer_to_oneself_is_granted() {
    let a = account(1);
    let mut registry = registry_with_rule(a, "");
    assert_eq!(registry.register_content(a, text("first")), Ok(1));
    assert_eq!(registry.transfer_ownership(a, 1, a), Ok(()));
    assert_eq!(registry.get_content(1), Some(Content { content_hash: text("first"), owner: a }));
}

#[test]
fn update_by_a_stranger_is_rejected_and_the_rule_stays() {
    let a = account(1);
    let b = account(2);
    let mut registry = registry_with_rule(a, "ipfs:");
    assert_eq!(registry.update_oracle_data(b, text("other")), Err(Error::NotAdmin));
    assert_eq!(registry.get_oracle_data(), "ipfs:");
    assert_eq!(registry.register_content(b, text("other1")), Err(Error::InvalidContent));
    assert_eq!(registry.register_content(b, text("ipfs:1")), Ok(1));
}

#[test]
fn update_by_the_admin_replaces_the_rule() {
    let a = account(1);
    let mut registry = registry_with_rule(a, "ipfs:");
    assert_eq!(registry.update_oracle_data(a, text("ar:")), Ok(()));
    assert_eq!(registry.get_oracle_data(), "ar:");
    assert_eq!(registry.admin(), a);
    assert_eq!(registry.register_content(a, text("ipfs:1")), Err(Error::InvalidContent));
    assert_eq!(registry.register_content(a, text("ar:1")), Ok(1));
    assert_eq!(registry.update_oracle_data(a, text("")), Ok(()));
    assert_eq!(registry.get_oracle_data(), "");
    assert_eq!(registry.register_content(a, text("ipfs:1")), Ok(2));
}

#[test]
fn a_new_rule_leaves_earlier_records_in_place() {
    let a = account(1);
    let b = account(2);
    let mut registry = registry_with_rule(a, "old:");
    assert_eq!(registry.register_content(b, text("old:1")), Ok(1));
    assert_eq!(registry.update_oracle_data(a, text("new:")), Ok(()));
    assert_eq!(registry.get_content(1), Some(Content { content_hash: text("old:1"), owner: b }));
    assert_eq!(registry.register_content(b, text("old:1")), Err(Error::InvalidContent));
    assert_eq!(registry.transfer_ownership(b, 1, a), Ok(()));
    assert_eq!(registry.get_content(1), Some(Content { content_hash: text("old:1"), owner: a }));
    assert_eq!(registry.register_content(b, text("new:1")), Ok(2));
}

#[test]
fn an_exhausted_counter_rejects_a_new_fingerprint() {
    let a = account(1);
    let restored = ContentOwnership::restore(a, Gate::Oracle, text(""), u64::MAX, Vec::new());
    let mut registry = restored.unwrap();
    assert_eq!(registry.register_content(a, text("one more")), Err(Error::CounterOverflow));
    assert_eq!(registry.next_content_id(), u64::MAX);
    assert!(registry.records().is_empty());
    assert_eq!(registry.get_content(u64::MAX), None);
    assert_eq!(registry.register_content(a, text("one more")), Err(Error::CounterOverflow));
}

#[test]
fn the_last_id_before_exhaustion_is_issued() {
    let a = account(1);
    let b = account(2);
    let restored = ContentOwnership::restore(a, Gate::Oracle, text(""), u64::MAX - 1, Vec::new());
    let mut registry = restored.unwrap();
    assert_eq!(registry.register_content(a, text("last")), Ok(u64::MAX - 1));
    assert_eq!(registry.next_content_id(), u64::MAX);
    assert_eq!(registry.register_content(b, text("too late")), Err(Error::CounterOverflow));
    assert_eq!(registry.register_content(b, text("last")), Ok(u64::MAX - 1));
    assert_eq!(
        registry.get_content(u64::MAX - 1),
        Some(Content { content_hash: text("last"), owner: a })
    );
    assert_eq!(registry.records().len(), 1);
}

#[test]
fn an_exhausted_counter_still_rejects_by_the_rule_first() {
    let a = account(1);
    let restored = ContentOwnership::restore(a, Gate::Oracle, text("ok:"), u64::MAX, Vec::new());
    let mut registry = restored.unwrap();
    assert_eq!(registry.register_content(a, text("bad")), Err(Error::InvalidContent));
    assert_eq!(registry.register_content(a, text("ok:1")), Err(Error::CounterOverflow));
}

#[test]
fn records_come_in_the_order_of_their_ids() {
    let a = account(1);
    let b = account(2);
    let mut registry = registry_with_rule(a, "");
    assert_eq!(registry.register_content(a, text("z")), Ok(1));
    assert_eq!(registry.register_content(b, text("y")), Ok(2));
    assert_eq!(registry.register_content(a, text("x")), Ok(3));
    assert_eq!(registry.transfer_ownership(b, 2, a), Ok(()));
    assert_eq!(
        registry.records(),
        vec![
            (1, Content { content_hash: text("z"), owner: a }),
            (2, Content { content_hash: text("y"), owner: a }),
            (3, Content { content_hash: text("x"), owner: a }),
        ]
    );
}

#[test]
fn restore_gives_back_the_registry_that_was_saved() {
    let a = account(1);
    let b = account(2);
    let mut registry = registry_with_rule(a, "ipfs:");
    assert_eq!(registry.register_content(a, text("ipfs:1")), Ok(1));
    assert_eq!(registry.register_content(b, text("ipfs:2")), Ok(2));
    let restored = ContentOwnership::restore(
        registry.admin(),
        registry.gate(),
        registry.get_oracle_data(),
        registry.next_content_id(),
        registry.records(),
    );
    let mut restored = restored.unwrap();
    assert_eq!(restored.admin(), a);
    assert_eq!(restored.gate(), Gate::Oracle);
    assert_eq!(restored.get_oracle_data(), "ipfs:");
    assert_eq!(restored.next_content_id(), 3);
    assert_eq!(restored.records(), registry.records());
    assert_eq!(restored.get_content(2), Some(Content { content_hash: text("ipfs:2"), owner: b }));
    assert_eq!(restored.register_content(a, text("ipfs:2")), Ok(2));
    assert_eq!(restored.register_content(a, text("ipfs:3")), Ok(3));
    assert_eq!(restored.transfer_ownership(b, 2, a), Ok(()));
    assert_eq!(restored.update_oracle_data(b, text("")), Err(Error::NotAdmin));
}

#[test]
fn restore_accepts_ids_with_gaps() {
    let a = account(1);
    let records = vec![
        (2, Content { content_hash: text("two"), owner: a }),
        (5, Content { content_hash: text("five"), owner: a }),
        (9, Content { content_hash: text("nine"), owner: a }),
    ];
    let mut registry =
        ContentOwnership::restore(a, Gate::Oracle, text(""), 10, records).unwrap();
    assert_eq!(registry.get_content(1), None);
    assert_eq!(registry.get_content(2).unwrap().content_hash, "two");
    assert_eq!(registry.get_content(3), None);
    assert_eq!(registry.get_content(5).unwrap().content_hash, "five");
    assert_eq!(registry.get_content(9).unwrap().content_hash, "nine");
    assert_eq!(registry.get_content(10), None);
    assert_eq!(registry.register_content(a, text("five")), Ok(5));
    assert_eq!(registry.register_content(a, text("ten")), Ok(10));
    assert_eq!(registry.next_content_id(), 11);
}

#[test]
fn restore_refuses_a_counter_of_zero() {
    let a = account(1);
    assert!(ContentOwnership::restore(a, Gate::Oracle, text(""), 0, Vec::new()).is_none());
    assert!(ContentOwnership::restore(a, Gate::Oracle, text(""), 1, Vec::new()).is_some());
}

#[test]
fn restore_refuses_an_id_of_zero() {
    let a = account(1);
    let records = vec![(0, Content { content_hash: text("zero"), owner: a })];
    assert!(ContentOwnership::restore(a, Gate::Oracle, text(""), 5, records).is_none());
}

#[test]
fn restore_refuses_an_id_at_or_above_the_counter() {
    let a = account(1);
    let at = vec![(5, Content { content_hash: text("five"), owner: a })];
    assert!(ContentOwnership::restore(a, Gate::Oracle, text(""), 5, at).is_none());
    let above = vec![(6, Content { content_hash: text("six"), owner: a })];
    assert!(ContentOwnership::restore(a, Gate::Oracle, text(""), 5, above).is_none());
    let below = vec![(4, Content { content_hash: text("four"), owner: a })];
    assert!(ContentOwnership::restore(a, Gate::Oracle, text(""), 5, below).is_some());
}

#[test]
fn restore_refuses_ids_out_of_order_or_repeated() {
    let a = account(1);
    let descending = vec![
        (2, Content { content_hash: text("two"), owner: a }),
        (1, Content { content_hash: text("one"), owner: a }),
    ];
    assert!(ContentOwnership::restore(a, Gate::Oracle, text(""), 5, descending).is_none());
    let repeated = vec![
        (1, Content { content_hash: text("one"), owner: a }),
        (1, Content { content_hash: text("uno"), owner: a }),
    ];
    assert!(ContentOwnership::restore(a, Gate::Oracle, text(""), 5, repeated).is_none());
}

#[test]
fn restore_refuses_a_fingerprint_listed_twice() {
    let a = account(1);
    let b = account(2);
    let records = vec![
        (1, Content { content_hash: text("same"), owner: a }),
        (2, Content { content_hash: text("other"), owner: a }),
        (3, Content { content_hash: text("same"), owner: b }),
    ];
    assert!(ContentOwnership::restore(a, Gate::Oracle, text(""), 5, records).is_none());
}

#[test]
fn restore_does_not_hold_records_to_the_rule() {
    let a = account(1);
    let records = vec![(1, Content { content_hash: text("old:1"), owner: a })];
    let mut registry =
        ContentOwnership::restore(a, Gate::Oracle, text("new:"), 2, records).unwrap();
    assert_eq!(registry.get_content(1).unwrap().content_hash, "old:1");
    assert_eq!(registry.register_content(a, text("old:1")), Err(Error::InvalidContent));
}

#[test]
fn lookup_finds_every_record_among_many() {
    let a = account(1);
    let mut registry = registry_with_rule(a, "");
    for k in 1..=37u64 {
        assert_eq!(registry.register_content(account(k as u8), format!("item-{}", k)), Ok(k));
    }
    assert_eq!(registry.get_content(0), None);
    for k in 1..=37u64 {
        assert_eq!(
            registry.get_content(k),
            Some(Content { content_hash: format!("item-{}", k), owner: account(k as u8) })
        );
    }
    assert_eq!(registry.get_content(38), None);
    for k in 1..=37u64 {
        assert_eq!(registry.register_content(a, format!("item-{}", k)), Ok(k));
    }
}

#[test]
fn accounts_are_equal_when_their_bytes_are() {
    let mut bytes = [5u8; 32];
    assert_eq!(AccountId(bytes), account(5));
    assert_eq!(AccountId::from(bytes), account(5));
    bytes[31] = 6;
    assert_ne!(AccountId(bytes), account(5));
    bytes[31] = 5;
    bytes[0] = 4;
    assert_ne!(AccountId(bytes), account(5));
    assert_ne!(account(1), account(2));
}

#[test]
fn contents_are_equal_when_fingerprint_and_owner_are() {
    let a = account(1);
    let b = account(2);
    let content = Content { content_hash: text("h"), owner: a };
    assert_eq!(content.clone(), content);
    assert_eq!(content, Content { content_hash: text("h"), owner: a });
    assert_ne!(content, Content { content_hash: text("h"), owner: b });
    assert_ne!(content, Content { content_hash: text("g"), owner: a });
}

#[test]
fn every_rejection_has_its_own_kind() {
    let kinds = [
        Error::NotAdmin,
        Error::ContentNotFound,
        Error::NotOwner,
        Error::CounterOverflow,
        Error::InvalidContent,
    ];
    for (i, first) in kinds.iter().enumerate() {
        for (j, second) in kinds.iter().enumerate() {
            assert_eq!(first == second, i == j);
        }
    }
}
