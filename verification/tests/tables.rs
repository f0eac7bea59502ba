use mesh_security::registry::Registry;
use mesh_security::table::{AmountTable, Holding, PairKey, TableKey};
use mesh_security::validators::{list_contains, overlap, ValidatorSet};

fn text(s: &str) -> String {
    s.to_string()
}

#[test]
fn amounts_are_credited_and_debited() {
    let mut table: AmountTable<String> = AmountTable::new();
    assert_eq!(table.total(), 0);
    assert_eq!(table.get(&text("a")), 0);
    assert!(table.credit(&text("a"), 5));
    assert!(table.credit(&text("b"), 7));
    assert!(table.credit(&text("a"), 1));
    assert!(table.credit(&text("c"), 0));
    assert_eq!(table.get(&text("a")), 6);
    assert_eq!(table.get(&text("c")), 0);
    assert_eq!(table.total(), 13);
    assert_eq!(table.len(), 2);
    assert!(!table.debit(&text("a"), 7));
    assert!(!table.debit(&text("z"), 1));
    assert!(table.debit(&text("z"), 0));
    assert_eq!(table.total(), 13);
    assert!(table.debit(&text("a"), 2));
    assert_eq!(table.get(&text("a")), 4);
    assert!(table.debit(&text("a"), 4));
    assert_eq!(table.len(), 1);
    assert_eq!(table.holdings(), vec![Holding { key: text("b"), amount: 7 }]);
    assert_eq!(table.take(&text("b")), 7);
    assert_eq!(table.take(&text("b")), 0);
    assert_eq!(table.total(), 0);
    table.bounds();
}

#[test]
fn the_sum_of_a_table_stays_within_bounds() {
    let mut table: AmountTable<String> = AmountTable::new();
    assert!(table.credit(&text("a"), u128::MAX - 1));
    assert!(!table.credit(&text("b"), 2));
    assert_eq!(table.get(&text("b")), 0);
    assert!(table.credit(&text("b"), 1));
    assert!(!table.credit(&text("a"), 1));
    assert_eq!(table.total(), u128::MAX);
}

#[test]
fn crediting_and_debiting_undo_each_other() {
    let mut table: AmountTable<PairKey> = AmountTable::new();
    let key = PairKey::new("d1", "V1");
    let other = PairKey::new("d1", "V2");
    assert!(table.credit(&other, 3));
    assert!(table.credit(&key, 100));
    assert!(table.debit(&key, 100));
    assert_eq!(table.holdings(), vec![Holding { key: PairKey::new("d1", "V2"), amount: 3 }]);
    assert!(table.debit(&other, 3));
    assert!(table.credit(&other, 3));
    assert_eq!(table.get(&other), 3);
    assert_eq!(table.get(&PairKey::new("V2", "d1")), 0);
    assert_eq!(table.total(), 3);
}

#[test]
fn keys_compare_by_what_they_hold() {
    assert!(PairKey::new("a", "b").same(&PairKey::new("a", "b")));
    assert!(!PairKey::new("a", "b").same(&PairKey::new("a", "c")));
    assert!(!PairKey::new("a", "b").same(&PairKey::new("b", "a")));
    assert_eq!(PairKey::new("a", "b").duplicate(), PairKey::new("a", "b"));
    assert!(text("x").same(&text("x")));
    assert!(!text("x").same(&text("y")));
    assert!(7u64.same(&7u64));
    assert_eq!(7u64.duplicate(), 7);
}

#[test]
fn a_registry_keeps_one_record_per_key() {
    let mut registry: Registry<String, u32> = Registry::new();
    assert_eq!(registry.len(), 0);
    registry.insert(text("a"), 1);
    registry.insert(text("b"), 2);
    registry.insert(text("a"), 3);
    registry.bounds();
    assert_eq!(registry.len(), 2);
    assert_eq!(registry.get(&text("a")), Some(&3));
    assert_eq!(registry.get(&text("c")), None);
    assert!(registry.contains(&text("b")));
    assert_eq!(registry.keys(), vec![text("b"), text("a")]);
    assert_eq!(registry.remove(&text("b")), Some(2));
    assert_eq!(registry.remove(&text("b")), None);
    assert!(!registry.contains(&text("b")));
    assert_eq!(registry.len(), 1);
}

#[test]
fn validators_are_activated_and_deactivated() {
    let mut set = ValidatorSet::new();
    assert!(!set.is_known("V1"));
    set.activate("V1");
    set.activate("V2");
    set.deactivate("V1");
    set.deactivate("V9");
    assert!(set.is_known("V1"));
    assert!(!set.is_active("V1"));
    assert!(set.is_active("V2"));
    assert!(!set.is_known("V9"));
    assert_eq!(set.active_list(), vec![text("V2")]);
    set.activate("V1");
    assert_eq!(set.active_list(), vec![text("V1"), text("V2")]);
}

#[test]
fn a_change_of_membership_adds_then_removes() {
    let mut set = ValidatorSet::new();
    set.apply(&vec![text("V1"), text("V2"), text("V3")], &vec![]);
    set.apply(&vec![text("V4")], &vec![text("V2"), text("V7")]);
    assert_eq!(set.active_list(), vec![text("V1"), text("V3"), text("V4")]);
    assert!(set.is_known("V2"));
    assert!(!set.is_known("V7"));
    set.apply(&vec![text("V2")], &vec![text("V2")]);
    assert!(!set.is_active("V2"));
}

#[test]
fn a_full_list_replaces_what_was_known() {
    let mut set = ValidatorSet::new();
    set.apply(&vec![text("V1"), text("V2")], &vec![]);
    set.overwrite(&vec![text("V2"), text("V3")]);
    assert!(set.is_known("V1"));
    assert!(!set.is_active("V1"));
    assert_eq!(set.active_list(), vec![text("V2"), text("V3")]);
    set.overwrite(&vec![]);
    assert_eq!(set.active_list(), Vec::<String>::new());
}

#[test]
fn lists_of_strings() {
    let a = vec![text("x"), text("y")];
    assert!(list_contains(&a, &text("y")));
    assert!(!list_contains(&a, &text("z")));
    assert!(overlap(&a, &vec![text("q"), text("x")]));
    assert!(!overlap(&a, &vec![text("q")]));
    assert!(!overlap(&vec![], &a));
}

#[test]
fn holdings_come_in_the_order_in_which_keys_entered() {
    let mut table: AmountTable<String> = AmountTable::new();
    assert!(table.credit(&text("b"), 1));
    assert!(table.credit(&text("a"), 2));
    assert!(table.credit(&text("c"), 3));
    assert!(table.credit(&text("b"), 4));
    assert_eq!(
        table.holdings(),
        vec![
            Holding { key: text("b"), amount: 5 },
            Holding { key: text("a"), amount: 2 },
            Holding { key: text("c"), amount: 3 },
        ]
    );
    assert!(table.debit(&text("b"), 5));
    assert!(table.credit(&text("b"), 1));
    assert_eq!(table.take(&text("a")), 2);
    assert_eq!(
        table.holdings(),
        vec![Holding { key: text("c"), amount: 3 }, Holding { key: text("b"), amount: 1 }]
    );
}

#[test]
fn validators_are_listed_in_the_order_in_which_they_became_known() {
    let mut set = ValidatorSet::new();
    set.apply(&vec![text("V3"), text("V1")], &vec![]);
    set.overwrite(&vec![text("V2"), text("V1")]);
    set.activate("V3");
    assert_eq!(set.active_list(), vec![text("V3"), text("V1"), text("V2")]);
    set.bounds();
}
