use accounting::amount::Amount;
use accounting::date::Date;
use accounting::identify::Identify;
use accounting::node::Node;
use accounting::owner::Owner;
use accounting::store::Transactions;
use accounting::summaries::node_frequencies;
use accounting::transaction::{Direction, Transaction};

fn tx(day: u8, source: &str, sink: &str, description: &str) -> Transaction {
    Transaction {
        date: Date { year: 2024, month: 1, day },
        source: Node::Other(String::from(source)),
        sink: Node::Other(String::from(sink)),
        amount: Amount { negative: false, mantissa: 100, scale: 2 },
        inherent_tags: Vec::new(),
        description: String::from(description),
    }
}

#[test]
fn duplicate_rows_collapse_to_one_transaction() {
    // Two rows identical in every field, as if loaded from two files.
    let a = tx(5, "x", "y", "same row");
    let b = a.clone();
    let store = Transactions::new(vec![a, b]);
    assert_eq!(store.data().len(), 1);
}

#[test]
fn store_sorts_by_non_decreasing_date() {
    let store = Transactions::new(vec![
        tx(9, "a", "b", "late"),
        tx(2, "c", "d", "early"),
        tx(5, "e", "f", "middle"),
    ]);
    let days: Vec<u8> = store.data().iter().map(|t| t.date.day).collect();
    assert_eq!(days, vec![2, 5, 9]);
}

#[test]
fn store_construction_is_idempotent() {
    let rows = vec![
        tx(3, "a", "b", "one"),
        tx(1, "c", "d", "two"),
        tx(3, "a", "b", "one"),
        tx(1, "c", "d", "two"),
        tx(1, "c", "d", "two"),
    ];
    let once = Transactions::new(rows.clone());
    let deduped: Vec<Transaction> = once.data().clone();
    let twice = Transactions::new(deduped);
    assert_eq!(once.data(), twice.data());
    assert_eq!(once.data().len(), 2);
}

#[test]
fn empty_store_has_no_first_or_last() {
    let store = Transactions::new(Vec::new());
    assert!(store.first().is_none());
    assert!(store.last().is_none());
    assert!(store.data().first().is_none());
    assert!(store.data().last().is_none());
}

#[test]
fn first_and_last_follow_date_order() {
    let store = Transactions::new(vec![
        tx(9, "a", "b", "late"),
        tx(2, "c", "d", "early"),
    ]);
    assert_eq!(store.first().unwrap().date.day, 2);
    assert_eq!(store.last().unwrap().date.day, 9);
}

#[test]
fn filter_is_a_pure_sub_selection() {
    let store = Transactions::new(vec![
        tx(1, "a", "b", "keep"),
        tx(2, "c", "d", "drop"),
        tx(3, "e", "f", "keep"),
    ]);
    let kept = store.filter(|t: &Transaction| t.description == "keep");
    let expected: Vec<Transaction> = store
        .data()
        .iter()
        .filter(|t| t.description == "keep")
        .cloned()
        .collect();
    assert_eq!(kept.data(), &expected);
    assert_eq!(kept.data().len(), 2);
    // The source store is untouched.
    assert_eq!(store.data().len(), 3);
}

#[test]
fn filter_with_always_true_keeps_everything() {
    let store = Transactions::new(vec![
        tx(1, "a", "b", "one"),
        tx(2, "c", "d", "two"),
    ]);
    let all = store.filter(|_t: &Transaction| true);
    assert_eq!(all.data(), store.data());
}

#[test]
fn direction_is_relative_to_the_perspective() {
    let t = tx(1, "payer", "payee", "transfer");
    let source_node = Node::Other(String::from("payer"));
    let sink_node = Node::Other(String::from("payee"));
    let stranger = Node::Other(String::from("stranger"));
    assert_eq!(t.direction(&sink_node), Some(Direction::Incoming));
    assert_eq!(t.direction(&source_node), Some(Direction::Outgoing));
    assert_eq!(t.direction(&stranger), None);
}

#[test]
fn self_transfer_direction_is_unresolved() {
    let t = tx(1, "same", "same", "to myself");
    let node = Node::Other(String::from("same"));
    assert_eq!(t.direction(&node), None);
}

#[test]
fn node_frequencies_count_both_endpoints() {
    let store = Transactions::new(vec![
        tx(1, "a", "b", "one"),
        tx(2, "a", "c", "two"),
    ]);
    let freq = node_frequencies(&store);
    let a = Node::Other(String::from("a")).id().value;
    let b = Node::Other(String::from("b")).id().value;
    let c = Node::Other(String::from("c")).id().value;
    assert_eq!(freq.get(&a), Some(&2));
    assert_eq!(freq.get(&b), Some(&1));
    assert_eq!(freq.get(&c), Some(&1));
    assert_eq!(freq.len(), 3);
}

#[test]
fn self_transfer_counts_its_node_twice() {
    let store = Transactions::new(vec![tx(1, "same", "same", "loop")]);
    let freq = node_frequencies(&store);
    let id = Node::Other(String::from("same")).id().value;
    assert_eq!(freq.get(&id), Some(&2));
}

#[test]
fn owner_views_the_first_matching_node() {
    let owned = Node::Other(String::from("mine"));
    let owner = Owner {
        name: String::from("me"),
        owns: vec![owned.clone(), Node::Other(String::from("also mine"))],
    };
    let id = owned.id();
    assert_eq!(owner.view(&id), Some(&owned));
    assert!(owner.owns(&id));
    let stranger = Node::Other(String::from("not mine")).id();
    assert_eq!(owner.view(&stranger), None);
    assert!(!owner.owns(&stranger));
}
