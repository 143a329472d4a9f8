use accounting::account::AccountType;
use accounting::amount::Amount;
use accounting::classify::{determine_node_type, Code, IngCurrentAccount};
use accounting::date::Date;
use accounting::identify::Identify;
use accounting::node::Node;
use accounting::transaction::{Direction, Transaction};

fn record(
    code: Code,
    direction: Direction,
    counter_party: Option<&str>,
    description: &str,
    tags: &str,
) -> IngCurrentAccount {
    IngCurrentAccount {
        date: Date { year: 2024, month: 3, day: 7 },
        name: String::from("Some Shop"),
        account: String::from("NL95INGB0756630126"),
        counter_party: counter_party.map(String::from),
        code,
        direction,
        amount: Amount { negative: false, mantissa: 1250, scale: 2 },
        transaction_type: String::from("Payment terminal"),
        description: String::from(description),
        balance: Amount { negative: false, mantissa: 10000, scale: 2 },
        tags: String::from(tags),
    }
}

#[test]
fn terminal_payment_resolves_source_and_sink() {
    let r = record(
        Code::BA,
        Direction::Outgoing,
        None,
        "Pasvolgnr: 1 Term: ABC123 Valutadatum: 07-03-2024",
        "",
    );
    let t = Transaction::from_record(&r).unwrap();
    assert_eq!(
        t.source,
        Node::ProperAccount(accounting::account::Account {
            iban: String::from("NL95INGB0756630126"),
            name: String::from("My Account"),
        })
    );
    assert_eq!(t.sink, Node::Terminal(String::from("ABC123")));
}

#[test]
fn cash_withdrawal_without_terminal_id_falls_back() {
    let r = record(Code::GM, Direction::Outgoing, None, "Kosten gebruik geldautomaat", "");
    let t = Transaction::from_record(&r).unwrap();
    assert_eq!(t.sink, Node::Atm(String::from("UNKNOWN_TERM_ID")));
}

#[test]
fn incoming_direction_puts_own_account_at_sink() {
    let r = record(Code::GM, Direction::Incoming, None, "Term: XYZ9", "");
    let t = Transaction::from_record(&r).unwrap();
    assert_eq!(t.sink, Node::ProperAccount(accounting::account::Account {
        iban: String::from("NL95INGB0756630126"),
        name: String::from("My Account"),
    }));
    assert_eq!(t.source, Node::Atm(String::from("XYZ9")));
}

#[test]
fn service_charge_resolves_to_bank() {
    let r = record(Code::DV, Direction::Outgoing, None, "Maandpakket", "");
    let t = Transaction::from_record(&r).unwrap();
    assert_eq!(t.sink, Node::Other(String::from("ING")));
}

#[test]
fn cash_deposit_resolves_to_deposit() {
    let r = record(Code::ST, Direction::Incoming, None, "Storting", "");
    let t = Transaction::from_record(&r).unwrap();
    assert_eq!(t.source, Node::Other(String::from("Deposit")));
}

#[test]
fn counterparty_iban_resolves_to_proper_account() {
    let r = record(
        Code::OV,
        Direction::Outgoing,
        Some("NL02ABNA0123456789"),
        "Overboeking",
        "",
    );
    let t = Transaction::from_record(&r).unwrap();
    match &t.sink {
        Node::ProperAccount(acc) => {
            assert_eq!(acc.iban, String::from("NL02ABNA0123456789"));
            assert_eq!(acc.name, String::from("Some Shop"));
        }
        other => panic!("expected a proper account, got {:?}", other),
    }
}

#[test]
fn counterparty_iban_is_normalized_not_copied() {
    // Lower case and spaces: the IBAN parser must normalize, so the stored
    // IBAN differs from the raw counterparty text.
    let r = record(
        Code::OV,
        Direction::Outgoing,
        Some("nl02 abna 0123 4567 89"),
        "Overboeking",
        "",
    );
    let t = Transaction::from_record(&r).unwrap();
    match &t.sink {
        Node::ProperAccount(acc) => {
            assert_eq!(acc.iban, String::from("NL02ABNA0123456789"));
        }
        other => panic!("expected a proper account, got {:?}", other),
    }
}

#[test]
fn numeric_counterparty_resolves_to_brokerage_sub_account() {
    let r = record(Code::OV, Direction::Outgoing, Some("12345678"), "Inleg", "");
    let t = Transaction::from_record(&r).unwrap();
    match &t.sink {
        Node::SubAccount(sub) => {
            assert_eq!(sub.bsan, String::from("12345678"));
            assert_eq!(sub.account_type, Some(AccountType::Brokerage));
            assert_eq!(sub.parent_account.iban, String::from("NL95INGB0756630126"));
        }
        other => panic!("expected a sub-account, got {:?}", other),
    }
}

#[test]
fn savings_pattern_resolves_to_saving_sub_account() {
    let r = record(
        Code::GT,
        Direction::Outgoing,
        None,
        "Naar Oranje spaarrekening X12345678",
        "",
    );
    let t = Transaction::from_record(&r).unwrap();
    match &t.sink {
        Node::SubAccount(sub) => {
            assert_eq!(sub.bsan, String::from("X12345678"));
            assert_eq!(sub.account_type, Some(AccountType::Saving));
        }
        other => panic!("expected a sub-account, got {:?}", other),
    }
}

#[test]
fn savings_pattern_takes_last_token_on_the_line() {
    let r = record(
        Code::GT,
        Direction::Outgoing,
        None,
        "Oranje spaarrekening A1 en dan B22",
        "",
    );
    let n = determine_node_type(&r).unwrap();
    match n {
        Node::SubAccount(sub) => assert_eq!(sub.bsan, String::from("B22")),
        other => panic!("expected a sub-account, got {:?}", other),
    }
}

#[test]
fn unmatched_record_fails_with_the_record_attached() {
    let r = record(Code::OV, Direction::Outgoing, None, "Niets bijzonders", "");
    let e = Transaction::from_record(&r).unwrap_err();
    assert_eq!(e.record, r);
}

#[test]
fn classification_is_deterministic() {
    let r = record(
        Code::BA,
        Direction::Outgoing,
        None,
        "Term: ABC123",
        "#lunch #work",
    );
    let t1 = Transaction::from_record(&r).unwrap();
    let t2 = Transaction::from_record(&r).unwrap();
    assert_eq!(t1, t2);
    assert_eq!(t1.source.id().value, t2.source.id().value);
    assert_eq!(t1.sink.id().value, t2.sink.id().value);
}

#[test]
fn tags_are_extracted_sorted_and_deduplicated() {
    let r = record(
        Code::BA,
        Direction::Outgoing,
        None,
        "Term: T1",
        "#work en #lunch met collega #lunch",
    );
    let t = Transaction::from_record(&r).unwrap();
    assert_eq!(
        t.tags(),
        &vec![String::from("#lunch"), String::from("#work")]
    );
}

#[test]
fn tag_order_in_the_field_does_not_distinguish_rows() {
    // The tag list is canonical, so two rows whose tag fields list the same
    // tags in different order carry equal content and collapse in the store.
    let r1 = record(Code::BA, Direction::Outgoing, None, "Term: T1", "#a #b");
    let r2 = record(Code::BA, Direction::Outgoing, None, "Term: T1", "#b #a");
    let t1 = Transaction::from_record(&r1).unwrap();
    let t2 = Transaction::from_record(&r2).unwrap();
    assert_eq!(t1, t2);
    let store = accounting::store::Transactions::new(vec![t1, t2]);
    assert_eq!(store.data().len(), 1);
}

#[test]
fn rule_order_prefers_terminal_code_over_counterparty() {
    // A BA record with a valid counterparty IBAN must still resolve to a
    // terminal: the code rules come first.
    let r = record(
        Code::BA,
        Direction::Outgoing,
        Some("NL02ABNA0123456789"),
        "Term: FIRST1",
        "",
    );
    let n = determine_node_type(&r).unwrap();
    assert_eq!(n, Node::Terminal(String::from("FIRST1")));
}
