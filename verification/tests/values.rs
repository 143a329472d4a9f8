use accounting::account::Account;
use accounting::amount::Amount;
use accounting::date::Date;
use accounting::errors::ParseError;
use accounting::identify::{digest_str, Identify, ID};
use accounting::node::Node;
use accounting::transaction::{Direction, Transaction};

#[test]
fn date_parse_reads_yyyymmdd() {
    assert_eq!(
        Date::parse("20240307"),
        Ok(Date { year: 2024, month: 3, day: 7 })
    );
}

#[test]
fn date_parse_rejects_malformed_input() {
    assert_eq!(Date::parse("2024037"), Err(ParseError::Date));
    assert_eq!(Date::parse("202403x7"), Err(ParseError::Date));
    assert_eq!(Date::parse("20241307"), Err(ParseError::Date));
    assert_eq!(Date::parse("20240230"), Err(ParseError::Date));
    assert_eq!(Date::parse(""), Err(ParseError::Date));
}

#[test]
fn date_parse_knows_leap_years() {
    assert!(Date::parse("20240229").is_ok());
    assert_eq!(Date::parse("20230229"), Err(ParseError::Date));
    assert_eq!(Date::parse("19000229"), Err(ParseError::Date));
    assert!(Date::parse("20000229").is_ok());
}

#[test]
fn date_ordering_is_by_year_month_day() {
    let early = Date { year: 2023, month: 12, day: 31 };
    let late = Date { year: 2024, month: 1, day: 1 };
    assert!(early.le(&late));
    assert!(!late.le(&early));
    assert!(early.le(&early));
}

#[test]
fn amount_parse_normalizes_separators() {
    assert_eq!(
        Amount::parse("1.234,56"),
        Ok(Amount { negative: false, mantissa: 123456, scale: 2 })
    );
    assert_eq!(
        Amount::parse("0,50"),
        Ok(Amount { negative: false, mantissa: 50, scale: 2 })
    );
    assert_eq!(
        Amount::parse("7"),
        Ok(Amount { negative: false, mantissa: 7, scale: 0 })
    );
}

#[test]
fn amount_parse_keeps_the_sign_except_on_zero() {
    assert_eq!(
        Amount::parse("-12,50"),
        Ok(Amount { negative: true, mantissa: 1250, scale: 2 })
    );
    assert_eq!(
        Amount::parse("-0,00"),
        Ok(Amount { negative: false, mantissa: 0, scale: 2 })
    );
}

#[test]
fn amount_parse_rejects_malformed_input() {
    assert_eq!(Amount::parse(""), Err(ParseError::Amount));
    assert_eq!(Amount::parse("-"), Err(ParseError::Amount));
    assert_eq!(Amount::parse("12,"), Err(ParseError::Amount));
    assert_eq!(Amount::parse(",50"), Err(ParseError::Amount));
    assert_eq!(Amount::parse("12,3,4"), Err(ParseError::Amount));
    assert_eq!(Amount::parse("abc"), Err(ParseError::Amount));
    assert_eq!(Amount::parse("12345678901234567890123456789"), Err(ParseError::Amount));
}

#[test]
fn direction_accepts_both_language_variants() {
    assert_eq!(Direction::from_str("Af"), Ok(Direction::Outgoing));
    assert_eq!(Direction::from_str("Debit"), Ok(Direction::Outgoing));
    assert_eq!(Direction::from_str("Bij"), Ok(Direction::Incoming));
    assert_eq!(Direction::from_str("Credit"), Ok(Direction::Incoming));
    assert_eq!(Direction::from_str("Sideways"), Err(ParseError::Direction));
}

#[test]
fn account_identity_ignores_the_name() {
    let a = Account { iban: String::from("NL95INGB0756630126"), name: String::from("old") };
    let b = Account { iban: String::from("NL95INGB0756630126"), name: String::from("new") };
    assert_eq!(a.id().value, b.id().value);
    let c = Account { iban: String::from("NL91ABNA0417164300"), name: String::from("old") };
    assert_ne!(a.id().value, c.id().value);
}

#[test]
fn transaction_identity_sees_the_description() {
    let t1 = Transaction {
        date: Date { year: 2024, month: 1, day: 1 },
        source: Node::Other(String::from("a")),
        sink: Node::Other(String::from("b")),
        amount: Amount { negative: false, mantissa: 100, scale: 2 },
        inherent_tags: Vec::new(),
        description: String::from("coffee"),
    };
    let mut t2 = t1.clone();
    t2.description = String::from("tea");
    assert_ne!(t1.id().value, t2.id().value);
    assert_eq!(t1.id().value, t1.duplicate().id().value);
}

#[test]
fn node_identity_retags_the_wrapped_account() {
    let account = Account {
        iban: String::from("NL95INGB0756630126"),
        name: String::from("mine"),
    };
    let node = Node::ProperAccount(account.clone());
    assert_eq!(node.id().value, account.id().value);
    let retagged: ID<Node> = Node::transfer_from(account.id());
    assert_eq!(retagged.value, node.id().value);
    assert_eq!(retagged, node.id());
}

#[test]
fn the_identity_digest_is_a_fixed_algorithm() {
    // 64-bit FNV-1a reference values: the digest must never depend on the
    // toolchain or the process.
    assert_eq!(digest_str(""), 0xcbf29ce484222325);
    assert_eq!(digest_str("a"), 0xaf63dc4c8601ec8c);
    assert_eq!(digest_str("foobar"), 0x85944171f73967e8);
}

#[test]
fn identifiers_render_as_uppercase_hex() {
    let id: ID<Node> = ID::new(0x5E8C0A84534B0F04);
    assert_eq!(id.to_hex(), String::from("5E8C0A84534B0F04"));
    let zero: ID<Node> = ID::new(0);
    assert_eq!(zero.to_hex(), String::from("0"));
    let small: ID<Node> = ID::new(0xAB);
    assert_eq!(small.to_hex(), String::from("AB"));
}

#[test]
fn node_display_tags_each_variant() {
    let atm = Node::Atm(String::from("CASH22"));
    let hex = atm.id().to_hex();
    assert_eq!(atm.display_details(), format!("^{}^ CASH22 (ATM)", hex));
    let terminal = Node::Terminal(String::from("T55"));
    let thex = terminal.id().to_hex();
    assert_eq!(
        terminal.display_details(),
        format!("*{}* T55 (Payment Terminal)", thex)
    );
    let other = Node::Other(String::from("Deposit"));
    assert_eq!(other.display_details(), String::from("Deposit"));
    let account = Account { iban: String::from("NL95INGB0756630126"), name: String::from("Me") };
    let ahex = account.id().to_hex();
    assert_eq!(
        Node::ProperAccount(account).display_details(),
        format!("[{}] Me", ahex)
    );
}

#[test]
fn node_names_describe_the_kind() {
    assert_eq!(Node::Atm(String::from("x")).name(), String::from("ATM"));
    assert_eq!(
        Node::Terminal(String::from("x")).name(),
        String::from("Payment Terminal")
    );
    let account = Account { iban: String::from("NL95INGB0756630126"), name: String::from("Me") };
    assert_eq!(
        Node::ProperAccount(account).name(),
        String::from("(PA) Me")
    );
}
