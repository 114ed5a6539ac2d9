use finance_tracker::codec::from_json;
use finance_tracker::codec::load_transactions;
use finance_tracker::codec::to_json;
use finance_tracker::ledger::Transaction;
use finance_tracker::ledger::TransactionType;

fn tx(
    id: u32,
    amount_cents: i64,
    category: &str,
    transaction_type: TransactionType,
    time_stamp: &str,
    description: &str,
) -> Transaction {
    Transaction {
        id,
        amount_cents,
        category: category.to_string(),
        transaction_type,
        time_stamp: time_stamp.to_string(),
        description: description.to_string(),
    }
}

fn assert_same(a: &Transaction, b: &Transaction) {
    assert_eq!(a.id, b.id);
    assert_eq!(a.amount_cents, b.amount_cents);
    assert_eq!(a.category, b.category);
    assert_eq!(a.transaction_type, b.transaction_type);
    assert_eq!(a.time_stamp, b.time_stamp);
    assert_eq!(a.description, b.description);
}

#[test]
fn to_json_exact_text() {
    let ts = vec![tx(
        1,
        10000,
        "Salary",
        TransactionType::Income,
        "2024-01-02T03:04:05+00:00",
        "Monthly salary",
    )];
    assert_eq!(
        to_json(&ts),
        "[{\"id\":1,\"amount\":100.00,\"category\":\"Salary\",\
         \"transaction_type\":\"Income\",\"time_stamp\":\"2024-01-02T03:04:05+00:00\",\
         \"description\":\"Monthly salary\"}]"
    );
}

#[test]
fn to_json_negative_and_zero_amounts() {
    let ts = vec![
        tx(1, -325, "a", TransactionType::Expense, "t", ""),
        tx(2, 0, "b", TransactionType::Income, "t", ""),
        tx(3, 7, "c", TransactionType::Income, "t", ""),
    ];
    let text = to_json(&ts);
    assert!(text.contains("\"amount\":-3.25,"));
    assert!(text.contains("\"amount\":0.00,"));
    assert!(text.contains("\"amount\":0.07,"));
}

#[test]
fn round_trip_two_transactions() {
    let ts = vec![
        tx(
            1,
            10000,
            "Salary",
            TransactionType::Income,
            "2024-01-02T03:04:05+00:00",
            "Monthly salary",
        ),
        tx(
            2,
            5000,
            "Groceries",
            TransactionType::Expense,
            "2024-01-03T04:05:06+00:00",
            "Weekly groceries",
        ),
    ];
    let back = from_json(&to_json(&ts)).expect("a saved ledger loads again");
    assert_eq!(back.len(), 2);
    assert_same(&back[0], &ts[0]);
    assert_same(&back[1], &ts[1]);
}

#[test]
fn round_trip_special_characters() {
    let ts = vec![tx(
        1,
        -1,
        "quotes \" and \\ backslash",
        TransactionType::Expense,
        "tab\tand\nnewline\u{1}",
        "unicode: caf\u{e9} \u{1f600}",
    )];
    let back = from_json(&to_json(&ts)).expect("escaped text loads again");
    assert_eq!(back.len(), 1);
    assert_same(&back[0], &ts[0]);
}

#[test]
fn round_trip_extreme_amounts() {
    let ts = vec![
        tx(1, i64::MAX, "max", TransactionType::Income, "t", ""),
        tx(2, i64::MIN, "min", TransactionType::Expense, "t", ""),
    ];
    let back = from_json(&to_json(&ts)).expect("extreme amounts load again");
    assert_eq!(back[0].amount_cents, i64::MAX);
    assert_eq!(back[1].amount_cents, i64::MIN);
}

#[test]
fn save_empty_then_load_empty() {
    let ts: Vec<Transaction> = Vec::new();
    let text = to_json(&ts);
    assert_eq!(text, "[]");
    let back = from_json(&text).expect("an empty array is a valid ledger");
    assert!(back.is_empty());
}

#[test]
fn load_missing_file_gives_empty_sequence() {
    let back = load_transactions(None).expect("no prior data is not an error");
    assert!(back.is_empty());
}

#[test]
fn load_present_contents_parses_them() {
    let ts = vec![tx(1, 1, "c", TransactionType::Income, "t", "d")];
    let back = load_transactions(Some(&to_json(&ts))).expect("saved text loads");
    assert_eq!(back.len(), 1);
    assert_same(&back[0], &ts[0]);
}

#[test]
fn malformed_text_is_an_error() {
    assert!(from_json("").is_err());
    assert!(from_json("{}").is_err());
    assert!(from_json("[").is_err());
    assert!(from_json("[]x").is_err());
    assert!(from_json("[{\"id\":1}]").is_err());
    // id past the u32 range
    assert!(from_json(
        "[{\"id\":4294967296,\"amount\":0.00,\"category\":\"\",\
         \"transaction_type\":\"Income\",\"time_stamp\":\"\",\"description\":\"\"}]"
    )
    .is_err());
    // unknown transaction type
    assert!(from_json(
        "[{\"id\":1,\"amount\":0.00,\"category\":\"\",\
         \"transaction_type\":\"Other\",\"time_stamp\":\"\",\"description\":\"\"}]"
    )
    .is_err());
    // broken escape in a string
    assert!(from_json(
        "[{\"id\":1,\"amount\":0.00,\"category\":\"\\x\",\
         \"transaction_type\":\"Income\",\"time_stamp\":\"\",\"description\":\"\"}]"
    )
    .is_err());
    // trailing whitespace is fine; other trailing content is not
    let ts = vec![tx(1, 1, "c", TransactionType::Income, "t", "d")];
    let mut text = to_json(&ts);
    text.push_str(" \n");
    assert!(from_json(&text).is_ok());
    text.push('x');
    assert!(from_json(&text).is_err());
}

#[test]
fn json_number_forms_load() {
    // integer, one-fraction-digit and long-zero forms of the amount
    let loaded = from_json(
        "[{\"id\":1,\"amount\":100,\"category\":\"a\",\
         \"transaction_type\":\"Income\",\"time_stamp\":\"t\",\"description\":\"\"},\
         {\"id\":2,\"amount\":0.5,\"category\":\"b\",\
         \"transaction_type\":\"Expense\",\"time_stamp\":\"t\",\"description\":\"\"},\
         {\"id\":3,\"amount\":100.0,\"category\":\"c\",\
         \"transaction_type\":\"Income\",\"time_stamp\":\"t\",\"description\":\"\"},\
         {\"id\":4,\"amount\":2.250000,\"category\":\"d\",\
         \"transaction_type\":\"Income\",\"time_stamp\":\"t\",\"description\":\"\"}]",
    )
    .expect("JSON number forms load");
    assert_eq!(loaded[0].amount_cents, 10000);
    assert_eq!(loaded[1].amount_cents, 50);
    assert_eq!(loaded[2].amount_cents, 10000);
    assert_eq!(loaded[3].amount_cents, 225);
    // a leading zero on the id is not a JSON number
    assert!(from_json(
        "[{\"id\":01,\"amount\":0.00,\"category\":\"\",\
         \"transaction_type\":\"Income\",\"time_stamp\":\"\",\"description\":\"\"}]"
    )
    .is_err());
    // a sub-cent value has no exact representation
    assert!(from_json(
        "[{\"id\":1,\"amount\":0.005,\"category\":\"\",\
         \"transaction_type\":\"Income\",\"time_stamp\":\"\",\"description\":\"\"}]"
    )
    .is_err());
    // an amount past the cent range
    assert!(from_json(
        "[{\"id\":1,\"amount\":92233720368547758.08,\"category\":\"\",\
         \"transaction_type\":\"Income\",\"time_stamp\":\"\",\"description\":\"\"}]"
    )
    .is_err());
    // the same magnitude is fine when negative
    assert!(from_json(
        "[{\"id\":1,\"amount\":-92233720368547758.08,\"category\":\"\",\
         \"transaction_type\":\"Income\",\"time_stamp\":\"\",\"description\":\"\"}]"
    )
    .is_ok());
}

#[test]
fn the_original_writers_rendering_loads() {
    // the flat style a serde-based writer produces, amount with one
    // fraction digit and an RFC 3339 time stamp
    let loaded = from_json(
        "[{\"id\":1,\"amount\":100.0,\"category\":\"Salary\",\
         \"transaction_type\":\"Income\",\
         \"time_stamp\":\"2024-01-02T03:04:05.123456789Z\",\
         \"description\":\"Monthly salary\"}]",
    )
    .expect("the original writer's file loads");
    assert_eq!(loaded.len(), 1);
    assert_eq!(loaded[0].amount_cents, 10000);
    assert_eq!(loaded[0].time_stamp, "2024-01-02T03:04:05.123456789Z");
}

#[test]
fn whitespace_between_tokens_loads() {
    let text = "  [ { \"id\" : 1 ,\n\t\"amount\" : 50.25 ,\
        \"category\" : \"a\" ,\"transaction_type\" : \"Expense\" ,\
        \"time_stamp\" : \"t\" ,\"description\" : \"d\" }\n]\n";
    let loaded = from_json(text).expect("whitespace between tokens is fine");
    assert_eq!(loaded.len(), 1);
    assert_eq!(loaded[0].amount_cents, 5025);
    assert_eq!(loaded[0].description, "d");
    // pretty-printed two-element array
    let pretty = "[\n  {\"id\":1,\"amount\":1.00,\"category\":\"x\",\
        \"transaction_type\":\"Income\",\"time_stamp\":\"t\",\"description\":\"\"},\n  \
        {\"id\":2,\"amount\":2.00,\"category\":\"y\",\
        \"transaction_type\":\"Expense\",\"time_stamp\":\"t\",\"description\":\"\"}\n]\n";
    let two = from_json(pretty).expect("a pretty-printed array loads");
    assert_eq!(two.len(), 2);
    assert_eq!(two[1].amount_cents, 200);
    // whitespace inside a key is not the key
    assert!(from_json(
        "[{\" id\":1,\"amount\":0.00,\"category\":\"\",\
         \"transaction_type\":\"Income\",\"time_stamp\":\"\",\"description\":\"\"}]"
    )
    .is_err());
}

#[test]
fn standard_string_escapes_load() {
    let loaded = from_json(
        "[{\"id\":1,\"amount\":0.00,\"category\":\"a\\tb\\nc\\rd\\be\\ff\\/g\",\
         \"transaction_type\":\"Income\",\"time_stamp\":\"\\u0041\\u00e9\\u20AC\",\
         \"description\":\"\\\"q\\\\\"}]",
    )
    .expect("the JSON escape set loads");
    assert_eq!(loaded[0].category, "a\tb\nc\rd\u{8}e\u{c}f/g");
    assert_eq!(loaded[0].time_stamp, "A\u{e9}\u{20ac}");
    assert_eq!(loaded[0].description, "\"q\\");
    // a lone surrogate code is not a scalar value
    assert!(from_json(
        "[{\"id\":1,\"amount\":0.00,\"category\":\"\\uD83D\",\
         \"transaction_type\":\"Income\",\"time_stamp\":\"\",\"description\":\"\"}]"
    )
    .is_err());
}

#[test]
fn whole_ledger_round_trips_with_real_time_stamps() {
    let mut tracker = finance_tracker::ledger::FinanceTracker::new();
    tracker.add_transaction(
        10000,
        "Salary".to_string(),
        TransactionType::Income,
        "Monthly salary".to_string(),
    );
    tracker.add_transaction(
        5000,
        "Groceries".to_string(),
        TransactionType::Expense,
        "Weekly groceries".to_string(),
    );
    let back = from_json(&to_json(&tracker.transactions)).expect("a saved ledger loads again");
    assert_eq!(back.len(), 2);
    assert_same(&back[0], &tracker.transactions[0]);
    assert_same(&back[1], &tracker.transactions[1]);
    let reloaded = finance_tracker::ledger::FinanceTracker::from_transactions(back);
    assert_eq!(reloaded.total_balance(), tracker.total_balance());
}

#[test]
fn saved_text_is_well_formed_json() {
    let ts = vec![
        tx(
            1,
            10000,
            "quotes \" inside",
            TransactionType::Income,
            "2024-01-02T03:04:05+00:00",
            "line\nbreak",
        ),
        tx(2, -50, "b", TransactionType::Expense, "t", ""),
    ];
    let value: serde_json::Value =
        serde_json::from_str(&to_json(&ts)).expect("the rendering is valid JSON");
    let arr = value.as_array().expect("the rendering is a JSON array");
    assert_eq!(arr.len(), 2);
    assert_eq!(arr[0]["id"], 1);
    assert_eq!(arr[0]["amount"], 100.0);
    assert_eq!(arr[0]["category"], "quotes \" inside");
    assert_eq!(arr[0]["transaction_type"], "Income");
    assert_eq!(arr[0]["time_stamp"], "2024-01-02T03:04:05+00:00");
    assert_eq!(arr[0]["description"], "line\nbreak");
    assert_eq!(arr[1]["amount"], -0.5);
    assert_eq!(arr[1]["transaction_type"], "Expense");
}
