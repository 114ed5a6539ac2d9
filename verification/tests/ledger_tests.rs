use finance_tracker::ledger::FinanceTracker;
use finance_tracker::ledger::Transaction;
use finance_tracker::ledger::TransactionType;

fn sample_tracker() -> FinanceTracker {
    let mut tracker = FinanceTracker::new();
    tracker.add_transaction(
        10000,
        "Salary".to_string(),
        TransactionType::Income,
        "Monthly salary".to_string(),
    );
    tracker.add_transaction(
        5000,
        "Groceries".to_string(),
        TransactionType::Expense,
        "Weekly groceries".to_string(),
    );
    tracker
}

#[test]
fn add_assigns_sequential_ids() {
    let mut tracker = FinanceTracker::new();
    for k in 0..10 {
        tracker.add_transaction(
            100 * k,
            format!("cat{}", k),
            if k % 2 == 0 { TransactionType::Income } else { TransactionType::Expense },
            String::new(),
        );
    }
    assert_eq!(tracker.transactions.len(), 10);
    for (i, t) in tracker.transactions.iter().enumerate() {
        assert_eq!(t.id, i as u32 + 1);
    }
}

#[test]
fn total_balance_empty_is_zero() {
    let tracker = FinanceTracker::new();
    assert_eq!(tracker.total_balance(), 0);
}

#[test]
fn total_balance_is_income_minus_expense() {
    let mut tracker = FinanceTracker::new();
    tracker.add_transaction(300, "a".to_string(), TransactionType::Income, String::new());
    tracker.add_transaction(125, "b".to_string(), TransactionType::Expense, String::new());
    tracker.add_transaction(75, "c".to_string(), TransactionType::Income, String::new());
    tracker.add_transaction(400, "d".to_string(), TransactionType::Expense, String::new());
    // (300 + 75) - (125 + 400)
    assert_eq!(tracker.total_balance(), -150);
}

#[test]
fn total_balance_is_order_independent() {
    let mut forward = FinanceTracker::new();
    let mut backward = FinanceTracker::new();
    let amounts: [(i64, TransactionType); 4] = [
        (300, TransactionType::Income),
        (125, TransactionType::Expense),
        (75, TransactionType::Income),
        (400, TransactionType::Expense),
    ];
    for (a, k) in amounts.iter() {
        forward.add_transaction(*a, String::new(), *k, String::new());
    }
    for (a, k) in amounts.iter().rev() {
        backward.add_transaction(*a, String::new(), *k, String::new());
    }
    assert_eq!(forward.total_balance(), backward.total_balance());
}

#[test]
fn scenario_income_then_expense() {
    let tracker = sample_tracker();
    // 100.00 income minus 50.00 expense leaves 50.00
    assert_eq!(tracker.total_balance(), 5000);
    let lines = tracker.list_transactions().expect("two transactions were recorded");
    assert_eq!(lines.len(), 2);
    assert_eq!(tracker.transactions[0].id, 1);
    assert_eq!(tracker.transactions[1].id, 2);
    assert!(lines[0].starts_with("ID: 1, Amount: 100.00, Category: Salary, Type: Income, Time: "));
    assert!(lines[1].starts_with("ID: 2, Amount: 50.00, Category: Groceries, Type: Expense, Time: "));
    assert!(lines[0].ends_with(", Description: Monthly salary"));
    assert!(lines[1].ends_with(", Description: Weekly groceries"));
}

#[test]
fn list_empty_gives_no_transactions_signal() {
    let tracker = FinanceTracker::new();
    assert!(tracker.list_transactions().is_none());
}

#[test]
fn format_transaction_exact_line() {
    let t = Transaction {
        id: 7,
        amount_cents: -325,
        category: "Refund".to_string(),
        transaction_type: TransactionType::Expense,
        time_stamp: "2024-01-02T03:04:05+00:00".to_string(),
        description: "returned item".to_string(),
    };
    assert_eq!(
        finance_tracker::ledger::format_transaction(&t),
        "ID: 7, Amount: -3.25, Category: Refund, Type: Expense, \
         Time: 2024-01-02T03:04:05+00:00, Description: returned item"
    );
}

#[test]
fn new_transaction_gets_a_time_stamp() {
    let t = Transaction::new(
        1,
        100,
        "c".to_string(),
        TransactionType::Income,
        "d".to_string(),
    );
    // chrono's RFC 3339 rendering always includes a date-time separator
    assert!(t.time_stamp.contains('T'));
}

#[test]
fn from_transactions_keeps_the_sequence() {
    let tracker = sample_tracker();
    let reloaded = FinanceTracker::from_transactions(tracker.transactions);
    assert_eq!(reloaded.transactions.len(), 2);
    assert_eq!(reloaded.transactions[0].category, "Salary");
    assert_eq!(reloaded.total_balance(), 5000);
}
