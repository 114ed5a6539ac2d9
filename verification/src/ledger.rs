//! The in-memory ledger: income and expense transactions in append order,
//! sequential identifiers, and the running balance.

use vstd::prelude::*;
use crate::numtext::dec_rep;
use crate::numtext::money_rep;
use crate::numtext::push_dec;
use crate::numtext::push_money;
use crate::strtext::chars_to_string;
use crate::strtext::push_str_chars;
use crate::clock::now_timestamp;

verus! {

#[derive(Clone, Copy, PartialEq, Eq, Structural, Debug)]
pub enum TransactionType {
    Income,
    Expense,
}

/// One recorded financial event. Amounts are whole cents; the sign of the
/// effect on the balance comes from `transaction_type`, not from the
/// stored sign. Immutable once created.
pub struct Transaction {
    pub id: u32,
    pub amount_cents: i64,
    pub category: String,
    pub transaction_type: TransactionType,
    pub time_stamp: String,
    pub description: String,
}

/// The mathematical record a `Transaction` stands for.
#[verifier::ext_equal]
pub ghost struct TxRec {
    pub id: u32,
    pub amount_cents: i64,
    pub category: Seq<char>,
    pub transaction_type: TransactionType,
    pub time_stamp: Seq<char>,
    pub description: Seq<char>,
}

impl View for Transaction {
    type V = TxRec;

    open spec fn view(&self) -> TxRec {
        TxRec {
            id: self.id,
            amount_cents: self.amount_cents,
            category: self.category@,
            transaction_type: self.transaction_type,
            time_stamp: self.time_stamp@,
            description: self.description@,
        }
    }
}

pub open spec fn models(s: Seq<Transaction>) -> Seq<TxRec> {
    s.map_values(|t: Transaction| t@)
}

impl Transaction {
    /// A fresh transaction stamped with the current UTC time.
    pub fn new(
        id: u32,
        amount_cents: i64,
        category: String,
        transaction_type: TransactionType,
        description: String,
    ) -> (t: Transaction)
        ensures
            t@.id == id,
            t@.amount_cents == amount_cents,
            t@.category == category@,
            t@.transaction_type == transaction_type,
            t@.description == description@,
    {
        Transaction {
            id,
            amount_cents,
            category,
            transaction_type,
            time_stamp: now_timestamp(),
            description,
        }
    }
}

/// The signed effect of one record on the balance, in cents.
pub open spec fn signed_cents(t: TxRec) -> int {
    match t.transaction_type {
        TransactionType::Income => t.amount_cents as int,
        TransactionType::Expense => -(t.amount_cents as int),
    }
}

/// Income minus expense over `s`, in cents.
pub open spec fn balance_of(s: Seq<TxRec>) -> int
    decreases s.len(),
{
    if s.len() == 0 {
        0
    } else {
        signed_cents(s[0]) + balance_of(s.skip(1))
    }
}

/// The sum of the amounts of the income records of `s`.
pub open spec fn income_total(s: Seq<TxRec>) -> int
    decreases s.len(),
{
    if s.len() == 0 {
        0
    } else {
        (if s[0].transaction_type == TransactionType::Income {
            s[0].amount_cents as int
        } else {
            0
        }) + income_total(s.skip(1))
    }
}

/// The sum of the amounts of the expense records of `s`.
pub open spec fn expense_total(s: Seq<TxRec>) -> int
    decreases s.len(),
{
    if s.len() == 0 {
        0
    } else {
        (if s[0].transaction_type == TransactionType::Expense {
            s[0].amount_cents as int
        } else {
            0
        }) + expense_total(s.skip(1))
    }
}

/// The balance is the income total minus the expense total.
pub proof fn lemma_balance_split(s: Seq<TxRec>)
    ensures
        balance_of(s) == income_total(s) - expense_total(s),
    decreases s.len(),
{
    if s.len() > 0 {
        lemma_balance_split(s.skip(1));
    }
}

proof fn lemma_balance_remove(s: Seq<TxRec>, i: int)
    requires
        0 <= i < s.len(),
    ensures
        balance_of(s) == signed_cents(s[i]) + balance_of(s.remove(i)),
    decreases i,
{
    if i == 0 {
        assert(s.remove(0) =~= s.skip(1));
    } else {
        assert(s.remove(i)[0] == s[0]);
        assert(s.remove(i).skip(1) =~= s.skip(1).remove(i - 1));
        assert(s.skip(1)[i - 1] == s[i]);
        lemma_balance_remove(s.skip(1), i - 1);
    }
}

/// The balance does not depend on the order of the records: two ledgers
/// holding the same records as a multiset have the same balance.
pub proof fn lemma_balance_permutation(s1: Seq<TxRec>, s2: Seq<TxRec>)
    requires
        s1.to_multiset() == s2.to_multiset(),
    ensures
        balance_of(s1) == balance_of(s2),
    decreases s1.len(),
{
    s1.to_multiset_ensures();
    s2.to_multiset_ensures();
    if s1.len() == 0 {
        assert(s2.len() == s2.to_multiset().len());
    } else {
        let x = s1[0];
        assert(s1.contains(x));
        assert(s2.to_multiset().count(x) > 0);
        assert(s2.contains(x));
        let j = choose|j: int| 0 <= j < s2.len() && s2[j] == x;
        lemma_balance_remove(s1, 0);
        lemma_balance_remove(s2, j);
        assert(s1.remove(0).to_multiset() == s1.to_multiset().remove(x));
        assert(s2.remove(j).to_multiset() == s2.to_multiset().remove(x));
        assert(s1.remove(0).len() < s1.len());
        lemma_balance_permutation(s1.remove(0), s2.remove(j));
    }
}

/// How one record is rendered for display.
pub open spec fn kind_rep(k: TransactionType) -> Seq<char> {
    match k {
        TransactionType::Income => "Income"@,
        TransactionType::Expense => "Expense"@,
    }
}

pub open spec fn line_rep(t: TxRec) -> Seq<char> {
    "ID: "@ + dec_rep(t.id as nat) + ", Amount: "@ + money_rep(t.amount_cents as int)
        + ", Category: "@ + t.category + ", Type: "@ + kind_rep(t.transaction_type) + ", Time: "@
        + t.time_stamp + ", Description: "@ + t.description
}

/// One display line for a transaction: id, amount with two decimal places,
/// category, kind, time stamp and description.
pub fn format_transaction(t: &Transaction) -> (r: String)
    ensures
        r@ == line_rep(t@),
{
    let mut buf: Vec<char> = Vec::new();
    push_str_chars(&mut buf, "ID: ");
    push_dec(&mut buf, t.id as u64);
    push_str_chars(&mut buf, ", Amount: ");
    push_money(&mut buf, t.amount_cents);
    push_str_chars(&mut buf, ", Category: ");
    push_str_chars(&mut buf, t.category.as_str());
    push_str_chars(&mut buf, ", Type: ");
    match t.transaction_type {
        TransactionType::Income => push_str_chars(&mut buf, "Income"),
        TransactionType::Expense => push_str_chars(&mut buf, "Expense"),
    }
    push_str_chars(&mut buf, ", Time: ");
    push_str_chars(&mut buf, t.time_stamp.as_str());
    push_str_chars(&mut buf, ", Description: ");
    push_str_chars(&mut buf, t.description.as_str());
    let r = chars_to_string(&buf);
    assert(buf@ =~= line_rep(t@));
    r
}

/// The ledger: all recorded transactions in append order, plus the
/// derived aggregate operations.
pub struct FinanceTracker {
    pub transactions: Vec<Transaction>,
}

impl View for FinanceTracker {
    type V = Seq<TxRec>;

    open spec fn view(&self) -> Seq<TxRec> {
        models(self.transactions@)
    }
}

impl FinanceTracker {
    /// Identifiers are exactly `1..=len`, in append order.
    pub open spec fn wf(self) -> bool {
        forall|i: int| 0 <= i < self@.len() ==> #[trigger] self@[i].id == i + 1
    }

    /// An empty ledger.
    pub fn new() -> (t: FinanceTracker)
        ensures
            t@ == Seq::<TxRec>::empty(),
            t.wf(),
    {
        let t = FinanceTracker { transactions: Vec::new() };
        proof {
            assert(t@ =~= Seq::<TxRec>::empty());
        }
        t
    }

    /// A ledger over previously recorded transactions, for example the
    /// ones a persisted file held.
    pub fn from_transactions(transactions: Vec<Transaction>) -> (t: FinanceTracker)
        ensures
            t@ == models(transactions@),
    {
        FinanceTracker { transactions }
    }

    /// Append a new transaction: its id is the current length plus one,
    /// its time stamp the current UTC time, and every prior transaction is
    /// untouched. Amounts are accepted as given; nothing is validated.
    pub fn add_transaction(
        &mut self,
        amount_cents: i64,
        category: String,
        transaction_type: TransactionType,
        description: String,
    )
        requires
            old(self)@.len() < u32::MAX,
        ensures
            final(self)@.len() == old(self)@.len() + 1,
            final(self)@ == old(self)@.push(final(self)@.last()),
            final(self)@.last().id == old(self)@.len() + 1,
            final(self)@.last().amount_cents == amount_cents,
            final(self)@.last().category == category@,
            final(self)@.last().transaction_type == transaction_type,
            final(self)@.last().description == description@,
            old(self).wf() ==> final(self).wf(),
            old(self).wf() ==> forall|i: int|
                0 <= i < old(self)@.len() ==> #[trigger] final(self)@[i].id
                    != final(self)@.last().id,
    {
        let id = self.transactions.len() as u32 + 1;
        let t = Transaction::new(id, amount_cents, category, transaction_type, description);
        self.transactions.push(t);
        proof {
            assert(self@ =~= old(self)@.push(t@));
            if old(self).wf() {
                assert forall|i: int| 0 <= i < self@.len() implies #[trigger] self@[i].id == i
                    + 1 by {
                    if i < old(self)@.len() {
                        assert(self@[i] == old(self)@[i]);
                    }
                }
            }
        }
    }

    /// Income minus expense over the whole ledger, in cents. Zero for an
    /// empty ledger.
    pub fn total_balance(&self) -> (r: i128)
        ensures
            r == balance_of(self@),
            self@.len() == 0 ==> r == 0,
    {
        let n = self.transactions.len();
        let mut acc: i128 = 0;
        let mut i: usize = 0;
        proof {
            assert(usize::MAX as int <= u64::MAX as int);
            assert(self@.skip(0) =~= self@);
        }
        while i < n
            invariant
                i <= n,
                n == self@.len(),
                n == self.transactions@.len(),
                n <= u64::MAX as int,
                balance_of(self@) == acc + balance_of(self@.skip(i as int)),
                -(i as int) * 0x8000_0000_0000_0000 <= acc <= (i as int) * 0x8000_0000_0000_0000,
            decreases n - i,
        {
            let t = &self.transactions[i];
            proof {
                assert(self@[i as int] == t@);
                assert(self@.skip(i as int)[0] == self@[i as int]);
                assert(self@.skip(i as int).skip(1) =~= self@.skip(i as int + 1));
            }
            match t.transaction_type {
                TransactionType::Income => {
                    acc = acc + (t.amount_cents as i128);
                },
                TransactionType::Expense => {
                    acc = acc - (t.amount_cents as i128);
                },
            }
            i = i + 1;
        }
        proof {
            assert(self@.skip(n as int) =~= Seq::<TxRec>::empty());
        }
        acc
    }

    /// All transactions rendered for display, in insertion order; `None`
    /// signals "no transactions" on an empty ledger, as distinct from an
    /// empty listing.
    pub fn list_transactions(&self) -> (r: Option<Vec<String>>)
        ensures
            match r {
                None => self@.len() == 0,
                Some(lines) => {
                    &&& self@.len() > 0
                    &&& lines@.len() == self@.len()
                    &&& forall|i: int|
                        0 <= i < self@.len() ==> #[trigger] lines@[i]@ == line_rep(self@[i])
                },
            },
    {
        let n = self.transactions.len();
        if n == 0 {
            return None;
        }
        let mut lines: Vec<String> = Vec::new();
        let mut i: usize = 0;
        while i < n
            invariant
                i <= n,
                n == self@.len(),
                n == self.transactions@.len(),
                lines@.len() == i,
                forall|k: int| 0 <= k < i ==> #[trigger] lines@[k]@ == line_rep(self@[k]),
            decreases n - i,
        {
            let line = format_transaction(&self.transactions[i]);
            lines.push(line);
            i = i + 1;
        }
        Some(lines)
    }
}

} // verus!
