//! The pomo bank ledger.
//!
//! The bank stores **pomos** as its authoritative unit (1 completed focus pomo = 1
//! credit). It is a ledger of signed transactions: task rewards credit it, and spends
//! debit it, with an optional note.

use vstd::prelude::*;

use crate::domain::ids::{BankTransactionId, TaskId};
use crate::time::Timestamp;

verus! {

/// The kind of a bank ledger entry.
#[derive(Clone, Copy, Debug, PartialEq, Eq, Hash, Structural)]
pub enum BankTransactionType {
    /// Pomos credited for completing a task.
    TaskReward,
    /// Pomos the user spent from the bank.
    Spend,
}

/// The abstract contents of a [`BankTransaction`].
pub ghost struct BankTransactionView {
    pub id: BankTransactionId,
    pub task_id: Option<TaskId>,
    pub amount_pomos: i32,
    pub transaction_type: BankTransactionType,
    pub note: Option<Seq<char>>,
    pub created_at: Timestamp,
}

/// A signed entry in the pomo bank ledger.
#[derive(Debug, PartialEq, Eq)]
pub struct BankTransaction {
    id: BankTransactionId,
    task_id: Option<TaskId>,
    amount_pomos: i32,
    transaction_type: BankTransactionType,
    note: Option<String>,
    created_at: Timestamp,
}

/// The view of an optional string.
pub open spec fn opt_string_view(s: Option<String>) -> Option<Seq<char>> {
    match s {
        Some(t) => Some(t@),
        None => None,
    }
}

impl View for BankTransaction {
    type V = BankTransactionView;

    closed spec fn view(&self) -> BankTransactionView {
        BankTransactionView {
            id: self.id,
            task_id: self.task_id,
            amount_pomos: self.amount_pomos,
            transaction_type: self.transaction_type,
            note: opt_string_view(self.note),
            created_at: self.created_at,
        }
    }
}

impl Clone for BankTransaction {
    fn clone(&self) -> (r: Self)
        ensures
            r@ == self@,
    {
        BankTransaction {
            id: self.id,
            task_id: self.task_id,
            amount_pomos: self.amount_pomos,
            transaction_type: self.transaction_type,
            note: match &self.note {
                Some(n) => Some(n.clone()),
                None => None,
            },
            created_at: self.created_at,
        }
    }
}

impl BankTransaction {
    /// Creates a ledger entry crediting (positive) or debiting (negative) `amount_pomos`.
    pub fn new(
        id: BankTransactionId,
        task_id: Option<TaskId>,
        amount_pomos: i32,
        transaction_type: BankTransactionType,
        note: Option<String>,
        created_at: Timestamp,
    ) -> (r: Self)
        ensures
            r@ == (BankTransactionView {
                id,
                task_id,
                amount_pomos,
                transaction_type,
                note: opt_string_view(note),
                created_at,
            }),
    {
        BankTransaction { id, task_id, amount_pomos, transaction_type, note, created_at }
    }

    /// What the transaction was for, when the user left a note.
    pub fn note(&self) -> (r: Option<&str>)
        ensures
            r is Some == self@.note is Some,
            r matches Some(s) ==> s@ == self@.note->0,
    {
        match &self.note {
            Some(n) => Some(n.as_str()),
            None => None,
        }
    }

    /// The transaction's identifier.
    pub fn id(&self) -> (r: BankTransactionId)
        ensures
            r == self@.id,
    {
        self.id
    }

    /// The task this transaction relates to, if any.
    pub fn task_id(&self) -> (r: Option<TaskId>)
        ensures
            r == self@.task_id,
    {
        self.task_id
    }

    /// The signed pomo amount (positive credits, negative debits).
    pub fn amount_pomos(&self) -> (r: i32)
        ensures
            r == self@.amount_pomos,
    {
        self.amount_pomos
    }

    /// The kind of transaction.
    pub fn transaction_type(&self) -> (r: BankTransactionType)
        ensures
            r == self@.transaction_type,
    {
        self.transaction_type
    }

    /// When the transaction was recorded.
    pub fn created_at(&self) -> (r: Timestamp)
        ensures
            r == self@.created_at,
    {
        self.created_at
    }
}

/// The sum of the signed amounts of a ledger.
pub open spec fn ledger_sum(ledger: Seq<BankTransactionView>) -> int
    decreases ledger.len(),
{
    if ledger.len() == 0 {
        0
    } else {
        ledger_sum(ledger.drop_last()) + ledger.last().amount_pomos
    }
}

/// The views of a slice of ledger entries.
pub open spec fn ledger_views(ledger: Seq<BankTransaction>) -> Seq<BankTransactionView> {
    ledger.map_values(|t: BankTransaction| t@)
}

/// A ledger of `n` entries sums to a value between `n · i32::MIN` and `n · i32::MAX`.
pub proof fn lemma_ledger_sum_bounds(ledger: Seq<BankTransactionView>)
    ensures
        ledger.len() * i32::MIN <= ledger_sum(ledger) <= ledger.len() * i32::MAX,
    decreases ledger.len(),
{
    if ledger.len() > 0 {
        lemma_ledger_sum_bounds(ledger.drop_last());
    }
}

/// Appending an entry moves the balance by exactly its amount.
pub proof fn lemma_ledger_sum_push(ledger: Seq<BankTransactionView>, txn: BankTransactionView)
    ensures
        ledger_sum(ledger.push(txn)) == ledger_sum(ledger) + txn.amount_pomos,
{
    assert(ledger.push(txn).drop_last() =~= ledger);
}

/// Sums a ledger into the current pomo balance.
///
/// The sum is accumulated in a wider integer so that no intermediate value overflows;
/// a ledger of up to `u32::MAX` entries always has a balance that fits in `i64`.
pub fn balance(transactions: &[BankTransaction]) -> (r: i64)
    requires
        transactions@.len() <= u32::MAX,
    ensures
        r == ledger_sum(ledger_views(transactions@)),
{
    let mut total: i64 = 0;
    let mut i: usize = 0;
    while i < transactions.len()
        invariant
            i <= transactions@.len() <= u32::MAX,
            total == ledger_sum(ledger_views(transactions@.take(i as int))),
        decreases transactions.len() - i,
    {
        proof {
            let next = ledger_views(transactions@.take(i + 1));
            assert(next.drop_last() =~= ledger_views(transactions@.take(i as int)));
            lemma_ledger_sum_bounds(next);
            assert((i + 1) * i32::MIN >= u32::MAX * i32::MIN) by (nonlinear_arith)
                requires
                    i + 1 <= u32::MAX,
            ;
            assert((i + 1) * i32::MAX <= u32::MAX * i32::MAX) by (nonlinear_arith)
                requires
                    i + 1 <= u32::MAX,
            ;
        }
        total = total + transactions[i].amount_pomos() as i64;
        i = i + 1;
    }
    proof {
        assert(transactions@.take(i as int) =~= transactions@);
    }
    total
}

} // verus!
