//! Transfers of value between named parties.

use vstd::prelude::*;

verus! {

/// A transfer of `amount` units from one party to another. No check is made
/// on the parties or on the amount: it may be negative, and it may exceed
/// what the sender holds.
#[derive(Debug)]
pub struct Transaction {
    pub from: String,
    pub to: String,
    pub amount: i64,
}

/// The mathematical content of a [`Transaction`].
#[verifier::ext_equal]
pub struct TransactionView {
    pub from: Seq<char>,
    pub to: Seq<char>,
    pub amount: int,
}

impl View for Transaction {
    type V = TransactionView;

    open spec fn view(&self) -> TransactionView {
        TransactionView { from: self.from@, to: self.to@, amount: self.amount as int }
    }
}

impl DeepView for Transaction {
    type V = TransactionView;

    open spec fn deep_view(&self) -> TransactionView {
        self@
    }
}

impl TransactionView {
    /// What the transaction adds to the balance of `address`: the amount if
    /// it is the recipient, less the amount if it is the sender.
    pub open spec fn effect_on(self, address: Seq<char>) -> int {
        (if self.to == address { self.amount } else { 0 })
        - (if self.from == address { self.amount } else { 0 })
    }
}

/// The sum of the effects of `txs` on the balance of `address`.
pub open spec fn net_flow(txs: Seq<TransactionView>, address: Seq<char>) -> int
    decreases txs.len(),
{
    if txs.len() == 0 {
        0
    } else {
        net_flow(txs.drop_last(), address) + txs.last().effect_on(address)
    }
}

impl Transaction {
    /// A transfer of `amount` from `from` to `to`.
    pub fn new(from: String, to: String, amount: i64) -> (t: Self)
        ensures
            t.from == from,
            t.to == to,
            t.amount == amount,
            t@ == (TransactionView { from: from@, to: to@, amount: amount as int }),
    {
        Transaction { from, to, amount }
    }
}

impl Clone for Transaction {
    fn clone(&self) -> (copy: Self)
        ensures
            copy@ == self@,
    {
        Transaction { from: self.from.clone(), to: self.to.clone(), amount: self.amount }
    }
}

/// An independent copy of a list of transactions.
pub fn copy_of(txs: &Vec<Transaction>) -> (copy: Vec<Transaction>)
    ensures
        copy.deep_view() == txs.deep_view(),
{
    let mut copy: Vec<Transaction> = Vec::new();
    let mut i: usize = 0;
    while i < txs.len()
        invariant
            i <= txs.len(),
            copy.len() == i,
            forall|j: int| 0 <= j < i ==> copy[j]@ == txs[j]@,
        decreases txs.len() - i,
    {
        copy.push(txs[i].clone());
        i = i + 1;
    }
    copy
}

/// The sum of the effects of `txs` on the balance of `address`. No
/// transfer moves more than 2^63 units, which bounds the sum.
pub fn flow_of(txs: &Vec<Transaction>, address: &String) -> (flow: i128)
    ensures
        flow == net_flow(txs.deep_view(), address@),
        -(txs.len() * 0x8000_0000_0000_0000) <= flow <= txs.len() * 0x8000_0000_0000_0000,
{
    let mut flow: i128 = 0;
    let mut i: usize = 0;
    while i < txs.len()
        invariant
            i <= txs.len(),
            flow == net_flow(txs.deep_view().take(i as int), address@),
            -(i * 0x8000_0000_0000_0000) <= flow <= i * 0x8000_0000_0000_0000,
        decreases txs.len() - i,
    {
        let t = &txs[i];
        proof {
            let next = txs.deep_view().take(i + 1);
            assert(next.drop_last() =~= txs.deep_view().take(i as int));
        }
        if t.from == *address {
            flow = flow - t.amount as i128;
        }
        if t.to == *address {
            flow = flow + t.amount as i128;
        }
        i = i + 1;
    }
    assert(txs.deep_view().take(i as int) =~= txs.deep_view());
    flow
}

} // verus!
