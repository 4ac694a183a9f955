//! What holds of every block and every chain.

use crate::block::{lemma_freshly_mined_sealed, meets_difficulty, mining_outcome, Block, BlockView};
use crate::canonical::{lemma_transactions_text_tells_lists_apart, transactions_text};
use crate::ledger::{balance, chain_valid, history, in_place, link_holds, Blockchain};
use crate::text::{
    decimal, framed, lemma_decimal_injective, lemma_decimal_splits, lemma_framed_splits,
    lemma_signed_decimal_splits, signed_decimal,
};
use crate::transaction::{net_flow, TransactionView};
use vstd::prelude::*;

verus! {

/// The hash of a block is a function of index, timestamp, transactions,
/// previous hash and nonce: two blocks that agree on these have the same
/// content hash, whatever hash each has stored.
pub proof fn lemma_hash_deterministic(a: Block, b: Block)
    requires
        a@.same_payload(b@),
        a@.nonce == b@.nonce,
    ensures
        a@.content_hash() == b@.content_hash(),
{
}

/// The hashed text can be read back: two blocks that are hashed from the
/// same text have the same index, timestamp, transactions, previous hash
/// and nonce. So a change in any field but the stored hash gives another
/// text to hash; whether the hash differs is then up to SHA-256.
pub proof fn lemma_hashed_text_tells_blocks_apart(a: BlockView, b: BlockView)
    requires
        a.preimage() == b.preimage(),
    ensures
        a.index == b.index,
        a.timestamp == b.timestamp,
        transactions_text(a.transactions) == transactions_text(b.transactions),
        a.transactions == b.transactions,
        a.previous_hash == b.previous_hash,
        a.nonce == b.nonce,
{
    let (a1, b1) = (decimal(a.index).push(':'), decimal(b.index).push(':'));
    let (a2, b2) = (signed_decimal(a.timestamp).push(':'), signed_decimal(b.timestamp).push(':'));
    let (a3, b3) = (
        framed(transactions_text(a.transactions)),
        framed(transactions_text(b.transactions)),
    );
    let (a4, b4) = (framed(a.previous_hash), framed(b.previous_hash));
    let (a5, b5) = (decimal(a.nonce), decimal(b.nonce));
    lemma_five_parts(a1, a2, a3, a4, a5);
    lemma_five_parts(b1, b2, b3, b4, b5);
    lemma_decimal_splits(a.index, a2 + (a3 + (a4 + a5)), b.index, b2 + (b3 + (b4 + b5)));
    lemma_signed_decimal_splits(a.timestamp, a3 + (a4 + a5), b.timestamp, b3 + (b4 + b5), ':');
    lemma_framed_splits(
        transactions_text(a.transactions),
        a4 + a5,
        transactions_text(b.transactions),
        b4 + b5,
    );
    lemma_framed_splits(a.previous_hash, a5, b.previous_hash, b5);
    lemma_decimal_injective(a.nonce, b.nonce);
    lemma_transactions_text_tells_lists_apart(a.transactions, b.transactions);
}

/// Two blocks that differ in any of index, timestamp, transactions,
/// previous hash and nonce have different content hashes, provided SHA-256
/// tells their two texts apart.
pub proof fn lemma_other_content_other_hash(a: Block, b: Block)
    requires
        !(a@.same_payload(b@) && a@.nonce == b@.nonce),
        a@.preimage() != b@.preimage() ==> a@.content_hash() != b@.content_hash(),
    ensures
        a@.content_hash() != b@.content_hash(),
{
    if a@.preimage() == b@.preimage() {
        lemma_hashed_text_tells_blocks_apart(a@, b@);
    }
}

/// Five texts in a row, read from the left or from the right.
proof fn lemma_five_parts(
    a: Seq<char>,
    b: Seq<char>,
    c: Seq<char>,
    d: Seq<char>,
    e: Seq<char>,
)
    ensures
        a + b + c + d + e == a + (b + (c + (d + e))),
{
    assert(a + b + c + d + e =~= a + (b + (c + (d + e))));
}

/// A search that reports success leaves a hash that meets the difficulty.
pub proof fn lemma_found_meets_difficulty(
    before: Block,
    after: Block,
    difficulty: usize,
    found: bool,
)
    requires
        mining_outcome(before@, after@, difficulty as nat, found),
        found,
    ensures
        meets_difficulty(after@.hash, difficulty as nat),
{
}

/// The search succeeds exactly where the stored hash meets the difficulty
/// or some later nonce gives a hash that does.
pub proof fn lemma_found_iff_some_nonce_qualifies(
    before: Block,
    after: Block,
    difficulty: usize,
    found: bool,
)
    requires
        mining_outcome(before@, after@, difficulty as nat, found),
    ensures
        found <==> meets_difficulty(before@.hash, difficulty as nat) || exists|n: nat|
            before@.nonce < n <= u64::MAX && meets_difficulty(
                #[trigger] before@.hash_at(n),
                difficulty as nat,
            ),
{
}

/// At difficulty zero the search succeeds at once and changes nothing.
pub proof fn lemma_no_difficulty_no_search(before: Block, after: Block, found: bool)
    requires
        mining_outcome(before@, after@, 0, found),
    ensures
        found,
        after@ == before@,
{
}

/// The search has one outcome: the block it starts from and the difficulty
/// fix the nonce, the hash and the answer.
pub proof fn lemma_mining_outcome_unique(
    before: BlockView,
    first: BlockView,
    first_found: bool,
    second: BlockView,
    second_found: bool,
    difficulty: nat,
)
    requires
        before.nonce <= u64::MAX,
        mining_outcome(before, first, difficulty, first_found),
        mining_outcome(before, second, difficulty, second_found),
    ensures
        first == second,
        first_found == second_found,
{
}

/// In an intact ledger every block after the first stores the hash of the
/// block before it.
pub proof fn lemma_intact_linked(ledger: Blockchain, i: int)
    requires
        ledger@.intact(),
        1 <= i < ledger@.chain.len(),
    ensures
        ledger@.chain[i].previous_hash == ledger@.chain[i - 1].hash,
{
    assert(in_place(ledger@.chain, ledger@.difficulty, i));
}

/// An intact ledger is valid.
pub proof fn lemma_intact_valid(ledger: Blockchain)
    requires
        ledger@.intact(),
    ensures
        chain_valid(ledger@.chain),
{
    assert forall|i: int| 1 <= i < ledger@.chain.len() implies #[trigger] link_holds(
        ledger@.chain,
        i,
    ) by {
        assert(in_place(ledger@.chain, ledger@.difficulty, i));
        lemma_freshly_mined_sealed(ledger@.chain[i], ledger@.difficulty);
    }
}

/// A chain is invalid as soon as one block after the first stores a hash
/// that is not the hash of its content.
pub proof fn lemma_unsealed_block_invalid(ledger: Blockchain, i: int)
    requires
        1 <= i < ledger@.chain.len(),
        !ledger@.chain[i].sealed(),
    ensures
        !chain_valid(ledger@.chain),
{
    assert(!link_holds(ledger@.chain, i));
}

/// A chain is invalid as soon as one block after the first does not store
/// the hash of the block before it.
pub proof fn lemma_broken_link_invalid(ledger: Blockchain, i: int)
    requires
        1 <= i < ledger@.chain.len(),
        ledger@.chain[i].previous_hash != ledger@.chain[i - 1].hash,
    ensures
        !chain_valid(ledger@.chain),
{
    assert(!link_holds(ledger@.chain, i));
}

/// Putting other content into a block after the first, while its stored
/// hash stays, makes a valid chain invalid wherever the new content hashes
/// to something else.
pub proof fn lemma_tampering_detected(chain: Seq<BlockView>, i: int, tampered: BlockView)
    requires
        1 <= i < chain.len(),
        chain[i].sealed(),
        tampered.hash == chain[i].hash,
        tampered.content_hash() != chain[i].content_hash(),
    ensures
        !chain_valid(chain.update(i, tampered)),
{
    assert(!link_holds(chain.update(i, tampered), i));
}

/// A block after the first in which any of index, timestamp, transactions,
/// previous hash and nonce is changed, while its stored hash stays, makes
/// the chain invalid, provided SHA-256 tells the old text and the new one
/// apart.
pub proof fn lemma_changed_content_detected(chain: Seq<BlockView>, i: int, changed: BlockView)
    requires
        1 <= i < chain.len(),
        chain[i].sealed(),
        changed.hash == chain[i].hash,
        !(changed.same_payload(chain[i]) && changed.nonce == chain[i].nonce),
        changed.preimage() != chain[i].preimage() ==> changed.content_hash()
            != chain[i].content_hash(),
    ensures
        !chain_valid(chain.update(i, changed)),
{
    if changed.preimage() == chain[i].preimage() {
        lemma_hashed_text_tells_blocks_apart(changed, chain[i]);
    }
    lemma_tampering_detected(chain, i, changed);
}

/// Another amount in one transaction of a block after the first, the rest
/// of the block unchanged, makes the chain invalid, provided SHA-256 tells
/// the old text and the new one apart.
pub proof fn lemma_changed_amount_detected(
    chain: Seq<BlockView>,
    i: int,
    k: int,
    amount: int,
    changed: BlockView,
)
    requires
        1 <= i < chain.len(),
        chain[i].sealed(),
        0 <= k < chain[i].transactions.len(),
        amount != chain[i].transactions[k].amount,
        changed == (BlockView {
            transactions: chain[i].transactions.update(
                k,
                TransactionView { amount, ..chain[i].transactions[k] },
            ),
            ..chain[i]
        }),
        changed.preimage() != chain[i].preimage() ==> changed.content_hash()
            != chain[i].content_hash(),
    ensures
        !chain_valid(chain.update(i, changed)),
{
    assert(changed.transactions[k] != chain[i].transactions[k]);
    lemma_changed_content_detected(chain, i, changed);
}

/// Another stored hash in a sealed block after the first, its content
/// unchanged, makes the chain invalid.
pub proof fn lemma_changed_hash_detected(chain: Seq<BlockView>, i: int, changed: BlockView)
    requires
        1 <= i < chain.len(),
        chain[i].sealed(),
        changed.same_payload(chain[i]),
        changed.nonce == chain[i].nonce,
        changed.hash != chain[i].hash,
    ensures
        !chain_valid(chain.update(i, changed)),
{
    assert(!link_holds(chain.update(i, changed), i));
}

/// The sum over `addresses` of what one transaction adds to each balance.
pub open spec fn total_effect(t: TransactionView, addresses: Seq<Seq<char>>) -> int
    decreases addresses.len(),
{
    if addresses.len() == 0 {
        0
    } else {
        total_effect(t, addresses.drop_last()) + t.effect_on(addresses.last())
    }
}

/// The sum over `addresses` of the net flow of `txs` to each.
pub open spec fn total_flow(txs: Seq<TransactionView>, addresses: Seq<Seq<char>>) -> int
    decreases addresses.len(),
{
    if addresses.len() == 0 {
        0
    } else {
        total_flow(txs, addresses.drop_last()) + net_flow(txs, addresses.last())
    }
}

/// Both parties of every transaction are among `addresses`.
pub open spec fn closed_over(txs: Seq<TransactionView>, addresses: Seq<Seq<char>>) -> bool {
    forall|i: int|
        0 <= i < txs.len() ==> addresses.contains((#[trigger] txs[i]).from) && addresses.contains(
            txs[i].to,
        )
}

/// Over addresses without repetition, one transaction adds its amount once
/// if the recipient is among them and takes it once if the sender is.
proof fn lemma_total_effect(t: TransactionView, addresses: Seq<Seq<char>>)
    requires
        addresses.no_duplicates(),
    ensures
        total_effect(t, addresses) == (if addresses.contains(t.to) {
            t.amount
        } else {
            0
        }) - (if addresses.contains(t.from) {
            t.amount
        } else {
            0
        }),
    decreases addresses.len(),
{
    if addresses.len() > 0 {
        let rest = addresses.drop_last();
        let last = addresses.last();
        lemma_total_effect(t, rest);
        assert forall|x: Seq<char>| addresses.contains(x) <==> (rest.contains(x) || x == last) by {
            if addresses.contains(x) {
                let k = choose|k: int| 0 <= k < addresses.len() && addresses[k] == x;
                if k < rest.len() {
                    assert(rest[k] == x);
                }
            }
        }
    }
}

/// The total flow of a history is that of all but its last transaction,
/// and the total effect of the last.
proof fn lemma_total_flow_step(txs: Seq<TransactionView>, addresses: Seq<Seq<char>>)
    requires
        txs.len() > 0,
    ensures
        total_flow(txs, addresses) == total_flow(txs.drop_last(), addresses) + total_effect(
            txs.last(),
            addresses,
        ),
    decreases addresses.len(),
{
    if addresses.len() > 0 {
        lemma_total_flow_step(txs, addresses.drop_last());
    }
}

/// No transactions, no flow.
proof fn lemma_total_flow_empty(addresses: Seq<Seq<char>>)
    ensures
        total_flow(Seq::<TransactionView>::empty(), addresses) == 0,
    decreases addresses.len(),
{
    if addresses.len() > 0 {
        lemma_total_flow_empty(addresses.drop_last());
    }
}

/// Transfers create and destroy nothing: over any addresses without
/// repetition that include both parties of every transaction, the net flows
/// add up to zero.
pub proof fn lemma_flows_cancel(txs: Seq<TransactionView>, addresses: Seq<Seq<char>>)
    requires
        addresses.no_duplicates(),
        closed_over(txs, addresses),
    ensures
        total_flow(txs, addresses) == 0,
    decreases txs.len(),
{
    if txs.len() == 0 {
        assert(txs =~= Seq::<TransactionView>::empty());
        lemma_total_flow_empty(addresses);
    } else {
        lemma_flows_cancel(txs.drop_last(), addresses);
        lemma_total_flow_step(txs, addresses);
        lemma_total_effect(txs.last(), addresses);
    }
}

/// The sum over `addresses` of the balance of each on the chain.
pub open spec fn total_balance(chain: Seq<BlockView>, addresses: Seq<Seq<char>>) -> int
    decreases addresses.len(),
{
    if addresses.len() == 0 {
        0
    } else {
        total_balance(chain, addresses.drop_last()) + balance(chain, addresses.last())
    }
}

/// The balances of a ledger add up to zero over any addresses without
/// repetition that include both parties of every transaction in the chain.
pub proof fn lemma_balances_cancel(ledger: Blockchain, addresses: Seq<Seq<char>>)
    requires
        addresses.no_duplicates(),
        closed_over(history(ledger@.chain), addresses),
    ensures
        total_balance(ledger@.chain, addresses) == 0,
{
    lemma_total_balance_is_total_flow(ledger@.chain, addresses);
    lemma_flows_cancel(history(ledger@.chain), addresses);
}

/// The balances on a chain are the net flows of its history.
proof fn lemma_total_balance_is_total_flow(chain: Seq<BlockView>, addresses: Seq<Seq<char>>)
    ensures
        total_balance(chain, addresses) == total_flow(history(chain), addresses),
    decreases addresses.len(),
{
    if addresses.len() > 0 {
        lemma_total_balance_is_total_flow(chain, addresses.drop_last());
    }
}

} // verus!
