//! The ledger: a chain of mined blocks and a buffer of pending transactions.

use crate::block::{lemma_freshly_mined_sealed, meets_difficulty, Block, BlockView};
use crate::clock::unix_seconds_now;
use crate::text::{push_signed_decimal, signed_decimal};
use crate::transaction::{copy_of, flow_of, net_flow, Transaction, TransactionView};
use vstd::prelude::*;
use vstd::string::StringExecFns;

verus! {

/// An append-only chain of blocks with the transactions that wait for the
/// next block. Difficulty and reward are fixed when the ledger is made.
#[derive(Debug)]
pub struct Blockchain {
    pub chain: Vec<Block>,
    pub difficulty: usize,
    pub pending_transactions: Vec<Transaction>,
    pub mining_reward: i64,
}

/// The mathematical content of a [`Blockchain`].
#[verifier::ext_equal]
pub struct BlockchainView {
    pub chain: Seq<BlockView>,
    pub difficulty: nat,
    pub pending_transactions: Seq<TransactionView>,
    pub mining_reward: int,
}

impl View for Blockchain {
    type V = BlockchainView;

    open spec fn view(&self) -> BlockchainView {
        BlockchainView {
            chain: self.chain.deep_view(),
            difficulty: self.difficulty as nat,
            pending_transactions: self.pending_transactions.deep_view(),
            mining_reward: self.mining_reward as int,
        }
    }
}

/// The only transaction of the first block.
pub open spec fn genesis_transaction() -> TransactionView {
    TransactionView { from: "Genesis"@, to: "Genesis"@, amount: 0 }
}

/// The transaction that pays `amount` to whoever mined a block.
pub open spec fn reward_transaction(to: Seq<char>, amount: int) -> TransactionView {
    TransactionView { from: "System"@, to, amount }
}

/// Block `i` carries the hash of its content and the stored hash of the
/// block before it.
pub open spec fn link_holds(chain: Seq<BlockView>, i: int) -> bool {
    &&& chain[i].sealed()
    &&& chain[i].previous_hash == chain[i - 1].hash
}

/// The link holds at every block after the first. The first block is not
/// examined.
pub open spec fn chain_valid(chain: Seq<BlockView>) -> bool {
    forall|i: int| 1 <= i < chain.len() ==> #[trigger] link_holds(chain, i)
}

/// All transactions of the chain, block after block.
pub open spec fn history(chain: Seq<BlockView>) -> Seq<TransactionView>
    decreases chain.len(),
{
    if chain.len() == 0 {
        Seq::empty()
    } else {
        history(chain.drop_last()) + chain.last().transactions
    }
}

/// What the whole history of the chain leaves `address` with, from zero.
pub open spec fn balance(chain: Seq<BlockView>, address: Seq<char>) -> int {
    net_flow(history(chain), address)
}

/// One transaction on a line of its own: sender, recipient and amount.
pub open spec fn transaction_line(t: TransactionView) -> Seq<char> {
    "  "@ + t.from + " -> "@ + t.to + ": "@ + signed_decimal(t.amount) + "\n"@
}

/// The lines of `txs`, in order.
pub open spec fn transaction_lines(txs: Seq<TransactionView>) -> Seq<char>
    decreases txs.len(),
{
    if txs.len() == 0 {
        Seq::empty()
    } else {
        transaction_lines(txs.drop_last()) + transaction_line(txs.last())
    }
}

/// A block on screen: the block in words, its transactions line by line,
/// and a rule of fifty dashes.
pub open spec fn block_section(block: BlockView) -> Seq<char> {
    block.text() + "\nTransactions:\n"@ + transaction_lines(block.transactions)
        + "--------------------------------------------------\n"@
}

/// The sections of the blocks of `chain`, in order.
pub open spec fn block_sections(chain: Seq<BlockView>) -> Seq<char>
    decreases chain.len(),
{
    if chain.len() == 0 {
        Seq::empty()
    } else {
        block_sections(chain.drop_last()) + block_section(chain.last())
    }
}

/// A chain on screen: a heading, then block after block.
pub open spec fn chain_text(chain: Seq<BlockView>) -> Seq<char> {
    "\n=== BLOCKCHAIN ===\n"@ + block_sections(chain)
}

/// Block `i` is as a ledger of this difficulty made it: numbered by its
/// place, searched from nonce zero, and pointing at the stored hash of the
/// block before it, or at `"0"` where it is the first.
pub open spec fn in_place(chain: Seq<BlockView>, difficulty: nat, i: int) -> bool {
    &&& chain[i].index == i
    &&& chain[i].freshly_mined(difficulty)
    &&& chain[i].previous_hash == if i == 0 {
        "0"@
    } else {
        chain[i - 1].hash
    }
}

impl BlockchainView {
    /// The state that construction establishes and mining keeps: there is a
    /// first block, and every block is in place.
    pub open spec fn intact(self) -> bool {
        &&& self.chain.len() >= 1
        &&& forall|i: int|
            0 <= i < self.chain.len() ==> #[trigger] in_place(self.chain, self.difficulty, i)
    }
}

/// What mining the pending transactions makes of a ledger: one more block,
/// in the next place, that holds the pending transactions followed by the
/// reward for `reward_address`, points at the stored hash of the last
/// block and was searched from nonce zero at the ledger's difficulty; and
/// nothing pending any more. `mined` tells whether the search succeeded.
pub open spec fn block_appended(
    before: BlockchainView,
    after: BlockchainView,
    reward_address: Seq<char>,
    mined: bool,
) -> bool {
    &&& after.difficulty == before.difficulty
    &&& after.mining_reward == before.mining_reward
    &&& after.pending_transactions.len() == 0
    &&& after.chain.len() == before.chain.len() + 1
    &&& after.chain.drop_last() == before.chain
    &&& after.chain.last().index == before.chain.len()
    &&& after.chain.last().transactions == before.pending_transactions.push(
        reward_transaction(reward_address, before.mining_reward),
    )
    &&& after.chain.last().previous_hash == before.chain.last().hash
    &&& after.chain.last().freshly_mined(before.difficulty)
    &&& mined == meets_difficulty(after.chain.last().hash, before.difficulty)
}

/// The net flow of two histories, one after the other, is the sum of theirs.
pub proof fn lemma_net_flow_concat(
    a: Seq<TransactionView>,
    b: Seq<TransactionView>,
    address: Seq<char>,
)
    ensures
        net_flow(a + b, address) == net_flow(a, address) + net_flow(b, address),
    decreases b.len(),
{
    if b.len() > 0 {
        assert((a + b).drop_last() =~= a + b.drop_last());
        lemma_net_flow_concat(a, b.drop_last(), address);
    }
}

/// The history of the first `n + 1` blocks is that of the first `n`,
/// followed by the transactions of block `n`.
proof fn lemma_history_step(chain: Seq<BlockView>, n: int)
    requires
        0 <= n < chain.len(),
    ensures
        history(chain.take(n + 1)) == history(chain.take(n)) + chain[n].transactions,
{
    assert(chain.take(n + 1).drop_last() =~= chain.take(n));
}

/// The balance after the first `n + 1` blocks is that after the first `n`,
/// and the net flow of block `n`.
proof fn lemma_balance_step(chain: Seq<BlockView>, n: int, address: Seq<char>)
    requires
        0 <= n < chain.len(),
    ensures
        balance(chain.take(n + 1), address) == balance(chain.take(n), address) + net_flow(
            chain[n].transactions,
            address,
        ),
{
    lemma_history_step(chain, n);
    lemma_net_flow_concat(history(chain.take(n)), chain[n].transactions, address);
}

/// The history of a chain is never shorter than that of its first `n` blocks.
proof fn lemma_history_grows(chain: Seq<BlockView>, n: int)
    requires
        0 <= n <= chain.len(),
    ensures
        history(chain.take(n)).len() <= history(chain).len(),
    decreases chain.len() - n,
{
    if n < chain.len() {
        lemma_history_step(chain, n);
        lemma_history_grows(chain, n + 1);
    } else {
        assert(chain.take(n) =~= chain);
    }
}

/// Mining keeps an intact ledger intact.
pub proof fn lemma_intact_extended(
    before: BlockchainView,
    after: BlockchainView,
    reward_address: Seq<char>,
    mined: bool,
)
    requires
        before.intact(),
        block_appended(before, after, reward_address, mined),
    ensures
        after.intact(),
{
    assert forall|i: int| 0 <= i < after.chain.len() implies #[trigger] in_place(
        after.chain,
        after.difficulty,
        i,
    ) by {
        if i < before.chain.len() {
            assert(in_place(before.chain, before.difficulty, i));
        }
    }
}

/// Mining leaves a chain that has a block as valid as it was.
pub proof fn lemma_valid_extended(
    before: BlockchainView,
    after: BlockchainView,
    reward_address: Seq<char>,
    mined: bool,
)
    requires
        before.chain.len() >= 1,
        block_appended(before, after, reward_address, mined),
    ensures
        chain_valid(after.chain) == chain_valid(before.chain),
{
    let n = before.chain.len() as int;
    assert forall|i: int| 1 <= i < n implies link_holds(after.chain, i) == link_holds(
        before.chain,
        i,
    ) by {}
    assert(link_holds(after.chain, n)) by {
        lemma_freshly_mined_sealed(after.chain.last(), before.difficulty);
    }
}

/// Appends the line of one transaction to `out`.
fn push_transaction_line(out: &mut String, transaction: &Transaction)
    ensures
        final(out)@ == old(out)@ + transaction_line(transaction@),
{
    out.append("  ");
    out.append(transaction.from.as_str());
    out.append(" -> ");
    out.append(transaction.to.as_str());
    out.append(": ");
    push_signed_decimal(out, transaction.amount);
    out.append("\n");
}

/// Appends the section of one block to `out`.
fn push_block_section(out: &mut String, block: &Block)
    ensures
        final(out)@ == old(out)@ + block_section(block@),
{
    out.append(block.to_string().as_str());
    out.append("\nTransactions:\n");
    let ghost opening = out@;
    let mut j: usize = 0;
    while j < block.transactions.len()
        invariant
            j <= block.transactions.len(),
            out@ == opening + transaction_lines(block@.transactions.take(j as int)),
        decreases block.transactions.len() - j,
    {
        push_transaction_line(out, &block.transactions[j]);
        assert(block@.transactions.take(j + 1).drop_last() =~= block@.transactions.take(j as int));
        j = j + 1;
    }
    out.append("--------------------------------------------------\n");
    assert(block@.transactions.take(j as int) =~= block@.transactions);
}

impl Blockchain {
    /// A ledger of difficulty 2 and reward 100, whose first block is stamped
    /// with the current time.
    pub fn new() -> (ledger: Self)
        ensures
            ledger@.difficulty == 2,
            ledger@.mining_reward == 100,
            ledger@.pending_transactions.len() == 0,
            ledger@.chain.len() == 1,
            ledger@.chain[0].transactions == seq![genesis_transaction()],
            ledger@.intact(),
            chain_valid(ledger@.chain),
    {
        Blockchain::started_at(unix_seconds_now(), 2, 100)
    }

    /// A ledger whose first block is stamped with `timestamp`: the block has
    /// index zero, holds the genesis transaction alone, points back at
    /// `"0"`, and is mined at `difficulty`.
    pub fn started_at(timestamp: i64, difficulty: usize, mining_reward: i64) -> (ledger: Self)
        ensures
            ledger@.difficulty == difficulty,
            ledger@.mining_reward == mining_reward,
            ledger@.pending_transactions.len() == 0,
            ledger@.chain.len() == 1,
            ledger@.chain[0].timestamp == timestamp,
            ledger@.chain[0].transactions == seq![genesis_transaction()],
            ledger@.intact(),
            chain_valid(ledger@.chain),
    {
        let mut ledger = Blockchain {
            chain: Vec::new(),
            difficulty,
            pending_transactions: Vec::new(),
            mining_reward,
        };
        ledger.create_genesis_block(timestamp);
        ledger
    }

    fn create_genesis_block(&mut self, timestamp: i64)
        requires
            old(self).chain.len() == 0,
        ensures
            final(self).difficulty == old(self).difficulty,
            final(self).mining_reward == old(self).mining_reward,
            final(self).pending_transactions == old(self).pending_transactions,
            final(self)@.chain.len() == 1,
            final(self)@.chain[0].timestamp == timestamp,
            final(self)@.chain[0].transactions == seq![genesis_transaction()],
            final(self)@.intact(),
    {
        let mut genesis_transactions: Vec<Transaction> = Vec::new();
        genesis_transactions.push(
            Transaction::new(String::from_str("Genesis"), String::from_str("Genesis"), 0),
        );
        let mut genesis_block = Block::at(0, timestamp, genesis_transactions, String::from_str("0"));
        genesis_block.mine_block(self.difficulty);
        self.chain.push(genesis_block);
    }

    /// The last block of the chain.
    pub fn get_latest_block(&self) -> (block: &Block)
        requires
            self.chain.len() > 0,
        ensures
            *block == self.chain@.last(),
    {
        &self.chain[self.chain.len() - 1]
    }

    /// Puts `transaction` at the end of the pending buffer.
    pub fn add_transaction(&mut self, transaction: Transaction)
        ensures
            final(self)@ == (BlockchainView {
                pending_transactions: old(self)@.pending_transactions.push(transaction@),
                ..old(self)@
            }),
    {
        self.pending_transactions.push(transaction);
        assert(self.pending_transactions.deep_view() =~= old(self).pending_transactions.deep_view().push(
            transaction@,
        ));
    }

    /// Mines the pending transactions into a block stamped with the current
    /// time. See [`Blockchain::mine_pending_transactions_at`].
    pub fn mine_pending_transactions(&mut self, mining_reward_address: String) -> (mined: bool)
        requires
            old(self).chain.len() > 0,
        ensures
            block_appended(old(self)@, final(self)@, mining_reward_address@, mined),
            old(self)@.intact() ==> final(self)@.intact(),
            chain_valid(final(self)@.chain) == chain_valid(old(self)@.chain),
    {
        self.mine_pending_transactions_at(mining_reward_address, unix_seconds_now())
    }

    /// Appends to the chain a block stamped with `timestamp` that holds the
    /// pending transactions followed by the reward for
    /// `mining_reward_address`, and empties the pending buffer. The block is
    /// mined at the ledger's difficulty before it is appended, and appended
    /// whatever the search gave; the result tells whether its hash meets the
    /// difficulty.
    pub fn mine_pending_transactions_at(
        &mut self,
        mining_reward_address: String,
        timestamp: i64,
    ) -> (mined: bool)
        requires
            old(self).chain.len() > 0,
        ensures
            block_appended(old(self)@, final(self)@, mining_reward_address@, mined),
            final(self)@.chain.last().timestamp == timestamp,
            old(self)@.intact() ==> final(self)@.intact(),
            chain_valid(final(self)@.chain) == chain_valid(old(self)@.chain),
    {
        let reward_transaction = Transaction::new(
            String::from_str("System"),
            mining_reward_address,
            self.mining_reward,
        );
        self.pending_transactions.push(reward_transaction);
        assert(self.pending_transactions.deep_view() =~= old(self)@.pending_transactions.push(
            reward_transaction@,
        ));
        let mut block = Block::at(
            self.chain.len() as u64,
            timestamp,
            copy_of(&self.pending_transactions),
            self.get_latest_block().hash.clone(),
        );
        let mined = block.mine_block(self.difficulty);
        self.chain.push(block);
        self.pending_transactions.clear();
        assert(self.chain.deep_view().drop_last() =~= old(self).chain.deep_view());
        proof {
            if old(self)@.intact() {
                lemma_intact_extended(old(self)@, self@, mining_reward_address@, mined);
            }
            lemma_valid_extended(old(self)@, self@, mining_reward_address@, mined);
        }
        mined
    }

    /// What the history of the chain leaves `address` with, from zero.
    /// `None` where the chain holds more transactions than a `u64` counts.
    pub fn get_balance(&self, address: &str) -> (amount: Option<i128>)
        ensures
            amount is Some <==> history(self@.chain).len() <= u64::MAX,
            amount matches Some(a) ==> a == balance(self@.chain, address@),
    {
        let address = String::from_str(address);
        let mut total: i128 = 0;
        let mut count: u64 = 0;
        let mut i: usize = 0;
        while i < self.chain.len()
            invariant
                i <= self.chain.len(),
                count == history(self@.chain.take(i as int)).len(),
                total == balance(self@.chain.take(i as int), address@),
                -(count * 0x8000_0000_0000_0000) <= total <= count * 0x8000_0000_0000_0000,
            decreases self.chain.len() - i,
        {
            let block = &self.chain[i];
            proof {
                lemma_history_step(self@.chain, i as int);
                lemma_balance_step(self@.chain, i as int, address@);
            }
            if block.transactions.len() as u64 > u64::MAX - count {
                proof {
                    lemma_history_grows(self@.chain, i + 1);
                }
                return None;
            }
            count = count + block.transactions.len() as u64;
            total = total + flow_of(&block.transactions, &address);
            i = i + 1;
        }
        assert(self@.chain.take(i as int) =~= self@.chain);
        Some(total)
    }

    /// The whole chain as text for the screen, every block with its
    /// transactions.
    pub fn display_chain(&self) -> (text: String)
        ensures
            text@ == chain_text(self@.chain),
    {
        let mut text = String::new();
        text.append("\n=== BLOCKCHAIN ===\n");
        let mut i: usize = 0;
        while i < self.chain.len()
            invariant
                i <= self.chain.len(),
                text@ == "\n=== BLOCKCHAIN ===\n"@ + block_sections(self@.chain.take(i as int)),
            decreases self.chain.len() - i,
        {
            push_block_section(&mut text, &self.chain[i]);
            proof {
                let shown = self@.chain.take(i as int);
                let next = self@.chain.take(i + 1);
                assert(next.drop_last() =~= shown);
                assert(text@ =~= "\n=== BLOCKCHAIN ===\n"@ + (block_sections(shown) + block_section(
                    next.last(),
                )));
            }
            i = i + 1;
        }
        assert(self@.chain.take(i as int) =~= self@.chain);
        text
    }

    /// Tells whether every block after the first carries the hash of its
    /// content and the stored hash of the block before it.
    pub fn is_chain_valid(&self) -> (valid: bool)
        ensures
            valid == chain_valid(self@.chain),
    {
        let mut i: usize = 1;
        while i < self.chain.len()
            invariant
                1 <= i,
                forall|j: int|
                    1 <= j < i && j < self.chain.len() ==> #[trigger] link_holds(self@.chain, j),
            decreases self.chain.len() - i,
        {
            let current_block = &self.chain[i];
            let previous_block = &self.chain[i - 1];
            if !(current_block.hash == current_block.calculate_hash()) {
                assert(!link_holds(self@.chain, i as int));
                return false;
            }
            if !(current_block.previous_hash == previous_block.hash) {
                assert(!link_holds(self@.chain, i as int));
                return false;
            }
            i = i + 1;
        }
        true
    }
}

} // verus!
