//! Blocks: a batch of transactions, the hash of the block before, and a
//! nonce searched until the block's own hash starts with enough zeros.

use crate::canonical::{transactions_text, transactions_to_text};
use crate::clock::{format_utc, unix_seconds_now, utc_date_time};
use crate::digest::{fingerprint, fingerprint_of};
use crate::text::{decimal, framed, push_decimal, push_framed, push_signed_decimal, signed_decimal};
use crate::transaction::{copy_of, Transaction, TransactionView};
use vstd::prelude::*;
use vstd::string::{StrSliceExecFns, StringExecFns};

verus! {

/// One link of the chain. `hash` is meant to be the content hash of the
/// other five fields; nothing stops a holder from changing a field afterwards,
/// which is what validation of the chain detects.
#[derive(Debug)]
pub struct Block {
    pub index: u64,
    /// Whole seconds since the Unix epoch.
    pub timestamp: i64,
    pub transactions: Vec<Transaction>,
    pub previous_hash: String,
    pub hash: String,
    pub nonce: u64,
}

/// The mathematical content of a [`Block`].
#[verifier::ext_equal]
pub struct BlockView {
    pub index: nat,
    pub timestamp: int,
    pub transactions: Seq<TransactionView>,
    pub previous_hash: Seq<char>,
    pub hash: Seq<char>,
    pub nonce: nat,
}

impl View for Block {
    type V = BlockView;

    open spec fn view(&self) -> BlockView {
        BlockView {
            index: self.index as nat,
            timestamp: self.timestamp as int,
            transactions: self.transactions.deep_view(),
            previous_hash: self.previous_hash@,
            hash: self.hash@,
            nonce: self.nonce as nat,
        }
    }
}

impl DeepView for Block {
    type V = BlockView;

    open spec fn deep_view(&self) -> BlockView {
        self@
    }
}

impl BlockView {
    /// The text that is hashed: index and timestamp, each before a colon;
    /// the text of the transactions and the previous hash, each behind its
    /// length; and the nonce. The five parts can be read back from it. The
    /// stored hash is no part of it.
    pub open spec fn preimage(self) -> Seq<char> {
        decimal(self.index).push(':') + signed_decimal(self.timestamp).push(':') + framed(
            transactions_text(self.transactions),
        ) + framed(self.previous_hash) + decimal(self.nonce)
    }

    /// The hash that the block's content calls for.
    pub open spec fn content_hash(self) -> Seq<char> {
        fingerprint(self.preimage())
    }

    /// The stored hash is the content hash.
    pub open spec fn sealed(self) -> bool {
        self.hash == self.content_hash()
    }

    /// The content hash that the block would have with the nonce `nonce`.
    pub open spec fn hash_at(self, nonce: nat) -> Seq<char> {
        (BlockView { nonce, ..self }).content_hash()
    }

    /// The timestamp as a date and time in UTC, or as the bare number of
    /// seconds where no calendar date stands for it.
    pub open spec fn timestamp_text(self) -> Seq<char> {
        match utc_date_time(self.timestamp, "%Y-%m-%d %H:%M:%S UTC"@) {
            Some(text) => text,
            None => signed_decimal(self.timestamp),
        }
    }

    /// The block in words: six lines, the last without a line break.
    pub open spec fn text(self) -> Seq<char> {
        "Block #"@ + decimal(self.index) + "\nTimestamp: "@ + self.timestamp_text()
            + "\nPrevious Hash: "@ + self.previous_hash + "\nHash: "@ + self.hash + "\nNonce: "@
            + decimal(self.nonce) + "\nTransactions: "@ + decimal(self.transactions.len())
    }

    /// The block as it is before any search: nonce zero and the hash of that
    /// content.
    pub open spec fn unmined(self) -> BlockView {
        BlockView { nonce: 0, hash: self.hash_at(0), ..self }
    }

    /// The block is what the search at `difficulty` makes of its unmined
    /// form.
    pub open spec fn freshly_mined(self, difficulty: nat) -> bool {
        mining_outcome(self.unmined(), self, difficulty, meets_difficulty(self.hash, difficulty))
    }

    /// The two blocks differ at most in nonce and stored hash.
    pub open spec fn same_payload(self, other: BlockView) -> bool {
        &&& self.index == other.index
        &&& self.timestamp == other.timestamp
        &&& self.transactions == other.transactions
        &&& self.previous_hash == other.previous_hash
    }
}

/// `hash` starts with `difficulty` characters `'0'`.
pub open spec fn meets_difficulty(hash: Seq<char>, difficulty: nat) -> bool {
    &&& difficulty <= hash.len()
    &&& forall|i: int| 0 <= i < difficulty ==> hash[i] == '0'
}

/// What the proof-of-work search makes of a block.
///
/// A stored hash that already meets the difficulty is accepted as it stands.
/// Otherwise the nonce goes up one by one, the hash being recomputed each
/// time, and stops at the first nonce whose hash meets the difficulty;
/// `found` is false where no nonce up to the largest does.
pub open spec fn mining_outcome(
    before: BlockView,
    after: BlockView,
    difficulty: nat,
    found: bool,
) -> bool {
    &&& after.same_payload(before)
    &&& if meets_difficulty(before.hash, difficulty) {
        &&& found
        &&& after.nonce == before.nonce
        &&& after.hash == before.hash
    } else {
        &&& before.nonce <= after.nonce <= u64::MAX
        &&& forall|n: nat|
            before.nonce < n < after.nonce ==> !meets_difficulty(
                #[trigger] before.hash_at(n),
                difficulty,
            )
        &&& after.nonce == before.nonce ==> after.hash == before.hash
        &&& after.nonce > before.nonce ==> after.hash == before.hash_at(after.nonce)
        &&& found == meets_difficulty(after.hash, difficulty)
        &&& !found ==> after.nonce == u64::MAX
    }
}

/// A block that came out of a search from nonce zero carries the hash of
/// its content, whether or not the search succeeded.
pub proof fn lemma_freshly_mined_sealed(block: BlockView, difficulty: nat)
    requires
        block.freshly_mined(difficulty),
    ensures
        block.sealed(),
{
}

/// Tells whether `hash` starts with `difficulty` characters `'0'`.
pub fn has_leading_zeros(hash: &str, difficulty: usize) -> (ok: bool)
    ensures
        ok == meets_difficulty(hash@, difficulty as nat),
{
    if difficulty > hash.unicode_len() {
        return false;
    }
    let mut i: usize = 0;
    while i < difficulty
        invariant
            i <= difficulty <= hash@.len(),
            forall|j: int| 0 <= j < i ==> hash@[j] == '0',
        decreases difficulty - i,
    {
        if hash.get_char(i) != '0' {
            return false;
        }
        i = i + 1;
    }
    true
}

impl Block {
    /// A block stamped with the current time, with nonce zero and the hash
    /// of its content.
    pub fn new(index: u64, transactions: Vec<Transaction>, previous_hash: String) -> (block: Self)
        ensures
            block@.index == index,
            block@.transactions == transactions.deep_view(),
            block@.previous_hash == previous_hash@,
            block@.nonce == 0,
            block@.sealed(),
            block@.hash.len() == 64,
    {
        Block::at(index, unix_seconds_now(), transactions, previous_hash)
    }

    /// A block stamped with `timestamp`, with nonce zero and the hash of its
    /// content.
    pub fn at(
        index: u64,
        timestamp: i64,
        transactions: Vec<Transaction>,
        previous_hash: String,
    ) -> (block: Self)
        ensures
            block@.index == index,
            block@.timestamp == timestamp,
            block@.transactions == transactions.deep_view(),
            block@.previous_hash == previous_hash@,
            block@.nonce == 0,
            block@.sealed(),
            block@.hash.len() == 64,
    {
        let mut block = Block {
            index,
            timestamp,
            transactions,
            previous_hash,
            hash: String::new(),
            nonce: 0,
        };
        block.hash = block.calculate_hash();
        block
    }

    /// The hash that the block's content calls for: sixty-four lowercase
    /// hexadecimal digits. The stored hash plays no part.
    pub fn calculate_hash(&self) -> (hash: String)
        ensures
            hash@ == self@.content_hash(),
            hash@.len() == 64,
    {
        let mut data = String::new();
        push_decimal(&mut data, self.index);
        data.push(':');
        push_signed_decimal(&mut data, self.timestamp);
        data.push(':');
        push_framed(&mut data, transactions_to_text(&self.transactions).as_str());
        push_framed(&mut data, self.previous_hash.as_str());
        push_decimal(&mut data, self.nonce);
        assert(data@ =~= self@.preimage());
        fingerprint_of(data.as_str())
    }

    /// The block in words: index, time, both hashes, nonce and the number of
    /// its transactions.
    pub fn to_string(&self) -> (text: String)
        ensures
            text@ == self@.text(),
    {
        let mut text = String::new();
        text.append("Block #");
        push_decimal(&mut text, self.index);
        text.append("\nTimestamp: ");
        match format_utc(self.timestamp, "%Y-%m-%d %H:%M:%S UTC") {
            Some(date_time) => {
                text.append(date_time.as_str());
            },
            None => {
                push_signed_decimal(&mut text, self.timestamp);
            },
        }
        text.append("\nPrevious Hash: ");
        text.append(self.previous_hash.as_str());
        text.append("\nHash: ");
        text.append(self.hash.as_str());
        text.append("\nNonce: ");
        push_decimal(&mut text, self.nonce);
        text.append("\nTransactions: ");
        push_decimal(&mut text, self.transactions.len() as u64);
        text
    }

    /// Searches for a nonce whose hash starts with `difficulty` zeros, and
    /// tells whether there was one. Only `nonce` and `hash` change.
    pub fn mine_block(&mut self, difficulty: usize) -> (found: bool)
        ensures
            mining_outcome(old(self)@, final(self)@, difficulty as nat, found),
    {
        while !has_leading_zeros(self.hash.as_str(), difficulty)
            invariant
                self@.same_payload(old(self)@),
                old(self).nonce <= self.nonce,
                self.nonce == old(self).nonce ==> self.hash@ == old(self).hash@,
                self.nonce > old(self).nonce ==> {
                    &&& !meets_difficulty(old(self).hash@, difficulty as nat)
                    &&& self.hash@ == old(self)@.hash_at(self.nonce as nat)
                },
                forall|n: nat|
                    old(self).nonce < n < self.nonce ==> !meets_difficulty(
                        #[trigger] old(self)@.hash_at(n),
                        difficulty as nat,
                    ),
            decreases u64::MAX - self.nonce,
        {
            if self.nonce == u64::MAX {
                return false;
            }
            self.nonce = self.nonce + 1;
            self.hash = self.calculate_hash();
            assert(self@.content_hash() == old(self)@.hash_at(self.nonce as nat)) by {
                assert((BlockView { nonce: self.nonce as nat, ..old(self)@ }).preimage()
                    == self@.preimage());
            }
        }
        true
    }
}

impl Clone for Block {
    fn clone(&self) -> (copy: Self)
        ensures
            copy@ == self@,
    {
        Block {
            index: self.index,
            timestamp: self.timestamp,
            transactions: copy_of(&self.transactions),
            previous_hash: self.previous_hash.clone(),
            hash: self.hash.clone(),
            nonce: self.nonce,
        }
    }
}

} // verus!
