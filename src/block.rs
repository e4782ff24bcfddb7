//! Blocks: a list of transactions linked to a predecessor by its hash, with a
//! proof-of-work nonce.
use vstd::prelude::*;
use vstd::utf8::encode_utf8;
use crate::clock::clock_seconds;
use crate::digest::{hex_encode, hex_of, sha256, sha256_of};
use crate::text::{decimal_text, push_decimal, push_signed_decimal, signed_decimal_text};
use crate::transaction::{list_text, push_list, views_of, Transaction, TransactionView};

verus! {

/// A block of the chain.
#[derive(Debug)]
pub struct Block {
    pub index: u32,
    /// Creation time, in seconds since the Unix epoch.
    pub timestamp: i64,
    pub transactions: Vec<Transaction>,
    pub previous_hash: String,
    pub hash: String,
    pub nonce: u64,
}

/// The text a block hash is taken over: index, timestamp, the canonical text
/// of the transactions, the predecessor's hash and the nonce, concatenated.
pub open spec fn header_text(
    index: u32,
    timestamp: i64,
    txs: Seq<TransactionView>,
    previous_hash: Seq<char>,
    nonce: u64,
) -> Seq<char> {
    decimal_text(index as nat) + signed_decimal_text(timestamp as int) + list_text(txs)
        + previous_hash + decimal_text(nonce as nat)
}

/// Hexadecimal SHA-256 of the UTF-8 bytes of `header_text`.
pub open spec fn block_hash(
    index: u32,
    timestamp: i64,
    txs: Seq<TransactionView>,
    previous_hash: Seq<char>,
    nonce: u64,
) -> Seq<char> {
    hex_of(sha256_of(encode_utf8(header_text(index, timestamp, txs, previous_hash, nonce))))
}

/// The proof-of-work target: the text begins with `d` characters `'0'`.
pub open spec fn has_zero_prefix(h: Seq<char>, d: nat) -> bool {
    d <= h.len() && forall|i: int| 0 <= i < d ==> h[i] == '0'
}

/// Whether `hash` begins with `difficulty` characters `'0'`.
pub fn meets_difficulty(hash: &str, difficulty: u32) -> (r: bool)
    ensures
        r == has_zero_prefix(hash@, difficulty as nat),
{
    let n = hash.unicode_len();
    if difficulty as usize > n {
        return false;
    }
    let mut i: usize = 0;
    while i < difficulty as usize
        invariant
            difficulty as nat <= hash@.len(),
            n == hash@.len(),
            i <= difficulty,
            forall|j: int| 0 <= j < i ==> hash@[j] == '0',
        decreases difficulty - i,
    {
        if hash.get_char(i) != '0' {
            return false;
        }
        i = i + 1;
    }
    true
}

impl Block {
    /// The hash recomputed from the block's own fields.
    pub open spec fn computed_hash(&self) -> Seq<char> {
        block_hash(
            self.index,
            self.timestamp,
            views_of(self.transactions@),
            self.previous_hash@,
            self.nonce,
        )
    }

    /// A block stamped with the current time; its hash is empty until mined.
    pub fn new(index: u32, transactions: Vec<Transaction>, previous_hash: String, nonce: u64) -> (r:
        Self)
        ensures
            r.index == index,
            r.transactions == transactions,
            r.previous_hash == previous_hash,
            r.nonce == nonce,
            r.hash@ == Seq::<char>::empty(),
    {
        Block::with_timestamp(index, transactions, previous_hash, nonce, clock_seconds())
    }

    /// A block stamped with `timestamp`; its hash is empty until mined.
    pub fn with_timestamp(
        index: u32,
        transactions: Vec<Transaction>,
        previous_hash: String,
        nonce: u64,
        timestamp: i64,
    ) -> (r: Self)
        ensures
            r.index == index,
            r.timestamp == timestamp,
            r.transactions == transactions,
            r.previous_hash == previous_hash,
            r.nonce == nonce,
            r.hash@ == Seq::<char>::empty(),
    {
        Block { index, timestamp, transactions, previous_hash, hash: String::new(), nonce }
    }

    /// The text that `calculate_hash` digests.
    pub fn header(&self) -> (r: String)
        ensures
            r@ == header_text(
                self.index,
                self.timestamp,
                views_of(self.transactions@),
                self.previous_hash@,
                self.nonce,
            ),
    {
        let mut out = String::new();
        push_decimal(&mut out, self.index as u64);
        push_signed_decimal(&mut out, self.timestamp);
        push_list(&self.transactions, &mut out);
        out.append(self.previous_hash.as_str());
        push_decimal(&mut out, self.nonce);
        assert(out@ =~= header_text(
            self.index,
            self.timestamp,
            views_of(self.transactions@),
            self.previous_hash@,
            self.nonce,
        ));
        out
    }

    /// The block's hash recomputed from its fields.
    pub fn calculate_hash(&self) -> (r: String)
        ensures
            r@ == self.computed_hash(),
            r@.len() == 64,
    {
        let input = self.header();
        let digest = sha256(input.as_str().as_bytes());
        hex_encode(digest.as_slice())
    }

    /// Proof-of-work search: from the current nonce upward, recompute the hash
    /// until it begins with `difficulty` zeros. Returns whether such a nonce was
    /// found before the nonces ran out; the block then holds the least one at or
    /// above the starting nonce, and its hash.
    pub fn mine_block(&mut self, difficulty: u32) -> (found: bool)
        ensures
            final(self).index == old(self).index,
            final(self).timestamp == old(self).timestamp,
            final(self).transactions == old(self).transactions,
            final(self).previous_hash == old(self).previous_hash,
            old(self).nonce <= final(self).nonce,
            final(self).hash@ == final(self).computed_hash(),
            forall|n: u64|
                old(self).nonce <= n < final(self).nonce ==> !has_zero_prefix(
                    #[trigger] block_hash(
                        old(self).index,
                        old(self).timestamp,
                        views_of(old(self).transactions@),
                        old(self).previous_hash@,
                        n,
                    ),
                    difficulty as nat,
                ),
            found == has_zero_prefix(final(self).hash@, difficulty as nat),
            !found ==> final(self).nonce == u64::MAX,
    {
        loop
            invariant
                self.index == old(self).index,
                self.timestamp == old(self).timestamp,
                self.transactions == old(self).transactions,
                self.previous_hash == old(self).previous_hash,
                old(self).nonce <= self.nonce,
                forall|n: u64|
                    old(self).nonce <= n < self.nonce ==> !has_zero_prefix(
                        #[trigger] block_hash(
                            old(self).index,
                            old(self).timestamp,
                            views_of(old(self).transactions@),
                            old(self).previous_hash@,
                            n,
                        ),
                        difficulty as nat,
                    ),
            decreases u64::MAX - self.nonce,
        {
            self.hash = self.calculate_hash();
            if meets_difficulty(self.hash.as_str(), difficulty) {
                return true;
            }
            if self.nonce == u64::MAX {
                return false;
            }
            self.nonce = self.nonce + 1;
        }
    }
}

} // verus!
