//! Transfers, blocks, the block hash and the proof-of-work search.
use crate::encoding::{
    decimal, hex_encode, hex_lower, is_hex_char, lemma_hex_lower_shape, push_bytes, push_decimal,
    starts_with,
};
use sha2::Digest;
use vstd::prelude::*;
use vstd::utf8::encode_utf8;

verus! {

/// A movement of `amount` whole units from `sender` to `receiver`. Nothing about
/// it is checked: any identifiers and any amount, negative ones included.
#[derive(Clone, Debug)]
pub struct Transfer {
    pub sender: String,
    pub receiver: String,
    pub amount: i64,
}

impl Transfer {
    /// The plain values that the block hash serialises.
    pub open spec fn row(self) -> (Seq<char>, Seq<char>, int) {
        (self.sender@, self.receiver@, self.amount as int)
    }

    /// A copy of this transfer.
    pub fn duplicate(&self) -> (r: Transfer)
        ensures
            r == *self,
    {
        Transfer { sender: self.sender.clone(), receiver: self.receiver.clone(), amount: self.amount }
    }
}

/// The serialised form of a batch of transfers, as produced by serde_json.
pub uninterp spec fn json_of(rows: Seq<(Seq<char>, Seq<char>, int)>) -> Seq<u8>;

/// The SHA-256 digest of `data`.
pub uninterp spec fn sha256_of(data: Seq<u8>) -> Seq<u8>;

/// The rows of a batch of transfers, in order.
pub open spec fn rows_of(txs: Seq<Transfer>) -> Seq<(Seq<char>, Seq<char>, int)> {
    txs.map_values(|t: Transfer| t.row())
}

/// The plain values held by a vector of serialisable tuples.
pub open spec fn row_view(rows: Seq<(String, String, i64)>) -> Seq<(Seq<char>, Seq<char>, int)> {
    rows.map_values(|r: (String, String, i64)| (r.0@, r.1@, r.2 as int))
}

/// Relies on serde_json::to_vec on a vector of (String, String, i64) tuples: the
/// JSON text of the rows. Serialising strings and integers into a vector never
/// fails (serde_json fails only on a map with non-string keys or a failing
/// Serialize impl), so the error arm is never taken.
#[verifier::external_body]
fn rows_json(rows: &Vec<(String, String, i64)>) -> (r: Vec<u8>)
    ensures
        r@ == json_of(row_view(rows@)),
{
    serde_json::to_vec(rows).unwrap_or_default()
}

/// Relies on sha2::Sha256::digest: the SHA-256 digest of the bytes, whose output
/// type fixes its size at 32 bytes.
#[verifier::external_body]
fn sha256(data: &[u8]) -> (r: Vec<u8>)
    ensures
        r@ == sha256_of(data@),
        r@.len() == 32,
{
    sha2::Sha256::digest(data).to_vec()
}

/// The bytes that are hashed: index, timestamp, serialised transfers, previous
/// hash and nonce, concatenated in that order.
pub open spec fn hash_input(
    index: u32,
    timestamp: u64,
    txs: Seq<Transfer>,
    previous_hash: Seq<char>,
    nonce: u64,
) -> Seq<u8> {
    decimal(index as nat) + decimal(timestamp as nat) + json_of(rows_of(txs)) + encode_utf8(
        previous_hash,
    ) + decimal(nonce as nat)
}

/// The hex-encoded SHA-256 digest of the hash input.
pub open spec fn block_hash(
    index: u32,
    timestamp: u64,
    txs: Seq<Transfer>,
    previous_hash: Seq<char>,
    nonce: u64,
) -> Seq<char> {
    hex_lower(sha256_of(hash_input(index, timestamp, txs, previous_hash, nonce)))
}

/// The leading hex digits that every sealed block's hash carries.
pub open spec fn difficulty_prefix() -> Seq<char> {
    seq!['0', '0']
}

pub open spec fn meets_difficulty(hash: Seq<char>) -> bool {
    difficulty_prefix().is_prefix_of(hash)
}

/// No 64-bit nonce gives these fields a hash that meets the difficulty.
pub open spec fn unsealable(index: u32, timestamp: u64, txs: Seq<Transfer>, previous_hash: Seq<char>) -> bool {
    forall|n: u64| !meets_difficulty(#[trigger] block_hash(index, timestamp, txs, previous_hash, n))
}

/// Why a block could not be sealed.
#[derive(Debug, PartialEq, Eq, Structural)]
pub enum SealError {
    /// Every nonce of the 64-bit range was tried and none gave a hash with the
    /// difficulty prefix.
    MiningTimeout,
}

/// A sealed batch of transfers with the metadata that links it into a chain.
#[derive(Clone, Debug)]
pub struct Block {
    pub index: u32,
    pub timestamp: u64,
    pub transactions: Vec<Transfer>,
    pub previous_hash: String,
    pub hash: String,
    pub nonce: u64,
}

/// Copies `txs` into the tuples that are serialised.
fn rows_from(txs: &Vec<Transfer>) -> (r: Vec<(String, String, i64)>)
    ensures
        row_view(r@) == rows_of(txs@),
{
    let mut r: Vec<(String, String, i64)> = Vec::new();
    let mut i: usize = 0;
    while i < txs.len()
        invariant
            i <= txs@.len(),
            row_view(r@) =~= rows_of(txs@.subrange(0, i as int)),
        decreases txs@.len() - i,
    {
        let t = &txs[i];
        let sender = t.sender.clone();
        let receiver = t.receiver.clone();
        let ghost before = r@;
        r.push((sender, receiver, t.amount));
        assert(r@ == before.push((sender, receiver, t.amount)));
        proof {
            let prev = txs@.subrange(0, i as int);
            let next = txs@.subrange(0, i + 1);
            assert(row_view(before).len() == before.len());
            assert(rows_of(prev).len() == i);
            assert forall|k: int| 0 <= k < i + 1 implies row_view(r@)[k] == rows_of(next)[k] by {
                if k < i {
                    assert(row_view(before)[k] == rows_of(prev)[k]);
                    assert(next[k] == prev[k]);
                }
            }
            assert(row_view(r@) =~= rows_of(next));
        }
        i = i + 1;
    }
    assert(txs@.subrange(0, i as int) =~= txs@);
    r
}

/// The part of the hash input that does not depend on the nonce.
fn input_head(index: u32, timestamp: u64, txs: &Vec<Transfer>, previous_hash: &String) -> (r: Vec<u8>)
    ensures
        forall|n: u64| #[trigger] hash_input(index, timestamp, txs@, previous_hash@, n) == r@ + decimal(n as nat),
{
    let mut r: Vec<u8> = Vec::new();
    push_decimal(&mut r, index as u64);
    push_decimal(&mut r, timestamp);
    let rows = rows_from(txs);
    let json = rows_json(&rows);
    push_bytes(&mut r, json.as_slice());
    push_bytes(&mut r, previous_hash.as_str().as_bytes());
    assert(r@ =~= decimal(index as nat) + decimal(timestamp as nat) + json_of(rows_of(txs@)) + encode_utf8(previous_hash@));
    r
}

/// The hash of the given fields, computed from the head of the input and a nonce.
fn hash_with_nonce(head: &Vec<u8>, nonce: u64) -> (r: String)
    ensures
        r@ == hex_lower(sha256_of(head@ + decimal(nonce as nat))),
        sha256_of(head@ + decimal(nonce as nat)).len() == 32,
{
    let mut input: Vec<u8> = Vec::new();
    push_bytes(&mut input, head.as_slice());
    push_decimal(&mut input, nonce);
    let digest = sha256(input.as_slice());
    hex_encode(digest.as_slice())
}

/// Whether a hex hash carries the difficulty prefix.
pub fn hash_meets_difficulty(hash: &String) -> (r: bool)
    ensures
        r == meets_difficulty(hash@),
{
    proof {
        reveal_strlit("00");
    }
    let ok = starts_with(hash.as_str(), "00");
    assert("00"@ =~= difficulty_prefix());
    ok
}

impl Block {
    /// The hash that the block's stored fields determine.
    pub open spec fn expected_hash(&self) -> Seq<char> {
        block_hash(self.index, self.timestamp, self.transactions@, self.previous_hash@, self.nonce)
    }

    /// The stored hash is the one its fields determine, and it meets the difficulty.
    pub open spec fn is_sealed(&self) -> bool {
        self.hash@ == self.expected_hash() && meets_difficulty(self.hash@)
    }

    /// Recomputes the hash from the block's stored fields.
    pub fn calculate_hash(&self) -> (r: String)
        ensures
            r@ == self.expected_hash(),
            r@.len() == 64,
            forall|k: int| 0 <= k < r@.len() ==> is_hex_char(#[trigger] r@[k]),
    {
        let head = input_head(self.index, self.timestamp, &self.transactions, &self.previous_hash);
        let r = hash_with_nonce(&head, self.nonce);
        proof {
            let digest = sha256_of(head@ + decimal(self.nonce as nat));
            lemma_hex_lower_shape(digest);
        }
        r
    }

    /// Seals `transactions` at the given timestamp (milliseconds since the Unix
    /// epoch): the nonce is the least one, counting up from zero, whose hash meets
    /// the difficulty. Fails only where no 64-bit nonce does.
    pub fn new(index: u32, transactions: Vec<Transfer>, previous_hash: String, timestamp: u64) -> (r:
        Result<Block, SealError>)
        ensures
            match r {
                Ok(b) => {
                    &&& b.index == index
                    &&& b.timestamp == timestamp
                    &&& b.transactions@ == transactions@
                    &&& b.previous_hash@ == previous_hash@
                    &&& b.is_sealed()
                    &&& forall|n: u64|
                        n < b.nonce ==> !meets_difficulty(
                            #[trigger] block_hash(index, timestamp, transactions@, previous_hash@, n),
                        )
                },
                Err(e) => {
                    &&& e == SealError::MiningTimeout
                    &&& unsealable(index, timestamp, transactions@, previous_hash@)
                },
            },
    {
        let head = input_head(index, timestamp, &transactions, &previous_hash);
        let mut nonce: u64 = 0;
        loop
            invariant
                forall|n: u64| #[trigger]
                    hash_input(index, timestamp, transactions@, previous_hash@, n) == head@ + decimal(
                        n as nat,
                    ),
                forall|n: u64|
                    n < nonce ==> !meets_difficulty(
                        #[trigger] block_hash(index, timestamp, transactions@, previous_hash@, n),
                    ),
            decreases u64::MAX - nonce,
        {
            let hash = hash_with_nonce(&head, nonce);
            assert(hash_input(index, timestamp, transactions@, previous_hash@, nonce) == head@ + decimal(nonce as nat));
            if hash_meets_difficulty(&hash) {
                return Ok(Block { index, timestamp, transactions, previous_hash, hash, nonce });
            }
            if nonce == u64::MAX {
                return Err(SealError::MiningTimeout);
            }
            nonce = nonce + 1;
        }
    }
}

} // verus!
