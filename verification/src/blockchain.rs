//! The chain: blocks in order, each bound to the one before it.

use vstd::prelude::*;
use vstd::string::*;
use vstd::utf8::{encode_utf8, is_ascii_chars_encode_utf8};
use crate::block::{
    attempt_text, block_text, lemma_stamped_text_digestible, minable, stampable, Block, BlockView,
};
use crate::clock::{local_timestamp, timestamp_shaped};
use crate::hashing::{
    decimal, digestible, lemma_decimal_bytes, lemma_hex_lower_bytes, sha256, DIGEST_INPUT_LIMIT,
};

verus! {

/// Contains the blocks of one chain, the difficulty they are mined at, and a
/// log of their hashes.
#[derive(Debug)]
pub struct Blockchain {
    /// All blocks stored in this chain, the genesis block first.
    pub chain: Vec<Block>,
    /// The number of leading zeros that every block hash must have.
    pub difficulty: usize,
    /// The hash of each block, in the order in which the blocks were added.
    pub transactions: Vec<String>,
}

/// A chain as its contracts see it.
pub struct ChainView {
    /// The blocks, the genesis block first.
    pub blocks: Seq<BlockView>,
    /// The number of leading zeros that every block hash must have.
    pub difficulty: nat,
    /// The logged hashes, in the order in which the blocks were added.
    pub hash_log: Seq<Seq<char>>,
}

impl View for Blockchain {
    type V = ChainView;

    open spec fn view(&self) -> ChainView {
        ChainView {
            blocks: Seq::new(self.chain@.len(), |i: int| self.chain@[i]@),
            difficulty: self.difficulty as nat,
            hash_log: Seq::new(self.transactions@.len(), |i: int| self.transactions@[i]@),
        }
    }
}

/// The previous hash of a genesis block: 64 characters `'0'`.
pub open spec fn zero_hash() -> Seq<char> {
    Seq::new(64, |i: int| '0')
}

/// The payload of a genesis block.
pub open spec fn genesis_payload() -> Seq<char> {
    "Genesis Block"@
}

/// The bytes that a block takes besides its payload, at most: 20 for the
/// index, 64 for the previous hash, 26 for the timestamp and 1 for the nonce
/// 0.
pub const BLOCK_OVERHEAD_BYTES: u64 = 111;

/// The payload leaves room, in what the digest accepts, for the other fields
/// of a block.
pub open spec fn short_payload(data: Seq<char>) -> bool {
    encode_utf8(data).len() + BLOCK_OVERHEAD_BYTES < DIGEST_INPUT_LIMIT
}

/// The text of the genesis block created at `timestamp`.
pub open spec fn genesis_text(timestamp: Seq<char>) -> Seq<char> {
    block_text(0, genesis_payload(), timestamp, zero_hash())
}

impl ChainView {
    /// Block `i` names its predecessor: the genesis block names the zero
    /// hash, every other block the hash stored in the block before it.
    pub open spec fn linked(self, i: int) -> bool {
        if i == 0 {
            self.blocks[0].previous_hash == zero_hash()
        } else {
            self.blocks[i].previous_hash == self.blocks[i - 1].block_hash
        }
    }

    /// The validity of the chain as a reader can check it from the stored
    /// fields alone: every block is sealed at the chain's difficulty and
    /// names its predecessor.
    pub open spec fn valid(self) -> bool {
        forall|i: int|
            0 <= i < self.blocks.len() ==> (#[trigger] self.blocks[i]).sealed(self.difficulty)
                && self.linked(i)
    }

    /// What holds of every chain that was created and then only added to:
    /// there is a genesis block, block `i` has index `i`, is mined at the
    /// chain's difficulty and names its predecessor, and the log holds the
    /// hash of each block.
    pub open spec fn wf(self) -> bool {
        &&& self.blocks.len() >= 1
        &&& self.hash_log.len() == self.blocks.len()
        &&& forall|i: int|
            0 <= i < self.blocks.len() ==> {
                &&& (#[trigger] self.blocks[i]).index == i
                &&& self.blocks[i].mined(self.difficulty)
                &&& self.linked(i)
                &&& self.hash_log[i] == self.blocks[i].block_hash
            }
    }

    /// The chain holds a mined genesis block and nothing else.
    pub open spec fn fresh(self, difficulty: nat) -> bool {
        &&& self.difficulty == difficulty
        &&& self.blocks.len() == 1
        &&& self.blocks[0].index == 0
        &&& self.blocks[0].data == genesis_payload()
        &&& self.blocks[0].previous_hash == zero_hash()
        &&& self.blocks[0].mined(difficulty)
        &&& self.hash_log == seq![self.blocks[0].block_hash]
    }

    /// The chain is `before` with one more block: the block carries `data`,
    /// the next index and the hash of the tail of `before`, and is mined at
    /// the chain's difficulty; the log has grown by its hash.
    pub open spec fn extends(self, before: ChainView, data: Seq<char>) -> bool {
        &&& before.blocks.len() >= 1
        &&& self.difficulty == before.difficulty
        &&& self.blocks == before.blocks.push(self.blocks.last())
        &&& self.hash_log == before.hash_log.push(self.blocks.last().block_hash)
        &&& self.blocks.last().index == before.blocks.len()
        &&& self.blocks.last().data == data
        &&& self.blocks.last().previous_hash == before.blocks.last().block_hash
        &&& self.blocks.last().mined(self.difficulty)
    }

    /// The text of the block that would follow the tail of this chain.
    pub open spec fn next_text(self, data: Seq<char>, timestamp: Seq<char>) -> Seq<char> {
        block_text(self.blocks.len(), data, timestamp, self.blocks.last().block_hash)
    }
}

/// The 64 zeros that a genesis block names as its previous hash.
fn zero_hash_str() -> (zeros: &'static str)
    ensures
        zeros@ == zero_hash(),
{
    proof {
        reveal_strlit("0000000000000000000000000000000000000000000000000000000000000000");
    }
    let zeros = "0000000000000000000000000000000000000000000000000000000000000000";
    assert(zeros@ =~= zero_hash());
    zeros
}

impl Blockchain {
    /// Initialize a new chain whose genesis block is stamped `timestamp`.
    /// `None` when no counter value seals the genesis block.
    pub fn new_at(difficulty: usize, timestamp: &str) -> (created: Option<Blockchain>)
        ensures
            created is Some == minable(genesis_text(timestamp@), difficulty as nat),
            created is Some ==> {
                let blockchain = created->Some_0@;
                &&& blockchain.fresh(difficulty as nat)
                &&& blockchain.blocks[0].timestamp == timestamp@
                &&& difficulty == 0 ==> blockchain.blocks[0].nonce == 0
                &&& blockchain.wf()
                &&& blockchain.valid()
            },
            difficulty == 0 && digestible(attempt_text(genesis_text(timestamp@), 0))
                ==> created is Some,
    {
        match Block::mine(0, "Genesis Block", timestamp, zero_hash_str(), difficulty) {
            Some(genesis) => {
                let genesis_hash = genesis.block_hash.clone();
                let mut chain: Vec<Block> = Vec::new();
                chain.push(genesis);
                let mut transactions: Vec<String> = Vec::new();
                transactions.push(genesis_hash);
                let blockchain = Blockchain { chain, difficulty, transactions };
                proof {
                    assert(blockchain@.hash_log =~= seq![blockchain@.blocks[0].block_hash]);
                    lemma_fresh_well_formed(blockchain@, difficulty as nat);
                }
                Some(blockchain)
            },
            None => None,
        }
    }

    /// Initialize a new chain: create and mine its genesis block, stamped
    /// with the current local time. `None` when no counter value seals the
    /// genesis block; at difficulty 0 the first one does, at a higher
    /// difficulty it depends on the time, and `new_at` says when.
    pub fn new(difficulty: usize) -> (created: Option<Blockchain>)
        ensures
            created is Some ==> {
                let blockchain = created->Some_0@;
                &&& blockchain.fresh(difficulty as nat)
                &&& timestamp_shaped(blockchain.blocks[0].timestamp)
                &&& difficulty == 0 ==> blockchain.blocks[0].nonce == 0
                &&& blockchain.wf()
                &&& blockchain.valid()
            },
            difficulty == 0 ==> created is Some,
    {
        let timestamp = local_timestamp();
        proof {
            lemma_genesis_stampable();
            lemma_stamped_text_digestible(0, genesis_payload(), timestamp@, zero_hash());
        }
        Blockchain::new_at(difficulty, timestamp.as_str())
    }

    /// Add a new block that carries `data` and is stamped `timestamp`.
    /// Returns `false`, and leaves the chain as it was, when no counter value
    /// seals the block.
    pub fn add_transaction_at(&mut self, data: String, timestamp: &str) -> (added: bool)
        requires
            old(self).chain@.len() >= 1,
        ensures
            added == minable(old(self)@.next_text(data@, timestamp@), old(self)@.difficulty),
            added ==> final(self)@.extends(old(self)@, data@),
            added ==> final(self)@.blocks.last().timestamp == timestamp@,
            added && old(self)@.difficulty == 0 ==> final(self)@.blocks.last().nonce == 0,
            old(self)@.difficulty == 0 && digestible(
                attempt_text(old(self)@.next_text(data@, timestamp@), 0),
            ) ==> added,
            added && old(self)@.wf() ==> final(self)@.wf(),
            added && old(self)@.valid() ==> final(self)@.valid(),
            !added ==> *final(self) == *old(self),
    {
        let index = self.chain.len();
        let last_block = &self.chain[index - 1];
        let mined = Block::mine(
            index,
            data.as_str(),
            timestamp,
            last_block.block_hash.as_str(),
            self.difficulty,
        );
        match mined {
            Some(new_block) => {
                let ghost added_block = new_block@;
                self.transactions.push(new_block.block_hash.clone());
                self.chain.push(new_block);
                proof {
                    assert(self@.blocks =~= old(self)@.blocks.push(added_block));
                    assert(self@.hash_log =~= old(self)@.hash_log.push(added_block.block_hash));
                    if old(self)@.wf() {
                        lemma_extension_well_formed(old(self)@, self@, data@);
                    }
                    if old(self)@.valid() {
                        lemma_extension_valid(old(self)@, self@, data@);
                    }
                }
                true
            },
            None => false,
        }
    }

    /// Add a new block that carries `data`, stamped with the current local
    /// time. Returns `false`, and leaves the chain as it was, when no counter
    /// value seals the block; at difficulty 0 the first one does where the
    /// text is short enough to digest, at a higher difficulty it depends on
    /// the time, and `add_transaction_at` says when.
    pub fn add_transaction(&mut self, data: String) -> (added: bool)
        requires
            old(self).chain@.len() >= 1,
        ensures
            added ==> final(self)@.extends(old(self)@, data@),
            added ==> timestamp_shaped(final(self)@.blocks.last().timestamp),
            added && old(self)@.difficulty == 0 ==> final(self)@.blocks.last().nonce == 0,
            old(self)@.difficulty == 0 && stampable(
                old(self)@.blocks.len(),
                data@,
                old(self)@.blocks.last().block_hash,
            ) ==> added,
            old(self)@.difficulty == 0 && old(self)@.wf() && short_payload(data@) ==> added,
            added && old(self)@.wf() ==> final(self)@.wf(),
            added && old(self)@.valid() ==> final(self)@.valid(),
            !added ==> *final(self) == *old(self),
    {
        let timestamp = local_timestamp();
        proof {
            if self@.wf() && short_payload(data@) {
                assert(self@.blocks.len() == self.chain.len());
                lemma_next_block_stampable(self@, data@);
            }
            if stampable(self@.blocks.len(), data@, self@.blocks.last().block_hash) {
                lemma_stamped_text_digestible(
                    self@.blocks.len(),
                    data@,
                    timestamp@,
                    self@.blocks.last().block_hash,
                );
            }
        }
        self.add_transaction_at(data, timestamp.as_str())
    }

    /// Check the chain from its stored fields: every block's hash is the
    /// hash of its own fields and nonce and begins with enough zeros, the
    /// genesis block names the zero hash, and every other block names the
    /// hash of the block before it.
    pub fn is_valid(&self) -> (ok: bool)
        ensures
            ok == self@.valid(),
    {
        let zeros = String::from_str(zero_hash_str());
        let mut i: usize = 0;
        while i < self.chain.len()
            invariant
                i <= self.chain@.len(),
                zeros@ == zero_hash(),
                forall|j: int|
                    0 <= j < i ==> (#[trigger] self@.blocks[j]).sealed(self@.difficulty)
                        && self@.linked(j),
            decreases self.chain@.len() - i,
        {
            let block = &self.chain[i];
            if !block.is_sealed(self.difficulty) {
                assert(!self@.blocks[i as int].sealed(self@.difficulty));
                return false;
            }
            if i == 0 {
                if block.previous_hash != zeros {
                    assert(self@.blocks[0].sealed(self@.difficulty) && !self@.linked(0));
                    return false;
                }
            } else {
                if block.previous_hash != self.chain[i - 1].block_hash {
                    assert(self@.blocks[i as int].sealed(self@.difficulty) && !self@.linked(
                        i as int,
                    ));
                    return false;
                }
            }
            i += 1;
        }
        true
    }
}

/// The fields of a genesis block leave room for any timestamp.
pub proof fn lemma_genesis_stampable()
    ensures
        stampable(0, genesis_payload(), zero_hash()),
{
    reveal_strlit("Genesis Block");
    assert(decimal(0) =~= seq!['0']);
    is_ascii_chars_encode_utf8(decimal(0));
    is_ascii_chars_encode_utf8(genesis_payload());
    is_ascii_chars_encode_utf8(zero_hash());
}

/// On a well-formed chain of a length that the machine can hold, a short
/// payload makes a block that can be digested at its first attempt whatever
/// timestamp it gets.
pub proof fn lemma_next_block_stampable(chain: ChainView, data: Seq<char>)
    requires
        chain.wf(),
        chain.blocks.len() <= usize::MAX,
        short_payload(data),
    ensures
        stampable(chain.blocks.len(), data, chain.blocks.last().block_hash),
{
    let tail = chain.blocks.last();
    assert(tail.mined(chain.difficulty));
    lemma_decimal_bytes(chain.blocks.len());
    lemma_hex_lower_bytes(sha256(encode_utf8(attempt_text(tail.text(), tail.nonce))));
}

/// A chain that holds a mined genesis block and nothing else is well formed,
/// and the validity check accepts it.
pub proof fn lemma_fresh_well_formed(chain: ChainView, difficulty: nat)
    requires
        chain.fresh(difficulty),
    ensures
        chain.wf(),
        chain.valid(),
{
}

/// Adding a block to a well-formed chain gives a well-formed chain.
pub proof fn lemma_extension_well_formed(before: ChainView, after: ChainView, data: Seq<char>)
    requires
        before.wf(),
        after.extends(before, data),
    ensures
        after.wf(),
{
    let n = before.blocks.len() as int;
    assert forall|i: int| 0 <= i < after.blocks.len() implies {
        &&& (#[trigger] after.blocks[i]).index == i
        &&& after.blocks[i].mined(after.difficulty)
        &&& after.linked(i)
        &&& after.hash_log[i] == after.blocks[i].block_hash
    } by {
        if i < n {
            assert(after.blocks[i] == before.blocks[i]);
            assert(before.linked(i));
            if i > 0 {
                assert(after.blocks[i - 1] == before.blocks[i - 1]);
            }
        } else {
            assert(after.blocks[n - 1] == before.blocks[n - 1]);
        }
    }
}

/// Adding a block to a chain that the validity check accepts gives a chain
/// that it accepts.
pub proof fn lemma_extension_valid(before: ChainView, after: ChainView, data: Seq<char>)
    requires
        before.valid(),
        after.extends(before, data),
    ensures
        after.valid(),
{
    let n = before.blocks.len() as int;
    assert forall|i: int| 0 <= i < after.blocks.len() implies (#[trigger] after.blocks[i]).sealed(
        after.difficulty,
    ) && after.linked(i) by {
        if i < n {
            assert(after.blocks[i] == before.blocks[i]);
            assert(before.blocks[i].sealed(before.difficulty));
            assert(before.linked(i));
            if i > 0 {
                assert(after.blocks[i - 1] == before.blocks[i - 1]);
            }
        } else {
            assert(after.blocks[n - 1] == before.blocks[n - 1]);
        }
    }
}

/// The validity check accepts every well-formed chain.
pub proof fn lemma_well_formed_is_valid(chain: ChainView)
    requires
        chain.wf(),
    ensures
        chain.valid(),
{
}

/// On a fresh chain, one added block makes two blocks; the second has index
/// 1 and names the hash of the genesis block, which names the zero hash.
pub proof fn lemma_first_extension(
    fresh: ChainView,
    after: ChainView,
    difficulty: nat,
    data: Seq<char>,
)
    requires
        fresh.fresh(difficulty),
        after.extends(fresh, data),
    ensures
        after.blocks.len() == 2,
        after.hash_log.len() == 2,
        after.blocks[1].index == 1,
        after.blocks[1].data == data,
        after.blocks[1].previous_hash == after.blocks[0].block_hash,
        after.blocks[0].previous_hash == zero_hash(),
{
    assert(after.blocks[0] == fresh.blocks[0]);
}

/// The validity check rejects a chain in which the stored previous hash of
/// one block was changed: a valid chain in which block `i` gets another
/// previous hash, and nothing else changes, is not valid.
pub proof fn lemma_tampered_previous_hash_invalid(
    intact: ChainView,
    i: int,
    previous_hash: Seq<char>,
)
    requires
        intact.valid(),
        0 <= i < intact.blocks.len(),
        previous_hash != intact.blocks[i].previous_hash,
    ensures
        !(ChainView {
            blocks: intact.blocks.update(
                i,
                BlockView { previous_hash, ..intact.blocks[i] },
            ),
            ..intact
        }).valid(),
{
    let tampered = ChainView {
        blocks: intact.blocks.update(i, BlockView { previous_hash, ..intact.blocks[i] }),
        ..intact
    };
    assert(intact.blocks[i].sealed(intact.difficulty));
    assert(intact.linked(i));
    if tampered.valid() {
        assert(tampered.blocks[i].sealed(tampered.difficulty));
        assert(tampered.linked(i));
        if i > 0 {
            assert(tampered.blocks[i - 1] == intact.blocks[i - 1]);
        }
    }
}

} // verus!
