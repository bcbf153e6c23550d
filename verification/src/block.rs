//! A single block and the search that seals it.

use vstd::prelude::*;
use vstd::string::*;
use vstd::utf8::{encode_utf8, is_ascii_chars_encode_utf8};
use crate::clock::{local_timestamp, timestamp_shaped, TIMESTAMP_CHARS_MAX};
use crate::hashing::{
    decimal, decimal_string, digestible, has_zero_prefix, hash_text, hex_lower_string,
    is_digestible, lemma_encode_utf8_concat, sha256_bytes, DIGEST_INPUT_LIMIT, HASH_CHARS,
};

verus! {

/// One record of the chain.
///
/// A block is sealed when `block_hash` is the hash of its own fields followed
/// by its nonce, and that hash begins with enough zeros.
#[derive(Debug)]
pub struct Block {
    /// The hash value of this block.
    pub block_hash: String,
    /// The payload, kept as text and never interpreted.
    pub data: String,
    /// The block's position within the chain; 0 is the genesis block.
    pub index: usize,
    /// The counter value that sealed the block.
    pub nonce: usize,
    /// The hash of the block before this one.
    pub previous_hash: String,
    /// When the block was created, as `MM-DD-YYYY HH:MM:SS`.
    pub timestamp: String,
}

/// A block as its contracts see it: the numbers as they are, each text as
/// its sequence of characters.
pub struct BlockView {
    /// The hash value of the block.
    pub block_hash: Seq<char>,
    /// The payload.
    pub data: Seq<char>,
    /// The block's position within the chain.
    pub index: nat,
    /// The counter value that sealed the block.
    pub nonce: nat,
    /// The hash of the block before this one.
    pub previous_hash: Seq<char>,
    /// When the block was created.
    pub timestamp: Seq<char>,
}

impl View for Block {
    type V = BlockView;

    open spec fn view(&self) -> BlockView {
        BlockView {
            block_hash: self.block_hash@,
            data: self.data@,
            index: self.index as nat,
            nonce: self.nonce as nat,
            previous_hash: self.previous_hash@,
            timestamp: self.timestamp@,
        }
    }
}

/// The text of a block's own fields: the decimal index, then the payload, the
/// timestamp and the previous hash.
pub open spec fn block_text(
    index: nat,
    data: Seq<char>,
    timestamp: Seq<char>,
    previous_hash: Seq<char>,
) -> Seq<char> {
    decimal(index) + data + timestamp + previous_hash
}

/// The label of the block at `index`: the word `BLOCK`, a space and the
/// decimal index.
pub open spec fn label_text(index: nat) -> Seq<char> {
    "BLOCK "@ + decimal(index)
}

/// The title of the block at `index`: `GENESIS BLOCK` for the first block,
/// its label for any other.
pub open spec fn title_text(index: nat) -> Seq<char> {
    if index == 0 {
        "GENESIS BLOCK"@
    } else {
        label_text(index)
    }
}

/// The label of the block at `index`, such as `BLOCK 3`.
pub fn block_label(index: usize) -> (label: String)
    ensures
        label@ == label_text(index as nat),
{
    let mut label = String::from_str("BLOCK ");
    let digits = decimal_string(index);
    label.append(digits.as_str());
    label
}

/// The text that is digested when `nonce` is tried on a block whose own text
/// is `base`.
pub open spec fn attempt_text(base: Seq<char>, nonce: nat) -> Seq<char> {
    base + decimal(nonce)
}

/// Trying `nonce` succeeds: the text can be digested and its hash begins
/// with `difficulty` zeros.
pub open spec fn attempt_wins(base: Seq<char>, difficulty: nat, nonce: nat) -> bool {
    &&& digestible(attempt_text(base, nonce))
    &&& has_zero_prefix(hash_text(attempt_text(base, nonce)), difficulty)
}

/// Trying `nonce` fails and the search goes on: the text can be digested and
/// its hash does not begin with `difficulty` zeros.
pub open spec fn attempt_fails(base: Seq<char>, difficulty: nat, nonce: nat) -> bool {
    &&& digestible(attempt_text(base, nonce))
    &&& !has_zero_prefix(hash_text(attempt_text(base, nonce)), difficulty)
}

/// `nonce` is where the search from 0 upward stops with success: it wins, and
/// every smaller counter value fails.
pub open spec fn first_win(base: Seq<char>, difficulty: nat, nonce: nat) -> bool {
    &&& attempt_wins(base, difficulty, nonce)
    &&& forall|m: nat| m < nonce ==> attempt_fails(base, difficulty, m)
}

/// A block with these fields can be digested at its first attempt whatever
/// timestamp it gets: the bytes of its index, payload and previous hash
/// leave room for the longest timestamp and for the nonce 0.
pub open spec fn stampable(index: nat, data: Seq<char>, previous_hash: Seq<char>) -> bool {
    encode_utf8(decimal(index)).len() + encode_utf8(data).len() + encode_utf8(
        previous_hash,
    ).len() + TIMESTAMP_CHARS_MAX + 1 < DIGEST_INPUT_LIMIT
}

/// The search from 0 upward succeeds at some counter value that the machine
/// can hold.
pub open spec fn minable(base: Seq<char>, difficulty: nat) -> bool {
    exists|n: nat| n <= usize::MAX && first_win(base, difficulty, n)
}

impl BlockView {
    /// The text of this block's own fields, without the nonce.
    pub open spec fn text(self) -> Seq<char> {
        block_text(self.index, self.data, self.timestamp, self.previous_hash)
    }

    /// The block's hash is the hash of its text followed by its nonce, and
    /// begins with `difficulty` zeros.
    pub open spec fn sealed(self, difficulty: nat) -> bool {
        &&& attempt_wins(self.text(), difficulty, self.nonce)
        &&& self.block_hash == hash_text(attempt_text(self.text(), self.nonce))
    }

    /// The block is sealed with the smallest nonce that seals it, and its
    /// hash has 64 characters.
    pub open spec fn mined(self, difficulty: nat) -> bool {
        &&& self.sealed(difficulty)
        &&& first_win(self.text(), difficulty, self.nonce)
        &&& self.block_hash.len() == HASH_CHARS
    }

    /// The block holds the given fields; its nonce and hash are left open.
    pub open spec fn carries(
        self,
        index: nat,
        data: Seq<char>,
        timestamp: Seq<char>,
        previous_hash: Seq<char>,
    ) -> bool {
        &&& self.index == index
        &&& self.data == data
        &&& self.timestamp == timestamp
        &&& self.previous_hash == previous_hash
    }
}

impl Block {
    /// The title under which the block is shown.
    pub fn title(&self) -> (title: String)
        ensures
            title@ == title_text(self@.index),
    {
        if self.index == 0 {
            String::from_str("GENESIS BLOCK")
        } else {
            block_label(self.index)
        }
    }

    /// Check if the hash is valid based on the difficulty value: whether its
    /// first `difficulty` characters are all `'0'`.
    pub fn is_valid_hash(&self, difficulty: usize, hash: &str) -> (valid: bool)
        ensures
            valid == has_zero_prefix(hash@, difficulty as nat),
    {
        let len = hash.unicode_len();
        if len < difficulty {
            return false;
        }
        let mut i: usize = 0;
        while i < difficulty
            invariant
                i <= difficulty <= len,
                len == hash@.len(),
                forall|j: int| 0 <= j < i ==> hash@[j] == '0',
            decreases difficulty - i,
        {
            if hash.get_char(i) != '0' {
                return false;
            }
            i += 1;
        }
        true
    }

    /// Get the concatenated string containing the block's own fields.
    pub fn get_hash_string(&self) -> (text: String)
        ensures
            text@ == self@.text(),
    {
        let mut text = decimal_string(self.index);
        text.append(self.data.as_str());
        text.append(self.timestamp.as_str());
        text.append(self.previous_hash.as_str());
        text
    }

    /// Calculate the SHA-256 hash value of a text, in lowercase hexadecimal.
    pub fn get_hash(hash_string: &str) -> (hash: String)
        requires
            digestible(hash_string@),
        ensures
            hash@ == hash_text(hash_string@),
            hash@.len() == HASH_CHARS,
    {
        let digest = sha256_bytes(hash_string.as_bytes());
        hex_lower_string(digest.as_slice())
    }

    /// Whether the block's hash is the hash of its text followed by its
    /// nonce and begins with `difficulty` zeros.
    pub fn is_sealed(&self, difficulty: usize) -> (ok: bool)
        ensures
            ok == self@.sealed(difficulty as nat),
    {
        let mut attempt = self.get_hash_string();
        let digits = decimal_string(self.nonce);
        attempt.append(digits.as_str());
        if !is_digestible(attempt.as_str()) {
            return false;
        }
        let hash = Block::get_hash(attempt.as_str());
        hash == self.block_hash && self.is_valid_hash(difficulty, hash.as_str())
    }

    /// Generate the proof of work to mine the block: try the counter values
    /// from 0 upward and keep the first whose hash is valid.
    ///
    /// Returns `false`, and leaves the block as it was, when no counter value
    /// seals it: none that the machine can hold wins, or the text grows too
    /// long for the digest before one does.
    pub fn mine_block(&mut self, difficulty: usize) -> (found: bool)
        ensures
            found == minable(old(self)@.text(), difficulty as nat),
            found ==> final(self)@.mined(difficulty as nat),
            found ==> has_zero_prefix(final(self)@.block_hash, difficulty as nat),
            found && difficulty == 0 ==> final(self)@.nonce == 0,
            difficulty == 0 && digestible(attempt_text(old(self)@.text(), 0)) ==> found,
            !found ==> *final(self) == *old(self),
            final(self)@.carries(
                old(self)@.index,
                old(self)@.data,
                old(self)@.timestamp,
                old(self)@.previous_hash,
            ),
    {
        let base = self.get_hash_string();
        let mut nonce: usize = 0;
        loop
            invariant
                *self == *old(self),
                base@ == self@.text(),
                forall|m: nat| m < nonce ==> attempt_fails(base@, difficulty as nat, m),
                difficulty == 0 ==> nonce == 0,
            decreases usize::MAX - nonce,
        {
            let mut attempt = base.clone();
            let digits = decimal_string(nonce);
            attempt.append(digits.as_str());
            if !is_digestible(attempt.as_str()) {
                proof {
                    lemma_search_stuck(base@, difficulty as nat, nonce as nat);
                }
                return false;
            }
            let hash = Block::get_hash(attempt.as_str());
            if self.is_valid_hash(difficulty, hash.as_str()) {
                self.block_hash = hash;
                self.nonce = nonce;
                assert(first_win(base@, difficulty as nat, nonce as nat));
                return true;
            }
            if nonce == usize::MAX {
                proof {
                    lemma_search_empty(base@, difficulty as nat);
                }
                return false;
            }
            nonce += 1;
        }
    }

    /// Build the block with the given fields and mine it. `None` when no
    /// counter value seals it.
    pub fn mine(
        index: usize,
        data: &str,
        timestamp: &str,
        previous_hash: &str,
        difficulty: usize,
    ) -> (mined: Option<Block>)
        ensures
            mined is Some == minable(
                block_text(index as nat, data@, timestamp@, previous_hash@),
                difficulty as nat,
            ),
            mined is Some ==> {
                let block = mined->Some_0@;
                &&& block.carries(index as nat, data@, timestamp@, previous_hash@)
                &&& block.mined(difficulty as nat)
                &&& has_zero_prefix(block.block_hash, difficulty as nat)
                &&& difficulty == 0 ==> block.nonce == 0
            },
            difficulty == 0 && digestible(
                attempt_text(block_text(index as nat, data@, timestamp@, previous_hash@), 0),
            ) ==> mined is Some,
    {
        let mut block = Block {
            index,
            block_hash: String::new(),
            data: String::from_str(data),
            timestamp: String::from_str(timestamp),
            previous_hash: String::from_str(previous_hash),
            nonce: 0,
        };
        if block.mine_block(difficulty) {
            Some(block)
        } else {
            None
        }
    }

    /// Initialize a new block, stamped with the current local time, and mine
    /// it. `None` when no counter value seals it; at difficulty 0 the first
    /// one does where the text is short enough to digest, at a higher
    /// difficulty it depends on the time, and `mine` says when.
    pub fn new(data: &str, difficulty: usize, index: usize, previous_hash: &str) -> (mined: Option<
        Block,
    >)
        ensures
            mined is Some ==> {
                let block = mined->Some_0@;
                &&& block.carries(index as nat, data@, block.timestamp, previous_hash@)
                &&& timestamp_shaped(block.timestamp)
                &&& block.mined(difficulty as nat)
                &&& has_zero_prefix(block.block_hash, difficulty as nat)
                &&& difficulty == 0 ==> block.nonce == 0
            },
            difficulty == 0 && stampable(index as nat, data@, previous_hash@) ==> mined is Some,
    {
        let timestamp = local_timestamp();
        proof {
            if stampable(index as nat, data@, previous_hash@) {
                lemma_stamped_text_digestible(index as nat, data@, timestamp@, previous_hash@);
            }
        }
        Block::mine(index, data, timestamp.as_str(), previous_hash, difficulty)
    }
}

/// At difficulty 0 every hash is valid, so the search stops at its first
/// attempt: the winning counter value is 0.
pub proof fn lemma_first_win_at_difficulty_zero(base: Seq<char>, nonce: nat)
    requires
        first_win(base, 0, nonce),
    ensures
        nonce == 0,
{
    if nonce > 0 {
        assert(attempt_fails(base, 0, 0));
    }
}

/// The first attempt on a stampable block can be digested, whatever
/// timestamp the block got.
pub proof fn lemma_stamped_text_digestible(
    index: nat,
    data: Seq<char>,
    timestamp: Seq<char>,
    previous_hash: Seq<char>,
)
    requires
        stampable(index, data, previous_hash),
        timestamp_shaped(timestamp),
    ensures
        digestible(attempt_text(block_text(index, data, timestamp, previous_hash), 0)),
{
    let head = decimal(index) + data;
    let stamped = head + timestamp;
    let text = stamped + previous_hash;
    lemma_encode_utf8_concat(decimal(index), data);
    lemma_encode_utf8_concat(head, timestamp);
    lemma_encode_utf8_concat(stamped, previous_hash);
    lemma_encode_utf8_concat(text, decimal(0));
    is_ascii_chars_encode_utf8(timestamp);
    assert(decimal(0) =~= seq!['0']);
    is_ascii_chars_encode_utf8(decimal(0));
}

/// A search that meets a text too long to digest, after failures only, never
/// succeeds.
proof fn lemma_search_stuck(base: Seq<char>, difficulty: nat, stuck: nat)
    requires
        !digestible(attempt_text(base, stuck)),
        forall|m: nat| m < stuck ==> attempt_fails(base, difficulty, m),
    ensures
        !minable(base, difficulty),
{
    assert forall|n: nat| n <= usize::MAX implies !first_win(base, difficulty, n) by {
        if n < stuck {
            assert(attempt_fails(base, difficulty, n));
        } else if n > stuck {
            if first_win(base, difficulty, n) {
                assert(attempt_fails(base, difficulty, stuck));
            }
        }
    }
}

/// The search stops with success at one counter value at most, so a mined
/// block's nonce and hash are determined by its other fields.
pub proof fn lemma_first_win_unique(base: Seq<char>, difficulty: nat, a: nat, b: nat)
    requires
        first_win(base, difficulty, a),
        first_win(base, difficulty, b),
    ensures
        a == b,
{
    if a < b {
        assert(attempt_fails(base, difficulty, a));
    } else if b < a {
        assert(attempt_fails(base, difficulty, b));
    }
}

/// A search in which every counter value fails never succeeds.
proof fn lemma_search_empty(base: Seq<char>, difficulty: nat)
    requires
        forall|m: nat| m < usize::MAX ==> attempt_fails(base, difficulty, m),
        attempt_fails(base, difficulty, usize::MAX as nat),
    ensures
        !minable(base, difficulty),
{
    assert forall|n: nat| n <= usize::MAX implies !first_win(base, difficulty, n) by {
        if n < usize::MAX {
            assert(attempt_fails(base, difficulty, n));
        }
    }
}

} // verus!
