//! A block of transactions, linked to its predecessor and mined by nonce search.
use vstd::prelude::*;
use crate::encoding::{
    be_bytes_u32, be_bytes_u64, push_all, push_be_u32, push_be_u64, read_sha_prefix, sha_prefix,
};
use crate::hashable::{sha256_of, Hashable};
use crate::transaction::{transaction_encoding, Transaction};

verus! {

/// A block: its transactions plus the metadata that links it into a chain.
pub struct Block {
    pub payload: Vec<Transaction>,
    /// Search variable of the miner.
    pub nonce: u64,
    /// Position of the block in its chain.
    pub seq: u64,
    /// Digest of the preceding block; all zero for the first block.
    pub prev_sha: [u8; 32],
    /// Digest of this block once mined; all `0xff` before.
    pub sha: [u8; 32],
    /// Number of leading bits of `sha` that must be zero.
    pub difficulty: u32,
}

/// The digest a block carries before it is mined.
pub open spec fn unmined_sha() -> [u8; 32] {
    vstd::array::spec_array_fill_for_copy_type::<u8, 32>(0xffu8)
}

/// The largest digest prefix that meets `difficulty`: the all-ones 128-bit
/// value shifted right by `difficulty` bits, and zero once every bit is
/// required to be zero.
pub open spec fn difficulty_target(difficulty: u32) -> u128 {
    if difficulty >= 128 {
        0
    } else {
        u128::MAX >> (difficulty as u128)
    }
}

/// Whether the first sixteen bytes of `sha`, read big-endian, are within the
/// target of `difficulty`.
pub open spec fn meets_difficulty(sha: Seq<u8>, difficulty: u32) -> bool {
    sha_prefix(sha) <= difficulty_target(difficulty)
}

/// The transactions' encodings, concatenated in order.
pub open spec fn payload_encoding(payload: Seq<Transaction>) -> Seq<u8>
    decreases payload.len(),
{
    if payload.len() == 0 {
        Seq::empty()
    } else {
        payload_encoding(payload.drop_last()) + transaction_encoding(payload.last())
    }
}

/// The encoding of a block with the given fields: nonce, transactions,
/// previous digest, sequence number and difficulty, integers big-endian.
pub open spec fn header_encoding(
    nonce: u64,
    payload: Seq<Transaction>,
    prev_sha: Seq<u8>,
    seq: u64,
    difficulty: u32,
) -> Seq<u8> {
    be_bytes_u64(nonce) + payload_encoding(payload) + prev_sha + be_bytes_u64(seq) + be_bytes_u32(
        difficulty,
    )
}

/// The canonical encoding of `b`.
pub open spec fn block_encoding(b: Block) -> Seq<u8> {
    header_encoding(b.nonce, b.payload@, b.prev_sha@, b.seq, b.difficulty)
}

/// The digest `b` would have with `nonce` in place of its own.
pub open spec fn digest_with_nonce(b: Block, nonce: u64) -> Seq<u8> {
    sha256_of(header_encoding(nonce, b.payload@, b.prev_sha@, b.seq, b.difficulty))
}

/// `f` is what mining `o` at `difficulty` leaves: the difficulty is recorded,
/// the nonce is the first one after `o.nonce` whose digest meets it, and `sha`
/// is that digest. The search does not start when the unmined digest already
/// meets the difficulty, and stops at the largest nonce.
pub open spec fn mine_outcome(o: Block, f: Block, difficulty: u32) -> bool {
    &&& f.payload == o.payload
    &&& f.seq == o.seq
    &&& f.prev_sha == o.prev_sha
    &&& f.difficulty == difficulty
    &&& o.nonce <= f.nonce
    &&& (f.nonce == o.nonce <==> (meets_difficulty(unmined_sha()@, difficulty) || o.nonce
        == u64::MAX))
    &&& (f.nonce == o.nonce ==> f.sha == unmined_sha())
    &&& (f.nonce != o.nonce ==> f.sha@ == sha256_of(block_encoding(f)))
    &&& forall|n: u64|
        o.nonce < n < f.nonce ==> !meets_difficulty(#[trigger] digest_with_nonce(f, n), difficulty)
    &&& (meets_difficulty(f.sha@, difficulty) || f.nonce == u64::MAX)
}

/// The target of `difficulty`.
fn target_of(difficulty: u32) -> (r: u128)
    ensures
        r == difficulty_target(difficulty),
{
    if difficulty >= 128 {
        0
    } else {
        u128::MAX >> (difficulty as u128)
    }
}

impl Block {
    /// An unmined block: `sha` all `0xff` and difficulty 0.
    pub fn new(payload: Vec<Transaction>, nonce: u64, seq: u64, prev_sha: [u8; 32]) -> (b: Block)
        ensures
            b.payload == payload,
            b.nonce == nonce,
            b.seq == seq,
            b.prev_sha == prev_sha,
            b.sha == unmined_sha(),
            b.difficulty == 0,
    {
        Block { payload, nonce, seq, prev_sha, sha: [0xffu8; 32], difficulty: 0 }
    }

    /// Records `difficulty`, then raises the nonce one at a time until the
    /// block's digest meets it. At difficulty 0 the unmined digest already
    /// meets it and nothing is searched; the search gives up at the largest
    /// nonce rather than wrap around.
    pub fn mine(&mut self, difficulty: u32)
        ensures
            mine_outcome(*old(self), *final(self), difficulty),
    {
        let ghost o = *self;
        self.difficulty = difficulty;
        self.sha = [0xffu8; 32];
        let target = target_of(difficulty);
        while read_sha_prefix(&self.sha) > target && self.nonce < u64::MAX
            invariant
                self.payload == o.payload,
                self.seq == o.seq,
                self.prev_sha == o.prev_sha,
                self.difficulty == difficulty,
                target == difficulty_target(difficulty),
                o.nonce <= self.nonce,
                self.nonce == o.nonce ==> self.sha == unmined_sha(),
                self.nonce != o.nonce ==> self.sha@ == sha256_of(block_encoding(*self)),
                self.nonce != o.nonce ==> !meets_difficulty(unmined_sha()@, difficulty) && o.nonce
                    < u64::MAX,
                forall|n: u64|
                    o.nonce < n < self.nonce ==> !meets_difficulty(
                        #[trigger] digest_with_nonce(*self, n),
                        difficulty,
                    ),
            decreases u64::MAX - self.nonce,
        {
            let ghost before = *self;
            self.nonce = self.nonce + 1;
            let h = self.hash();
            self.sha = h;
            assert forall|n: u64| o.nonce < n < self.nonce implies !meets_difficulty(
                #[trigger] digest_with_nonce(*self, n),
                difficulty,
            ) by {
                assert(digest_with_nonce(*self, n) == digest_with_nonce(before, n));
                if n == before.nonce {
                    assert(digest_with_nonce(before, n) == sha256_of(block_encoding(before)));
                }
            }
        }
    }

    /// Whether `sha` meets the block's own recorded difficulty.
    pub fn verify_difficulty(&self) -> (r: bool)
        ensures
            r == meets_difficulty(self.sha@, self.difficulty),
    {
        read_sha_prefix(&self.sha) <= target_of(self.difficulty)
    }
}

/// A block that mining left below the largest nonce, at a difficulty of at
/// most 16, has a digest whose first sixteen bytes read big-endian are at most
/// `u128::MAX >> difficulty`, and it passes its own difficulty check.
pub proof fn lemma_mined_block_meets_difficulty(before: Block, after: Block, difficulty: u32)
    requires
        difficulty <= 16,
        mine_outcome(before, after, difficulty),
        after.nonce < u64::MAX,
    ensures
        sha_prefix(after.sha@) <= u128::MAX >> (difficulty as u128),
        meets_difficulty(after.sha@, after.difficulty),
{
}

/// Mining is deterministic: two equal blocks mined at the same difficulty end
/// in equal blocks, with the same nonce and the same digest.
pub proof fn lemma_mining_is_deterministic(
    b1: Block,
    b2: Block,
    f1: Block,
    f2: Block,
    difficulty: u32,
)
    requires
        b1 == b2,
        mine_outcome(b1, f1, difficulty),
        mine_outcome(b2, f2, difficulty),
    ensures
        f1 == f2,
{
    lemma_first_winning_nonce(b1, f1, f2, difficulty);
    lemma_first_winning_nonce(b1, f2, f1, difficulty);
    if f1.nonce != b1.nonce {
        assert(block_encoding(f1) == block_encoding(f2));
        assert(f1.sha@ == f2.sha@);
    }
    assert(f1.sha =~= f2.sha);
}

/// Mining cannot stop before a nonce at which another run from the same block
/// stopped.
proof fn lemma_first_winning_nonce(b: Block, f1: Block, f2: Block, difficulty: u32)
    requires
        mine_outcome(b, f1, difficulty),
        mine_outcome(b, f2, difficulty),
    ensures
        f2.nonce <= f1.nonce,
{
    if f1.nonce < f2.nonce {
        assert(f1.nonce != b.nonce);
        assert(digest_with_nonce(f2, f1.nonce) == sha256_of(block_encoding(f1)));
    }
}

/// The encoding of concatenated payloads is the concatenation of their
/// encodings.
proof fn lemma_payload_encoding_concat(a: Seq<Transaction>, b: Seq<Transaction>)
    ensures
        payload_encoding(a + b) == payload_encoding(a) + payload_encoding(b),
    decreases b.len(),
{
    if b.len() == 0 {
        assert(a + b =~= a);
        assert(payload_encoding(a) + payload_encoding(b) =~= payload_encoding(a));
    } else {
        assert((a + b).drop_last() =~= a + b.drop_last());
        lemma_payload_encoding_concat(a, b.drop_last());
        assert(payload_encoding(a + b) =~= payload_encoding(a) + payload_encoding(b));
    }
}

/// The encoding of a single transaction as a payload is its own encoding.
proof fn lemma_payload_encoding_single(t: Transaction)
    ensures
        payload_encoding(seq![t]) == transaction_encoding(t),
{
    let p = seq![t];
    assert(p.drop_last() =~= Seq::<Transaction>::empty());
    assert(p.last() == t);
    assert(payload_encoding(p.drop_last()) =~= Seq::<u8>::empty());
    assert(payload_encoding(p) =~= transaction_encoding(t));
}

/// Distinct integers have distinct big-endian encodings.
proof fn lemma_be_bytes_u64_injective(x: u64, y: u64)
    requires
        be_bytes_u64(x) == be_bytes_u64(y),
    ensures
        x == y,
{
    let ex = be_bytes_u64(x);
    let ey = be_bytes_u64(y);
    assert(ex[0] == ey[0] && ex[1] == ey[1] && ex[2] == ey[2] && ex[3] == ey[3]);
    assert(ex[4] == ey[4] && ex[5] == ey[5] && ex[6] == ey[6] && ex[7] == ey[7]);
    assert(((x >> 56u64) as u8 == (y >> 56u64) as u8 && (x >> 48u64) as u8 == (y >> 48u64) as u8
        && (x >> 40u64) as u8 == (y >> 40u64) as u8 && (x >> 32u64) as u8 == (y >> 32u64) as u8
        && (x >> 24u64) as u8 == (y >> 24u64) as u8 && (x >> 16u64) as u8 == (y >> 16u64) as u8
        && (x >> 8u64) as u8 == (y >> 8u64) as u8 && x as u8 == y as u8) ==> x == y)
        by (bit_vector);
}

/// Changing the amount of one transaction of a block, and nothing else,
/// changes the block's encoding, so the digest recorded at mining time no
/// longer covers the block unless the two encodings collide under SHA-256.
pub proof fn lemma_changed_amount_changes_encoding(b1: Block, b2: Block, k: int)
    requires
        b1.nonce == b2.nonce,
        b1.seq == b2.seq,
        b1.prev_sha == b2.prev_sha,
        b1.difficulty == b2.difficulty,
        b1.payload@.len() == b2.payload@.len(),
        0 <= k < b1.payload@.len(),
        forall|i: int|
            0 <= i < b1.payload@.len() && i != k ==> b1.payload@[i] == b2.payload@[i],
        b1.payload@[k].sender@ == b2.payload@[k].sender@,
        b1.payload@[k].receiver@ == b2.payload@[k].receiver@,
        b1.payload@[k].amount != b2.payload@[k].amount,
    ensures
        block_encoding(b1) != block_encoding(b2),
{
    let p1 = b1.payload@;
    let p2 = b2.payload@;
    let head = p1.take(k);
    let tail = p1.skip(k + 1);
    assert(p2.take(k) =~= head);
    assert(p2.skip(k + 1) =~= tail);
    assert(p1 =~= head + seq![p1[k]] + tail);
    assert(p2 =~= head + seq![p2[k]] + tail);
    lemma_payload_encoding_concat(head + seq![p1[k]], tail);
    lemma_payload_encoding_concat(head, seq![p1[k]]);
    lemma_payload_encoding_concat(head + seq![p2[k]], tail);
    lemma_payload_encoding_concat(head, seq![p2[k]]);
    lemma_payload_encoding_single(p1[k]);
    lemma_payload_encoding_single(p2[k]);
    let t1 = transaction_encoding(p1[k]);
    let t2 = transaction_encoding(p2[k]);
    let lead = be_bytes_u64(b1.nonce) + payload_encoding(head);
    let rest = payload_encoding(tail) + b1.prev_sha@ + be_bytes_u64(b1.seq) + be_bytes_u32(
        b1.difficulty,
    );
    assert(block_encoding(b1) =~= lead + t1 + rest);
    assert(block_encoding(b2) =~= lead + t2 + rest);
    if block_encoding(b1) == block_encoding(b2) {
        let lo = lead.len() as int;
        let hi = lo + t1.len();
        assert((lead + t1 + rest).subrange(lo, hi) =~= t1);
        assert((lead + t2 + rest).subrange(lo, hi) =~= t2);
        let n = t1.len() - 8;
        assert(t1.subrange(n, n + 8) =~= be_bytes_u64(p1[k].amount));
        assert(t2.subrange(n, n + 8) =~= be_bytes_u64(p2[k].amount));
        lemma_be_bytes_u64_injective(p1[k].amount, p2[k].amount);
    }
}

impl Hashable for Block {
    open spec fn encoding(&self) -> Seq<u8> {
        block_encoding(*self)
    }

    fn bytes(&self) -> (r: Vec<u8>) {
        let mut v: Vec<u8> = Vec::new();
        push_be_u64(&mut v, self.nonce);
        let mut i: usize = 0;
        while i < self.payload.len()
            invariant
                i <= self.payload@.len(),
                v@ == be_bytes_u64(self.nonce) + payload_encoding(self.payload@.take(i as int)),
            decreases self.payload@.len() - i,
        {
            let tb = self.payload[i].bytes();
            push_all(&mut v, tb.as_slice());
            assert(self.payload@.take(i + 1).drop_last() =~= self.payload@.take(i as int));
            i = i + 1;
        }
        assert(self.payload@.take(i as int) =~= self.payload@);
        push_all(&mut v, self.prev_sha.as_slice());
        push_be_u64(&mut v, self.seq);
        push_be_u32(&mut v, self.difficulty);
        v
    }
}

} // verus!
