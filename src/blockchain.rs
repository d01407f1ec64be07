//! A chain of blocks: end-to-end verification and ledger balances.
use vstd::prelude::*;
use std::collections::BTreeMap;
use crate::block::{block_encoding, meets_difficulty, Block};
use crate::encoding::same_digest;
use crate::hashable::{sha256_of, Hashable};
use crate::transaction::Transaction;

verus! {

/// Blocks in chain order; index 0 is the genesis block.
pub type BlockChain = Vec<Block>;

/// The `prev_sha` of a genesis block: 32 zero bytes.
pub open spec fn genesis_prev_sha() -> [u8; 32] {
    vstd::array::spec_array_fill_for_copy_type::<u8, 32>(0u8)
}

/// The digest that block `i` of `c` must name as its predecessor.
pub open spec fn expected_prev_sha(c: Seq<Block>, i: int) -> Seq<u8> {
    if i == 0 {
        genesis_prev_sha()@
    } else {
        sha256_of(block_encoding(c[i - 1]))
    }
}

/// Block `i` of `c` passes every check: its difficulty does not fall below
/// its predecessor's, its digest meets its own difficulty, its sequence number
/// is `i`, its digest is the digest of its encoding, and it names the digest
/// of its predecessor.
pub open spec fn block_valid_at(c: Seq<Block>, i: int) -> bool {
    &&& (i > 0 ==> c[i - 1].difficulty <= c[i].difficulty)
    &&& meets_difficulty(c[i].sha@, c[i].difficulty)
    &&& c[i].seq == i
    &&& c[i].sha@ == sha256_of(block_encoding(c[i]))
    &&& c[i].prev_sha@ == expected_prev_sha(c, i)
}

/// Every block of `c` passes every check; an empty chain is valid.
pub open spec fn chain_valid(c: Seq<Block>) -> bool {
    forall|i: int| 0 <= i < c.len() ==> #[trigger] block_valid_at(c, i)
}

/// All transactions of `c`, block by block, in payload order.
pub open spec fn chain_transactions(c: Seq<Block>) -> Seq<Transaction>
    decreases c.len(),
{
    if c.len() == 0 {
        Seq::empty()
    } else {
        chain_transactions(c.drop_last()) + c.last().payload@
    }
}

/// What `account` received minus what it sent over `txs`.
pub open spec fn net_balance(txs: Seq<Transaction>, account: Seq<char>) -> int
    decreases txs.len(),
{
    if txs.len() == 0 {
        0
    } else {
        let t = txs.last();
        net_balance(txs.drop_last(), account) + (if t.receiver@ == account {
            t.amount as int
        } else {
            0
        }) - (if t.sender@ == account {
            t.amount as int
        } else {
            0
        })
    }
}

/// Whether `account` sends or receives in some transaction of `txs`.
pub open spec fn takes_part(txs: Seq<Transaction>, account: Seq<char>) -> bool {
    exists|i: int|
        0 <= i < txs.len() && (#[trigger] txs[i].sender@ == account || txs[i].receiver@ == account)
}

/// Each account that takes part in `txs`, mapped to its net balance.
pub open spec fn ledger_balances(txs: Seq<Transaction>) -> Map<Seq<char>, int> {
    Map::new(|a: Seq<char>| takes_part(txs, a), |a: Seq<char>| net_balance(txs, a))
}

/// The accounts held in a balance map, each with its balance.
pub uninterp spec fn balances_held(m: BTreeMap<String, i128>) -> Map<Seq<char>, int>;

/// Relies on BTreeMap::new: the new map holds no entry.
#[verifier::external_body]
fn balances_new() -> (r: BTreeMap<String, i128>)
    ensures
        balances_held(r).dom().is_empty(),
{
    BTreeMap::new()
}

/// Relies on BTreeMap::get: the value held under `k`, if any.
#[verifier::external_body]
fn balances_get(m: &BTreeMap<String, i128>, k: &String) -> (r: Option<i128>)
    ensures
        r == (if balances_held(*m).contains_key(k@) {
            Some(balances_held(*m)[k@] as i128)
        } else {
            None
        }),
{
    m.get(k).copied()
}

/// Relies on BTreeMap::insert: afterwards `k` maps to `v`, and every other
/// entry is kept.
#[verifier::external_body]
fn balances_insert(m: &mut BTreeMap<String, i128>, k: String, v: i128)
    ensures
        balances_held(*final(m)) == balances_held(*old(m)).insert(k@, v as int),
{
    m.insert(k, v);
}

/// A chain whose first block names anything but 32 zero bytes as its
/// predecessor is not valid.
pub proof fn lemma_genesis_must_link_to_zero(c: Seq<Block>)
    requires
        c.len() > 0,
        c[0].prev_sha@ != genesis_prev_sha()@,
    ensures
        !chain_valid(c),
{
    assert(!block_valid_at(c, 0));
}

/// A chain in which some block's difficulty is below its predecessor's is not
/// valid.
pub proof fn lemma_difficulty_must_not_decrease(c: Seq<Block>, i: int)
    requires
        0 < i < c.len(),
        c[i].difficulty < c[i - 1].difficulty,
    ensures
        !chain_valid(c),
{
    assert(!block_valid_at(c, i));
}

/// A chain in which some block's sequence number differs from its position,
/// as when a number is skipped, is not valid.
pub proof fn lemma_sequence_must_be_contiguous(c: Seq<Block>, i: int)
    requires
        0 <= i < c.len(),
        c[i].seq != i,
    ensures
        !chain_valid(c),
{
    assert(!block_valid_at(c, i));
}

/// A chain in which some block's stored digest is not the digest of its
/// current encoding, as after a transaction was altered once it was mined, is
/// not valid.
pub proof fn lemma_digest_must_match_content(c: Seq<Block>, i: int)
    requires
        0 <= i < c.len(),
        c[i].sha@ != sha256_of(block_encoding(c[i])),
    ensures
        !chain_valid(c),
{
    assert(!block_valid_at(c, i));
}

/// A chain in which a later block names anything but the digest of its
/// predecessor is not valid, even when every block meets its own difficulty.
pub proof fn lemma_broken_link_is_rejected(c: Seq<Block>, i: int)
    requires
        0 < i < c.len(),
        c[i].prev_sha@ != sha256_of(block_encoding(c[i - 1])),
        forall|j: int| 0 <= j < c.len() ==> meets_difficulty(#[trigger] c[j].sha@, c[j].difficulty),
    ensures
        !chain_valid(c),
{
    assert(!block_valid_at(c, i));
}

/// The transactions of the first `i + 1` blocks are those of the first `i`
/// followed by those of block `i`.
proof fn lemma_chain_transactions_step(c: Seq<Block>, i: int)
    requires
        0 <= i < c.len(),
    ensures
        chain_transactions(c.take(i + 1)) == chain_transactions(c.take(i)) + c[i].payload@,
{
    assert(c.take(i + 1).drop_last() =~= c.take(i));
}

/// A prefix of a chain holds no more transactions than the whole chain.
proof fn lemma_chain_transactions_prefix_len(c: Seq<Block>, k: int)
    requires
        0 <= k <= c.len(),
    ensures
        chain_transactions(c.take(k)).len() <= chain_transactions(c).len(),
    decreases c.len() - k,
{
    if k == c.len() {
        assert(c.take(k) =~= c);
    } else {
        lemma_chain_transactions_step(c, k);
        lemma_chain_transactions_prefix_len(c, k + 1);
    }
}

/// A net balance is bounded by the number of transactions times the largest
/// amount.
proof fn lemma_net_balance_bound(txs: Seq<Transaction>, account: Seq<char>)
    ensures
        -(txs.len() * (u64::MAX as int)) <= net_balance(txs, account) <= txs.len() * (
        u64::MAX as int),
    decreases txs.len(),
{
    if txs.len() > 0 {
        lemma_net_balance_bound(txs.drop_last(), account);
        assert(txs.len() * (u64::MAX as int) == (txs.len() - 1) * (u64::MAX as int) + (
        u64::MAX as int)) by (nonlinear_arith);
    }
}

/// An account that takes no part in `txs` has a zero balance.
proof fn lemma_absent_account_balance(txs: Seq<Transaction>, account: Seq<char>)
    ensures
        !takes_part(txs, account) ==> net_balance(txs, account) == 0,
    decreases txs.len(),
{
    if txs.len() > 0 && !takes_part(txs, account) {
        let rest = txs.drop_last();
        assert(!takes_part(rest, account)) by {
            if takes_part(rest, account) {
                let k = choose|k: int|
                    0 <= k < rest.len() && (#[trigger] rest[k].sender@ == account
                        || rest[k].receiver@ == account);
                assert(txs[k] == rest[k]);
            }
        }
        assert(txs[txs.len() - 1] == txs.last());
        lemma_absent_account_balance(rest, account);
    }
}

/// Balances of fewer than `isize::MAX` transactions fit in an `i128`.
proof fn lemma_sum_fits(n: int)
    requires
        0 <= n <= isize::MAX,
    ensures
        n * (u64::MAX as int) < i128::MAX,
{
    assert(n * (u64::MAX as int) <= (isize::MAX as int) * (u64::MAX as int)) by (nonlinear_arith)
        requires
            0 <= n <= isize::MAX,
    ;
}

/// One more transaction credits its receiver, then debits its sender.
proof fn lemma_ledger_push(txs: Seq<Transaction>, t: Transaction)
    ensures
        ({
            let m0 = ledger_balances(txs);
            let m1 = m0.insert(
                t.receiver@,
                (if m0.contains_key(t.receiver@) {
                    m0[t.receiver@]
                } else {
                    0
                }) + t.amount,
            );
            ledger_balances(txs.push(t)) == m1.insert(
                t.sender@,
                (if m1.contains_key(t.sender@) {
                    m1[t.sender@]
                } else {
                    0
                }) - t.amount,
            )
        }),
{
    let after = txs.push(t);
    assert(after.drop_last() =~= txs);
    assert(after.last() == t);
    assert(after[txs.len() as int] == t);
    let m0 = ledger_balances(txs);
    let m1 = m0.insert(
        t.receiver@,
        (if m0.contains_key(t.receiver@) {
            m0[t.receiver@]
        } else {
            0
        }) + t.amount,
    );
    let m2 = m1.insert(
        t.sender@,
        (if m1.contains_key(t.sender@) {
            m1[t.sender@]
        } else {
            0
        }) - t.amount,
    );
    assert forall|a: Seq<char>| #[trigger] takes_part(after, a) <==> (takes_part(txs, a) || a
        == t.receiver@ || a == t.sender@) by {
        if takes_part(after, a) && !takes_part(txs, a) {
            let k = choose|k: int|
                0 <= k < after.len() && (#[trigger] after[k].sender@ == a || after[k].receiver@
                    == a);
            if k < txs.len() {
                assert(after[k] == txs[k]);
            }
        }
        if takes_part(txs, a) {
            let k = choose|k: int|
                0 <= k < txs.len() && (#[trigger] txs[k].sender@ == a || txs[k].receiver@ == a);
            assert(after[k] == txs[k]);
        }
    }
    assert forall|a: Seq<char>| #[trigger] m2.contains_key(a) implies m2[a] == net_balance(
        after,
        a,
    ) by {
        lemma_absent_account_balance(txs, a);
    }
    assert(ledger_balances(after) =~= m2);
}

/// Operations over a whole chain.
pub trait BlockChainTrait {
    /// The blocks of the chain, in order.
    spec fn blocks(&self) -> Seq<Block>;

    /// Whether every block passes every check of `block_valid_at`.
    fn verify(&self) -> (r: bool)
        ensures
            r == chain_valid(self.blocks()),
    ;

    /// Net balance of each account that takes part in the chain's
    /// transactions.
    fn get_balance(&self) -> (r: BTreeMap<String, i128>)
        requires
            chain_transactions(self.blocks()).len() <= isize::MAX,
        ensures
            balances_held(r) == ledger_balances(chain_transactions(self.blocks())),
    ;
}

impl BlockChainTrait for BlockChain {
    open spec fn blocks(&self) -> Seq<Block> {
        self@
    }

    fn verify(&self) -> (r: bool) {
        let mut lasthash: [u8; 32] = [0u8; 32];
        let mut lastdifficulty: u32 = 0;
        let mut expectedseq: u64 = 0;
        let mut i: usize = 0;
        while i < self.len()
            invariant
                i <= self@.len(),
                expectedseq == i,
                lasthash@ == expected_prev_sha(self@, i as int),
                lastdifficulty == (if i == 0 {
                    0
                } else {
                    self@[i - 1].difficulty
                }),
                forall|j: int| 0 <= j < i ==> #[trigger] block_valid_at(self@, j),
            decreases self@.len() - i,
        {
            let block = &self[i];
            if block.difficulty < lastdifficulty {
                assert(!block_valid_at(self@, i as int));
                return false;
            } else {
                lastdifficulty = block.difficulty;
            }
            if !block.verify_difficulty() {
                assert(!block_valid_at(self@, i as int));
                return false;
            }
            if block.seq != expectedseq {
                assert(!block_valid_at(self@, i as int));
                return false;
            }
            expectedseq = expectedseq + 1;
            let calculated = block.hash();
            if !same_digest(&calculated, &block.sha) || !same_digest(&block.prev_sha, &lasthash) {
                assert(!block_valid_at(self@, i as int));
                return false;
            }
            lasthash = calculated;
            i = i + 1;
        }
        true
    }

    fn get_balance(&self) -> (r: BTreeMap<String, i128>) {
        let ghost c = self@;
        let mut m = balances_new();
        proof {
            assert(c.take(0) =~= Seq::<Block>::empty());
            assert(ledger_balances(chain_transactions(c.take(0))) =~= balances_held(m));
        }
        let mut i: usize = 0;
        while i < self.len()
            invariant
                c == self@,
                i <= c.len(),
                chain_transactions(c).len() <= isize::MAX,
                balances_held(m) == ledger_balances(chain_transactions(c.take(i as int))),
            decreases c.len() - i,
        {
            let block = &self[i];
            let ghost done = chain_transactions(c.take(i as int));
            proof {
                lemma_chain_transactions_step(c, i as int);
                lemma_chain_transactions_prefix_len(c, i + 1);
                assert(block.payload@.take(0) =~= Seq::<Transaction>::empty());
                assert(done + block.payload@.take(0) =~= done);
            }
            let mut j: usize = 0;
            while j < block.payload.len()
                invariant
                    c == self@,
                    i < c.len(),
                    block == c[i as int],
                    j <= block.payload@.len(),
                    done.len() + block.payload@.len() <= isize::MAX,
                    balances_held(m) == ledger_balances(done + block.payload@.take(j as int)),
                decreases block.payload@.len() - j,
            {
                let t = &block.payload[j];
                let ghost before = done + block.payload@.take(j as int);
                proof {
                    assert(before.push(*t) =~= done + block.payload@.take(j + 1));
                    lemma_net_balance_bound(before, t.receiver@);
                    lemma_net_balance_bound(before, t.sender@);
                    lemma_absent_account_balance(before, t.receiver@);
                    lemma_absent_account_balance(before, t.sender@);
                    lemma_sum_fits(before.len() + 1 as int);
                    lemma_ledger_push(before, *t);
                }
                let vr: i128 = match balances_get(&m, &t.receiver) {
                    Some(v) => v,
                    None => 0,
                };
                balances_insert(&mut m, t.receiver.clone(), vr + t.amount as i128);
                let vs: i128 = match balances_get(&m, &t.sender) {
                    Some(v) => v,
                    None => 0,
                };
                balances_insert(&mut m, t.sender.clone(), vs - t.amount as i128);
                j = j + 1;
            }
            proof {
                assert(block.payload@.take(block.payload@.len() as int) =~= block.payload@);
            }
            i = i + 1;
        }
        proof {
            assert(c.take(c.len() as int) =~= c);
        }
        m
    }
}

} // verus!
