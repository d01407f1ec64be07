//! A single-node, append-only ledger secured by proof-of-work.
//!
//! Transactions are bundled into blocks, each block is linked to its
//! predecessor by a SHA-256 digest and mined by a nonce search until its
//! digest meets a difficulty target. A chain of blocks can be verified
//! end to end and folded into per-account balances.
mod block;
mod blockchain;
mod blockchaindemoerror;
mod encoding;
mod hashable;
mod transaction;

pub use crate::block::{
    block_encoding, difficulty_target, digest_with_nonce, header_encoding,
    lemma_changed_amount_changes_encoding,    lemma_mined_block_meets_difficulty, lemma_mining_is_deterministic, meets_difficulty,
    mine_outcome, payload_encoding, unmined_sha, Block,
};
pub use crate::blockchain::{
    balances_held, block_valid_at, chain_transactions, chain_valid, expected_prev_sha,
    genesis_prev_sha, lemma_broken_link_is_rejected, lemma_difficulty_must_not_decrease,
    lemma_digest_must_match_content, lemma_genesis_must_link_to_zero,
    lemma_sequence_must_be_contiguous, ledger_balances, net_balance, takes_part, BlockChain,
    BlockChainTrait,
};
pub use crate::blockchaindemoerror::BlockChainDemoError;
pub use crate::encoding::{be_bytes_u32, be_bytes_u64, sha_prefix};
pub use crate::hashable::{sha256_of, Hashable};
pub use crate::transaction::{transaction_encoding, Transaction};
