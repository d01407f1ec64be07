use blockchaindemo::{Block, BlockChain, BlockChainDemoError, BlockChainTrait, Hashable, Transaction};
use std::collections::BTreeMap;

type TxRecord = (String, String, u64);
type BlockRecord = (Vec<TxRecord>, u64, u64, [u8; 32], [u8; 32], u32);

fn records(chain: &BlockChain) -> Vec<BlockRecord> {
    chain
        .iter()
        .map(|b| {
            let payload = b
                .payload
                .iter()
                .map(|t| (t.sender.clone(), t.receiver.clone(), t.amount))
                .collect();
            (payload, b.nonce, b.seq, b.prev_sha, b.sha, b.difficulty)
        })
        .collect()
}

fn export(chain: &BlockChain) -> Vec<u8> {
    rmp_serde::to_vec(&records(chain)).unwrap()
}

fn import(bytes: &[u8]) -> Option<BlockChain> {
    let records: Vec<BlockRecord> = rmp_serde::from_slice(bytes).ok()?;
    Some(
        records
            .into_iter()
            .map(|(payload, nonce, seq, prev_sha, sha, difficulty)| {
                let txs = payload
                    .iter()
                    .map(|(s, r, a)| Transaction::new(s, r, *a))
                    .collect();
                let mut b = Block::new(txs, nonce, seq, prev_sha);
                b.sha = sha;
                b.difficulty = difficulty;
                b
            })
            .collect(),
    )
}

fn mined_chain(difficulty: u32) -> BlockChain {
    let mut chain: BlockChain = vec![
        Block::new(
            vec![
                Transaction::new("Alice", "Bob", 128),
                Transaction::new("Alice", "Eve", 28),
            ],
            0,
            0,
            [0; 32],
        ),
        Block::new(vec![Transaction::new("Bob", "Eve", 108)], 0, 1, [0; 32]),
    ];
    let mut lasthash = [0; 32];
    for block in chain.iter_mut() {
        block.prev_sha = lasthash;
        block.mine(difficulty);
        lasthash = block.sha;
    }
    chain
}

#[test]
fn test_create_a_chain() {
    let mut chain: BlockChain = vec![
        Block::new(
            vec![
                Transaction::new("Alice", "Bob", 128),
                Transaction::new("Alice", "Eve", 28),
            ],
            0,
            0,
            [0; 32],
        ),
        Block::new(vec![Transaction::new("Bob", "Eve", 108)], 0, 1, [0; 32]),
    ];

    let mut lasthash = [0; 32];
    for block in chain.iter_mut() {
        block.prev_sha = lasthash;
        block.mine(8);
        lasthash = block.sha;
    }
    let balance = chain.get_balance();
    assert_eq!(balance.get("Bob"), Some(&20));
    assert_eq!(balance.get("Eve"), Some(&(28 + 108)))
}

#[test]
fn test_serialize_a_raw_chain() {
    let mut chain: BlockChain = vec![
        Block::new(vec![Transaction::new("Alice", "Bob", 999)], 0, 0, [0; 32]),
        Block::new(vec![Transaction::new("Bob", "Eve", 20)], 0, 1, [0; 32]),
    ];
    assert!(!chain.verify());
    chain[0].mine(9);
    chain[1].prev_sha = chain[0].sha;
    chain[1].mine(10);
    assert!(chain.verify());

    let ser = rmp_serde::to_vec(&records(&chain));
    match ser {
        Err(e) => {
            panic!("Serializing failed: {}", e);
        }
        Ok(ser) => {
            let clonechain: Option<BlockChain> = import(&ser);
            if let Some(clonechain) = clonechain {
                assert!(clonechain.verify());
            } else {
                assert!(false);
            }
        }
    }
}

#[test]
fn balances_of_the_two_block_example() {
    let chain = mined_chain(8);
    let mut expected = BTreeMap::new();
    expected.insert("Alice".to_string(), -156i128);
    expected.insert("Bob".to_string(), 20i128);
    expected.insert("Eve".to_string(), 136i128);
    assert_eq!(chain.get_balance(), expected);
    assert!(chain.verify());
}

#[test]
fn balances_of_an_empty_chain() {
    let chain: BlockChain = vec![];
    assert!(chain.get_balance().is_empty());
    assert!(chain.verify());
}

#[test]
fn self_transfer_and_zero_amount_net_to_zero() {
    let chain: BlockChain = vec![Block::new(
        vec![
            Transaction::new("Ann", "Ann", 50),
            Transaction::new("Ben", "Cy", 0),
            Transaction::new("Ben", "Ann", u64::MAX),
            Transaction::new("Ben", "Ann", u64::MAX),
        ],
        0,
        0,
        [0; 32],
    )];
    let balance = chain.get_balance();
    assert_eq!(balance.len(), 3);
    assert_eq!(balance.get("Ann"), Some(&(2 * u64::MAX as i128)));
    assert_eq!(balance.get("Ben"), Some(&(-2 * u64::MAX as i128)));
    assert_eq!(balance.get("Cy"), Some(&0));
}

#[test]
fn round_trip_keeps_fields_and_verdict() {
    let chain = mined_chain(6);
    let copy = import(&export(&chain)).unwrap();
    assert_eq!(export(&copy), export(&chain));
    assert_eq!(copy.verify(), chain.verify());
    assert!(copy.verify());

    let mut broken = mined_chain(6);
    broken[1].seq = 5;
    let copy = import(&export(&broken)).unwrap();
    assert_eq!(copy.len(), 2);
    assert_eq!(copy[1].seq, 5);
    assert_eq!(copy.verify(), broken.verify());
    assert!(!copy.verify());
}

#[test]
fn truncated_bytes_do_not_import() {
    let bytes = export(&mined_chain(4));
    assert!(import(&bytes[..bytes.len() - 3]).is_none());
}

#[test]
fn genesis_must_link_to_zero() {
    let mut chain: BlockChain = vec![Block::new(vec![Transaction::new("A", "B", 1)], 0, 0, [1; 32])];
    chain[0].mine(4);
    assert!(chain[0].verify_difficulty());
    assert_eq!(chain[0].sha, chain[0].hash());
    assert!(!chain.verify());
}

#[test]
fn difficulty_must_not_decrease() {
    let mut chain: BlockChain = vec![
        Block::new(vec![Transaction::new("A", "B", 1)], 0, 0, [0; 32]),
        Block::new(vec![Transaction::new("B", "C", 1)], 0, 1, [0; 32]),
    ];
    chain[0].mine(6);
    chain[1].prev_sha = chain[0].sha;
    chain[1].mine(5);
    assert!(!chain.verify());

    chain[1].mine(6);
    assert!(chain.verify());
}

#[test]
fn sequence_must_not_skip() {
    let mut chain: BlockChain = vec![
        Block::new(vec![Transaction::new("A", "B", 1)], 0, 0, [0; 32]),
        Block::new(vec![Transaction::new("B", "C", 1)], 0, 2, [0; 32]),
    ];
    chain[0].mine(4);
    chain[1].prev_sha = chain[0].sha;
    chain[1].mine(4);
    assert!(chain[1].verify_difficulty());
    assert!(!chain.verify());
}

#[test]
fn altered_amount_is_detected() {
    let mut chain = mined_chain(6);
    assert!(chain.verify());
    chain[0].payload[1].amount = 29;
    assert!(chain[0].verify_difficulty());
    assert!(!chain.verify());
}

#[test]
fn end_to_end_genesis_then_round_trip() {
    let mut chain: BlockChain = vec![];
    chain.push(Block::new(vec![Transaction::new("Alice", "Bob", 999)], 0, 0, [0; 32]));
    chain[0].mine(8);
    assert!(chain.verify());
    let copy = import(&export(&chain)).unwrap();
    assert!(copy.verify());
}

#[test]
fn wrong_link_fails_while_difficulty_holds() {
    let mut chain = mined_chain(6);
    let mut block = Block::new(vec![Transaction::new("Eve", "Alice", 3)], 0, 2, [7; 32]);
    block.mine(6);
    chain.push(block);
    for b in chain.iter() {
        assert!(b.verify_difficulty());
    }
    assert!(!chain.verify());
}

#[test]
fn unmined_chain_fails() {
    let chain: BlockChain = vec![Block::new(vec![], 0, 0, [0; 32])];
    assert!(!chain.verify());
}

#[test]
fn error_messages() {
    assert_eq!(BlockChainDemoError::UsageError.message(), "Usage error");
    assert_eq!(BlockChainDemoError::InternalError.message(), "Internal unexpected error");
    assert_eq!(
        BlockChainDemoError::GenesisError.message(),
        "Genesis block is invalid or missing"
    );
    assert_eq!(BlockChainDemoError::VerifyError.message(), "Block chain verification failed");
}
