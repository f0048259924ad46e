use executor::adapter::ContractStateAdapter;
use executor::bank;
use executor::context::{contract_address_from_code, user_address_from_pubkey};
use executor::executor::{ExecutorExecResp, TransactionExecutor};
use executor::fees::{aggregate_fees, modify_all_cycles_used};
use executor::store::TrieDb;
use executor::trie::KvMap;
use executor::types::{
    Address, CarryingAsset, ContractType, ExecError, Fee, InvokeContext, Receipt, ReceiptResult,
    SignedTransaction, TransactionAction,
};

fn chain_id() -> Vec<u8> {
    vec![0xaa; 32]
}

fn fresh() -> TransactionExecutor {
    TransactionExecutor::new(chain_id(), TrieDb::new()).unwrap()
}

fn fee(cycle: u64) -> Fee {
    Fee { asset_id: b"fee-asset".to_vec(), cycle }
}

fn deploy_tx(pubkey: &[u8], code: &[u8]) -> SignedTransaction {
    SignedTransaction {
        tx_hash: vec![1; 32],
        pubkey: pubkey.to_vec(),
        action: TransactionAction::Deploy { code: code.to_vec(), contract_type: ContractType::Asset },
        fee: fee(0),
    }
}

fn transfer_tx(pubkey: &[u8], receiver: &[u8], asset_id: &[u8], amount: u128) -> SignedTransaction {
    SignedTransaction {
        tx_hash: vec![2; 32],
        pubkey: pubkey.to_vec(),
        action: TransactionAction::Transfer {
            receiver: receiver.to_vec(),
            carrying_asset: CarryingAsset { asset_id: asset_id.to_vec(), amount },
        },
        fee: fee(0),
    }
}

fn coinbase() -> Address {
    Address::User(vec![0xcb; 32])
}

/// Deploys an asset from `pubkey` and returns its id.
fn deploy_asset(ex: &mut TransactionExecutor, pubkey: &[u8]) -> Vec<u8> {
    let resp = ex.exec(1, 1, coinbase(), vec![deploy_tx(pubkey, b"asset code")]).unwrap();
    match &resp.receipts[0].result {
        ReceiptResult::Deploy { contract, .. } => contract.clone(),
        _ => panic!("deploy failed"),
    }
}

#[test]
fn empty_trie_root_is_digest_of_nothing() {
    let h = KvMap::new().root_hash();
    let expected: Vec<u8> = vec![
        0xc5, 0xd2, 0x46, 0x01, 0x86, 0xf7, 0x23, 0x3c, 0x92, 0x7e, 0x7d, 0xb2, 0xdc, 0xc7, 0x03, 0xc0,
        0xe5, 0x00, 0xb6, 0x53, 0xca, 0x82, 0x27, 0x3b, 0x7b, 0xfa, 0xd8, 0x04, 0x5d, 0x85, 0xa4, 0x70,
    ];
    assert_eq!(h, expected);
}

#[test]
fn transfer_moves_thirty_of_hundred() {
    let mut ex = fresh();
    let alice = b"alice-key";
    let asset = deploy_asset(&mut ex, b"deployer-key");
    let caller = user_address_from_pubkey(&alice.to_vec()).unwrap();
    ex.genesis_credit(&asset, &caller, 100).unwrap();
    let receiver = vec![0x77; 32];
    let receiver_addr = Address::User(receiver.clone());
    let prev = ex.get_balance(&asset, &receiver_addr).unwrap();
    let resp = ex.exec(2, 1, coinbase(), vec![transfer_tx(alice, &receiver, &asset, 30)]).unwrap();
    match &resp.receipts[0].result {
        ReceiptResult::Transfer { receiver: r, asset_id, before_amount, after_amount } => {
            assert_eq!(r, &receiver);
            assert_eq!(asset_id, &asset);
            assert_eq!(*before_amount, 100);
            assert_eq!(*after_amount, 70);
        }
        _ => panic!("expected a transfer receipt"),
    }
    assert_eq!(ex.get_balance(&asset, &receiver_addr).unwrap(), prev + 30);
    assert_eq!(ex.get_balance(&asset, &caller).unwrap(), 70);
}

#[test]
fn deploy_registers_asset_with_fixed_supply() {
    let mut ex = fresh();
    let pubkey = b"deployer-key".to_vec();
    let caller = user_address_from_pubkey(&pubkey).unwrap();
    let nonce = ex.get_nonce(&caller).unwrap();
    let resp = ex.exec(1, 1, coinbase(), vec![deploy_tx(&pubkey, b"asset code")]).unwrap();
    let expected = contract_address_from_code(&b"asset code".to_vec(), nonce, ContractType::Asset);
    let expected_hash = expected.as_bytes();
    match &resp.receipts[0].result {
        ReceiptResult::Deploy { contract, contract_type } => {
            assert_eq!(contract, &expected_hash);
            assert_eq!(*contract_type, ContractType::Asset);
        }
        _ => panic!("expected a deploy receipt"),
    }
    let asset = ex.get_asset(&expected.as_bytes()).unwrap();
    assert_eq!(asset.supply, 21_000_000);
    assert_eq!(asset.id, expected.as_bytes());
}

#[test]
fn transfer_of_unknown_asset_fails() {
    let mut ex = fresh();
    let alice = b"alice-key";
    let caller = user_address_from_pubkey(&alice.to_vec()).unwrap();
    ex.genesis_credit(&b"unknown".to_vec(), &caller, 50).unwrap();
    let nonce = ex.get_nonce(&caller).unwrap();
    let resp = ex.exec(1, 1, coinbase(), vec![transfer_tx(alice, &[9; 32], b"unknown", 10)]).unwrap();
    match &resp.receipts[0].result {
        ReceiptResult::Fail { system, user } => {
            assert_eq!(system, &ExecError::AssetNotFound.description());
            assert_eq!(user, "");
        }
        _ => panic!("expected a failure"),
    }
    assert_eq!(ex.get_nonce(&caller).unwrap(), nonce + 1);
    assert_eq!(ex.get_balance(&b"unknown".to_vec(), &caller).unwrap(), 50);
    assert_eq!(ex.get_balance(&b"unknown".to_vec(), &Address::User(vec![9; 32])).unwrap(), 0);
}

#[test]
fn insufficient_balance_reverts_and_still_advances_nonce() {
    let mut ex = fresh();
    let alice = b"alice-key";
    let asset = deploy_asset(&mut ex, b"deployer-key");
    let caller = user_address_from_pubkey(&alice.to_vec()).unwrap();
    ex.genesis_credit(&asset, &caller, 5).unwrap();
    let resp = ex.exec(2, 1, coinbase(), vec![transfer_tx(alice, &[3; 32], &asset, 6)]).unwrap();
    match &resp.receipts[0].result {
        ReceiptResult::Fail { system, .. } => {
            assert_eq!(system, &ExecError::InsufficientBalance.description())
        }
        _ => panic!("expected a failure"),
    }
    assert_eq!(ex.get_nonce(&caller).unwrap(), 1);
    assert_eq!(ex.get_balance(&asset, &caller).unwrap(), 5);
}

#[test]
fn overflow_on_credit_reverts_the_debit() {
    let mut ex = fresh();
    let alice = b"alice-key";
    let asset = deploy_asset(&mut ex, b"deployer-key");
    let caller = user_address_from_pubkey(&alice.to_vec()).unwrap();
    let receiver = vec![4u8; 32];
    ex.genesis_credit(&asset, &caller, 10).unwrap();
    ex.genesis_credit(&asset, &Address::User(receiver.clone()), u128::MAX).unwrap();
    let resp = ex.exec(2, 1, coinbase(), vec![transfer_tx(alice, &receiver, &asset, 1)]).unwrap();
    match &resp.receipts[0].result {
        ReceiptResult::Fail { system, .. } => assert_eq!(system, &ExecError::BalanceOverflow.description()),
        _ => panic!("expected a failure"),
    }
    assert_eq!(ex.get_balance(&asset, &caller).unwrap(), 10);
}

#[test]
fn nonce_advances_once_per_transaction() {
    let mut ex = fresh();
    let alice = b"alice-key";
    let caller = user_address_from_pubkey(&alice.to_vec()).unwrap();
    let txs = vec![
        deploy_tx(alice, b"one"),
        transfer_tx(alice, &[1; 32], b"nothing", 1),
        deploy_tx(alice, b"one"),
    ];
    let resp = ex.exec(1, 1, coinbase(), txs).unwrap();
    assert_eq!(resp.receipts.len(), 3);
    assert_eq!(ex.get_nonce(&caller).unwrap(), 3);
    // The second deploy of the same code runs at another nonce, so it gets another address.
    let a = match &resp.receipts[0].result {
        ReceiptResult::Deploy { contract, .. } => contract.clone(),
        _ => panic!("expected a deploy"),
    };
    let b = match &resp.receipts[2].result {
        ReceiptResult::Deploy { contract, .. } => contract.clone(),
        _ => panic!("expected a deploy"),
    };
    assert_ne!(a, b);
}

fn batch() -> Vec<SignedTransaction> {
    vec![
        deploy_tx(b"k1", b"code"),
        transfer_tx(b"k2", &[5; 32], b"nothing", 3),
        deploy_tx(b"k2", b"code"),
    ]
}

fn run(ex: &mut TransactionExecutor) -> ExecutorExecResp {
    ex.exec(7, 1, coinbase(), batch()).unwrap()
}

fn same_receipts(a: &[Receipt], b: &[Receipt]) -> bool {
    a.len() == b.len()
        && a.iter().zip(b.iter()).all(|(x, y)| {
            x.state_root == y.state_root
                && x.tx_hash == y.tx_hash
                && x.epoch_id == y.epoch_id
                && x.cycles_used.cycle == y.cycles_used.cycle
                && match (&x.result, &y.result) {
                    (ReceiptResult::Deploy { contract: c1, .. }, ReceiptResult::Deploy { contract: c2, .. }) => c1 == c2,
                    (ReceiptResult::Fail { system: s1, .. }, ReceiptResult::Fail { system: s2, .. }) => s1 == s2,
                    (
                        ReceiptResult::Transfer { before_amount: b1, after_amount: a1, .. },
                        ReceiptResult::Transfer { before_amount: b2, after_amount: a2, .. },
                    ) => b1 == b2 && a1 == a2,
                    _ => false,
                }
        })
}

#[test]
fn same_batch_from_same_root_gives_same_result() {
    let mut ex = fresh();
    let start = ex.state_root();
    let first = run(&mut ex);
    let db = ex.into_db();
    let mut again = TransactionExecutor::from(chain_id(), start, db).unwrap();
    let second = run(&mut again);
    assert_eq!(first.state_root, second.state_root);
    assert!(same_receipts(&first.receipts, &second.receipts));
    let mut other = fresh();
    let third = run(&mut other);
    assert_eq!(first.state_root, third.state_root);
}

#[test]
fn every_receipt_carries_the_final_root() {
    let mut ex = fresh();
    let resp = run(&mut ex);
    assert_eq!(resp.state_root.len(), 32);
    assert!(resp.receipts.iter().all(|r| r.state_root == resp.state_root && r.epoch_id == 7));
    assert_eq!(resp.state_root, ex.state_root());
    assert!(resp.logs_bloom.is_empty());
}

#[test]
fn reopen_from_committed_root() {
    let mut ex = fresh();
    let asset = deploy_asset(&mut ex, b"deployer-key");
    let root = ex.state_root();
    let db = ex.into_db();
    let reopened = TransactionExecutor::from(chain_id(), root, db).unwrap();
    assert_eq!(reopened.get_asset(&asset).unwrap().supply, 21_000_000);
}

#[test]
fn reopen_from_unknown_root_fails() {
    let r = TransactionExecutor::from(chain_id(), vec![0; 32], TrieDb::new());
    assert!(matches!(r, Err(ExecError::RootNotFound)));
}

#[test]
fn unsupported_action_aborts_batch() {
    let mut ex = fresh();
    let root = ex.state_root();
    let call = SignedTransaction {
        tx_hash: vec![3; 32],
        pubkey: b"k".to_vec(),
        action: TransactionAction::Call { contract: vec![1], method: b"m".to_vec(), args: vec![], carrying_asset: None },
        fee: fee(0),
    };
    let r = ex.exec(1, 1, coinbase(), vec![deploy_tx(b"k", b"code"), call]);
    assert!(matches!(r, Err(ExecError::UnsupportedAction)));
    assert_eq!(ex.get_nonce(&user_address_from_pubkey(&b"k".to_vec()).unwrap()).unwrap(), 0);
    assert_eq!(ex.state_root(), root);
}

#[test]
fn deploy_of_app_contract_aborts_batch() {
    let mut ex = fresh();
    let mut tx = deploy_tx(b"k", b"code");
    tx.action = TransactionAction::Deploy { code: b"code".to_vec(), contract_type: ContractType::App };
    assert!(matches!(ex.exec(1, 1, coinbase(), vec![tx]), Err(ExecError::UnsupportedAction)));
}

#[test]
fn empty_public_key_aborts_batch() {
    let mut ex = fresh();
    let r = ex.exec(1, 1, coinbase(), vec![deploy_tx(b"", b"code")]);
    assert!(matches!(r, Err(ExecError::MalformedPubkey)));
}

#[test]
fn empty_batch_commits() {
    let mut ex = fresh();
    let resp = ex.exec(1, 1, coinbase(), vec![]).unwrap();
    assert!(resp.receipts.is_empty());
    assert!(resp.all_cycles_used.is_empty());
    assert_eq!(resp.state_root, ex.state_root());
}

#[test]
fn contract_address_is_deterministic() {
    let a = contract_address_from_code(&b"code".to_vec(), 4, ContractType::Asset).as_bytes();
    let b = contract_address_from_code(&b"code".to_vec(), 4, ContractType::Asset).as_bytes();
    let c = contract_address_from_code(&b"code".to_vec(), 5, ContractType::Asset).as_bytes();
    let d = contract_address_from_code(&b"cod3".to_vec(), 4, ContractType::Asset).as_bytes();
    let e = contract_address_from_code(&b"code".to_vec(), 4, ContractType::App).as_bytes();
    assert_eq!(a, b);
    assert_ne!(a, c);
    assert_ne!(a, d);
    assert_ne!(a, e);
    assert_eq!(a.len(), 33);
}

#[test]
fn fees_merge_by_asset() {
    let mut all: Vec<Fee> = vec![];
    modify_all_cycles_used(&mut all, &Fee { asset_id: b"a".to_vec(), cycle: 3 }).unwrap();
    modify_all_cycles_used(&mut all, &Fee { asset_id: b"b".to_vec(), cycle: 4 }).unwrap();
    modify_all_cycles_used(&mut all, &Fee { asset_id: b"a".to_vec(), cycle: 5 }).unwrap();
    assert_eq!(all.len(), 2);
    assert_eq!(all[0].asset_id, b"a".to_vec());
    assert_eq!(all[0].cycle, 8);
    assert_eq!(all[1].cycle, 4);
    let r = modify_all_cycles_used(&mut all, &Fee { asset_id: b"b".to_vec(), cycle: u64::MAX });
    assert!(matches!(r, Err(ExecError::FeeOverflow)));
    assert_eq!(all.len(), 2);
    assert_eq!(all[1].cycle, 4);
}

fn receipt_with_fee(asset: &[u8], cycle: u64) -> Receipt {
    Receipt {
        state_root: vec![],
        epoch_id: 1,
        cycles_used: Fee { asset_id: asset.to_vec(), cycle },
        result: ReceiptResult::Fail { system: String::new(), user: String::new() },
        tx_hash: vec![],
    }
}

#[test]
fn aggregated_fees_equal_receipt_totals() {
    let receipts = vec![receipt_with_fee(b"x", 10), receipt_with_fee(b"y", 1), receipt_with_fee(b"x", 7)];
    let all = aggregate_fees(&receipts).unwrap();
    let total_x: u64 = all.iter().filter(|f| f.asset_id == b"x".to_vec()).map(|f| f.cycle).sum();
    let total_y: u64 = all.iter().filter(|f| f.asset_id == b"y".to_vec()).map(|f| f.cycle).sum();
    assert_eq!(total_x, 17);
    assert_eq!(total_y, 1);
}

#[test]
fn coinbase_receives_nothing_for_free_transactions() {
    let mut ex = fresh();
    let resp = run(&mut ex);
    assert_eq!(resp.all_cycles_used.len(), 1);
    assert_eq!(resp.all_cycles_used[0].cycle, 0);
    assert_eq!(ex.get_balance(&b"fee-asset".to_vec(), &coinbase()).unwrap(), 0);
}

#[test]
fn trie_root_ignores_insert_order() {
    let mut a = KvMap::new();
    let mut b = KvMap::new();
    a.insert(&b"k1".to_vec(), &b"v1".to_vec());
    a.insert(&b"k2".to_vec(), &b"v2".to_vec());
    a.insert(&b"k1".to_vec(), &b"v3".to_vec());
    b.insert(&b"k2".to_vec(), &b"v2".to_vec());
    b.insert(&b"k1".to_vec(), &b"v3".to_vec());
    assert_eq!(a.root_hash(), b.root_hash());
    assert_eq!(a.get(&b"k1".to_vec()), Some(b"v3".to_vec()));
    assert_eq!(a.get(&b"k3".to_vec()), None);
    let mut c = KvMap::new();
    c.insert(&b"k2".to_vec(), &b"v2".to_vec());
    assert_ne!(a.root_hash(), c.root_hash());
    assert_ne!(KvMap::new().root_hash(), c.root_hash());
}

#[test]
fn revert_restores_stashed_state() {
    let mut s = ContractStateAdapter::new(KvMap::new());
    s.insert_cache(&b"k".to_vec(), &b"1".to_vec());
    s.stash();
    s.insert_cache(&b"k".to_vec(), &b"2".to_vec());
    s.insert_cache(&b"j".to_vec(), &b"3".to_vec());
    assert_eq!(s.get(&b"k".to_vec()), Some(b"2".to_vec()));
    s.revert_cache();
    assert_eq!(s.get(&b"k".to_vec()), Some(b"1".to_vec()));
    assert_eq!(s.get(&b"j".to_vec()), None);
    let root = s.commit();
    assert_eq!(root, s.trie.root_hash());
    assert_eq!(s.trie.get(&b"k".to_vec()), Some(b"1".to_vec()));
}

fn ctx_for(pubkey: &[u8]) -> InvokeContext {
    InvokeContext {
        chain_id: chain_id(),
        cycles_used: fee(0),
        cycles_limit: fee(0),
        caller: user_address_from_pubkey(&pubkey.to_vec()).unwrap(),
        coinbase: coinbase(),
        epoch_id: 1,
        cycles_price: 1,
        carrying_asset: None,
    }
}

#[test]
fn registering_an_id_twice_is_refused() {
    let mut s = ContractStateAdapter::new(KvMap::new());
    let ctx = ctx_for(b"k");
    let addr = Address::Contract(vec![8; 32]);
    bank::register(&mut s, &ctx, &addr, &b"n".to_vec(), &b"s".to_vec(), 5).unwrap();
    let r = bank::register(&mut s, &ctx, &addr, &b"n".to_vec(), &b"s".to_vec(), 6);
    assert!(matches!(r, Err(ExecError::AssetExists)));
    assert_eq!(bank::get_asset(&s, &addr.as_bytes()).unwrap().supply, 5);
}

#[test]
fn transfer_without_carried_asset_is_refused() {
    let mut s = ContractStateAdapter::new(KvMap::new());
    let ctx = ctx_for(b"k");
    let r = executor::account::transfer(&mut s, &ctx, &Address::User(vec![1; 32]));
    assert!(matches!(r, Err(ExecError::MissingCarryingAsset)));
}

#[test]
fn malformed_stored_balance_is_reported() {
    let mut s = ContractStateAdapter::new(KvMap::new());
    let addr = Address::User(vec![1; 32]);
    let key = executor::account::balance_key_of(&b"a".to_vec(), &addr.as_bytes());
    s.insert_cache(&key, &vec![1, 2, 3]);
    let r = executor::account::get_balance(&s, &b"a".to_vec(), &addr);
    assert!(matches!(r, Err(ExecError::MalformedState)));
}

#[test]
fn nonce_at_maximum_cannot_advance() {
    let mut s = ContractStateAdapter::new(KvMap::new());
    let ctx = ctx_for(b"k");
    let key = executor::account::nonce_key_of(&ctx.caller.as_bytes());
    s.insert_cache(&key, &vec![0xff; 8]);
    assert!(matches!(executor::account::inc_nonce(&mut s, &ctx), Err(ExecError::NonceOverflow)));
}

#[test]
fn little_endian_round_trip() {
    let v = executor::bytes::encode_le(0x0102, 4);
    assert_eq!(v, vec![2, 1, 0, 0]);
    assert_eq!(executor::bytes::decode_le(&v), 0x0102);
    assert!(executor::bytes::bytes_lt(&vec![1, 2], &vec![1, 3]));
    assert!(executor::bytes::bytes_lt(&vec![1], &vec![1, 0]));
    assert!(!executor::bytes::bytes_lt(&vec![2], &vec![1, 9]));
}

#[test]
fn reopen_genesis_root() {
    let ex = fresh();
    let root = ex.state_root();
    assert_eq!(root, KvMap::new().root_hash());
    let reopened = TransactionExecutor::from(chain_id(), root.clone(), ex.into_db()).unwrap();
    assert_eq!(reopened.state_root(), root);
    assert_eq!(reopened.get_nonce(&coinbase()).unwrap(), 0);
}

#[test]
fn reopened_executor_matches_after_exec() {
    let mut ex = fresh();
    let asset = deploy_asset(&mut ex, b"deployer-key");
    let caller = user_address_from_pubkey(&b"deployer-key".to_vec()).unwrap();
    let root = ex.state_root();
    let nonce = ex.get_nonce(&caller).unwrap();
    let mut again = TransactionExecutor::from(chain_id(), root, ex.into_db()).unwrap();
    assert_eq!(again.get_nonce(&caller).unwrap(), nonce);
    assert_eq!(again.get_asset(&asset).unwrap().supply, 21_000_000);
    let mut other = fresh();
    deploy_asset(&mut other, b"deployer-key");
    let a = run(&mut again);
    let b = run(&mut other);
    assert_eq!(a.state_root, b.state_root);
    assert!(same_receipts(&a.receipts, &b.receipts));
    assert_eq!(a.all_cycles_used.len(), b.all_cycles_used.len());
}
