//! The transaction executor: runs one epoch's batch in order against the
//! native contracts, keeps a failed transaction's writes away from everything
//! else, rewards the coinbase, and commits a new state root.

use vstd::prelude::*;
use crate::account::{self, balance_in, inc_nonce_model, nonce_in, nonce_key, balance_key,
    transfer_model, State, lemma_balance_reads_back};
use crate::adapter::ContractStateAdapter;
use crate::bank::{self, asset_supply_in, register_model};
use crate::bytes::{copy_bytes, le_bytes, lemma_le_round_trip, lemma_le_bytes_len, lemma_pow256_facts};
use crate::context::{caller_bytes, carried, carried_by, contract_address_from_code, contract_hash_of,
    gen_invoke_ctx};
use crate::fees::{aggregate_fees, aggregate_model, cycles_of, distinct_assets, fee_total, fee_views};
use crate::store::TrieDb;
use crate::trie::{KvMap, lemma_root_of_contents, map_root};
use crate::types::{Address, ContractType, ExecError, Fee, InvokeContext, Receipt, ReceiptResult,
    SignedTransaction, TransactionAction, CONTRACT_TAG, USER_TAG};

verus! {

/// The supply that a deployed asset starts with.
pub const NATIVE_TOKEN_SUPPLY: u128 = 21_000_000;

pub const ACCOUNT_CONTRACT_ID: u8 = 1;

pub const BANK_CONTRACT_ID: u8 = 2;

/// The address bytes of a native contract: a contract address whose digest is
/// nineteen zero bytes and the contract's id.
pub open spec fn native_contract_bytes(id: u8) -> Seq<u8> {
    seq![CONTRACT_TAG] + Seq::new(19, |i: int| 0u8).push(id)
}

pub open spec fn token_name() -> Seq<u8> {
    seq![0x6du8, 0x75, 0x74, 0x61, 0x2d, 0x74, 0x6f, 0x6b, 0x65, 0x6e]
}

pub open spec fn token_symbol() -> Seq<u8> {
    seq![0x4du8, 0x54, 0x54]
}

/// What dispatching an action does to the account and bank states.
pub open spec fn dispatch_model(acc: State, bank: State, caller: Seq<u8>, action: TransactionAction) -> Result<
    (State, State),
    ExecError,
> {
    match action {
        TransactionAction::Transfer { receiver, carrying_asset } => {
            let asset = carrying_asset.asset_id@;
            let to = seq![USER_TAG] + receiver@;
            match asset_supply_in(bank, asset) {
                Err(e) => Err(e),
                Ok(_) => match balance_in(acc, asset, caller) {
                    Err(e) => Err(e),
                    Ok(_) => match transfer_model(acc, asset, caller, to, carrying_asset.amount as nat) {
                        Err(e) => Err(e),
                        Ok(acc2) => match balance_in(acc2, asset, caller) {
                            Err(e) => Err(e),
                            Ok(_) => Ok((acc2, bank)),
                        },
                    },
                },
            }
        },
        TransactionAction::Deploy { code, contract_type } => {
            if contract_type != ContractType::Asset {
                Err(ExecError::UnsupportedAction)
            } else {
                match nonce_in(acc, caller) {
                    Err(e) => Err(e),
                    Ok(n) => match register_model(
                        bank,
                        seq![CONTRACT_TAG] + contract_hash_of(code@, n, ContractType::Asset),
                        token_name(),
                        token_symbol(),
                        NATIVE_TOKEN_SUPPLY as nat,
                        caller,
                    ) {
                        Err(e) => Err(e),
                        Ok(bank2) => Ok((acc, bank2)),
                    },
                }
            }
        },
        TransactionAction::Call { .. } => Err(ExecError::UnsupportedAction),
    }
}

/// The receipt result that a successful dispatch reports.
pub open spec fn result_agrees(
    res: ReceiptResult,
    acc: State,
    acc2: State,
    caller: Seq<u8>,
    action: TransactionAction,
) -> bool {
    match action {
        TransactionAction::Transfer { receiver, carrying_asset } => match res {
            ReceiptResult::Transfer { receiver: r, asset_id, before_amount, after_amount } => {
                &&& r@ == receiver@
                &&& asset_id@ == carrying_asset.asset_id@
                &&& balance_in(acc, asset_id@, caller) == Ok::<nat, ExecError>(before_amount as nat)
                &&& balance_in(acc2, asset_id@, caller) == Ok::<nat, ExecError>(after_amount as nat)
            },
            _ => false,
        },
        TransactionAction::Deploy { code, .. } => match res {
            ReceiptResult::Deploy { contract, contract_type } => {
                &&& contract_type == ContractType::Asset
                &&& exists|n: nat| nonce_in(acc, caller) == Ok::<nat, ExecError>(n)
                    && contract@ == seq![CONTRACT_TAG] + contract_hash_of(code@, n, ContractType::Asset)
            },
            _ => false,
        },
        _ => false,
    }
}

/// The caller's nonce went up by exactly one.
pub open spec fn nonce_advanced(before: State, after: State, caller: Seq<u8>) -> bool {
    match nonce_in(before, caller) {
        Ok(n) => nonce_in(after, caller) == Ok::<nat, ExecError>(n + 1),
        Err(_) => false,
    }
}

/// What one transaction does to the account and bank states: its dispatch,
/// kept or dropped, then the caller's nonce raised; or the batch-fatal error
/// it raises.
pub open spec fn tx_model(acc: State, bank: State, tx: SignedTransaction) -> Result<(State, State), ExecError> {
    if tx.pubkey@.len() == 0 {
        Err(ExecError::MalformedPubkey)
    } else {
        let caller = caller_bytes(tx.pubkey@);
        match dispatch_model(acc, bank, caller, tx.action) {
            Ok((a2, b2)) => match inc_nonce_model(a2, caller) {
                Ok(a3) => Ok((a3, b2)),
                Err(e) => Err(e),
            },
            Err(e) => if e.fatal() {
                Err(e)
            } else {
                match inc_nonce_model(acc, caller) {
                    Ok(a3) => Ok((a3, bank)),
                    Err(e2) => Err(e2),
                }
            },
        }
    }
}

/// The transactions of a batch applied in order.
pub open spec fn batch_model(acc: State, bank: State, txs: Seq<SignedTransaction>) -> Result<(State, State), ExecError>
    decreases txs.len(),
{
    if txs.len() == 0 {
        Ok((acc, bank))
    } else {
        match batch_model(acc, bank, txs.drop_last()) {
            Err(e) => Err(e),
            Ok((a, b)) => tx_model(a, b, txs.last()),
        }
    }
}

/// The result a transaction's receipt reports, given the account and bank
/// states it ran against.
pub open spec fn receipt_agrees(res: ReceiptResult, acc: State, bank: State, tx: SignedTransaction) -> bool {
    let caller = caller_bytes(tx.pubkey@);
    match dispatch_model(acc, bank, caller, tx.action) {
        Ok((a2, _)) => result_agrees(res, acc, a2, caller, tx.action),
        Err(e) => res is Fail && res->Fail_system@ == e.description_of() && res->Fail_user@.len() == 0,
    }
}

/// The account and bank states that the transaction at `i` of the batch ran
/// against.
pub open spec fn state_before(acc: State, bank: State, txs: Seq<SignedTransaction>, i: int) -> (State, State) {
    batch_model(acc, bank, txs.take(i))->Ok_0
}

/// The fees a batch's receipts record: each transaction's fee asset, with no
/// cycles used by the native contracts.
pub open spec fn charged_fees(txs: Seq<SignedTransaction>) -> Seq<(Seq<u8>, u64)> {
    txs.map_values(|t: SignedTransaction| (t.fee.asset_id@, 0u64))
}

/// The root trie after recording the two contracts' roots.
pub open spec fn root_trie_after(trie: State, acc: State, bank: State) -> State {
    trie.insert(native_contract_bytes(ACCOUNT_CONTRACT_ID), map_root(acc)).insert(
        native_contract_bytes(BANK_CONTRACT_ID),
        map_root(bank),
    )
}

/// One epoch: the batch in order, the coinbase credited with each asset's fee
/// total, and the new root trie with its root; or the error that aborts it.
pub open spec fn epoch_model(acc: State, bank: State, trie: State, coinbase: Seq<u8>, txs: Seq<SignedTransaction>) -> Result<
    (State, State, State, Seq<u8>),
    ExecError,
> {
    match batch_model(acc, bank, txs) {
        Err(e) => Err(e),
        Ok((a, b)) => match aggregate_model(charged_fees(txs)) {
            None => Err(ExecError::FeeOverflow),
            Some(fees) => match credit_all(a, coinbase, fees) {
                Err(e) => Err(e),
                Ok(a2) => Ok((a2, b, root_trie_after(trie, a2, b), map_root(root_trie_after(trie, a2, b)))),
            },
        },
    }
}

/// What `exec` hands back for an epoch.
pub struct ExecutorExecResp {
    pub receipts: Vec<Receipt>,
    pub all_cycles_used: Vec<Fee>,
    pub logs_bloom: Vec<u8>,
    pub state_root: Vec<u8>,
}

pub struct TransactionExecutor {
    pub chain_id: Vec<u8>,
    pub db: TrieDb,
    pub trie: KvMap,
    pub account: ContractStateAdapter,
    pub bank: ContractStateAdapter,
}

fn native_contract_address(id: u8) -> (r: Address)
    ensures
        r.bytes_of() == native_contract_bytes(id),
{
    let mut h: Vec<u8> = Vec::new();
    let mut i: usize = 0;
    while i < 19
        invariant
            i <= 19,
            h@ == Seq::new(i as nat, |j: int| 0u8),
        decreases 19 - i,
    {
        h.push(0u8);
        i = i + 1;
        assert(h@ =~= Seq::new(i as nat, |j: int| 0u8));
    }
    h.push(id);
    Address::Contract(h)
}

fn token_name_bytes() -> (r: Vec<u8>)
    ensures
        r@ == token_name(),
{
    let r: Vec<u8> = vec![0x6d, 0x75, 0x74, 0x61, 0x2d, 0x74, 0x6f, 0x6b, 0x65, 0x6e];
    assert(r@ =~= token_name());
    r
}

fn token_symbol_bytes() -> (r: Vec<u8>)
    ensures
        r@ == token_symbol(),
{
    let r: Vec<u8> = vec![0x4d, 0x54, 0x54];
    assert(r@ =~= token_symbol());
    r
}

/// Writes to balance keys leave every nonce as it was.
proof fn lemma_balance_write_keeps_nonce(m: State, asset: Seq<u8>, addr: Seq<u8>, v: Seq<u8>, who: Seq<u8>)
    ensures
        nonce_in(m.insert(balance_key(asset, addr), v), who) == nonce_in(m, who),
{
    assert(balance_key(asset, addr)[0] != nonce_key(who)[0]);
}

proof fn lemma_dispatch_keeps_nonce(acc: State, bank: State, caller: Seq<u8>, action: TransactionAction)
    requires
        dispatch_model(acc, bank, caller, action) is Ok,
    ensures
        nonce_in(dispatch_model(acc, bank, caller, action)->Ok_0.0, caller) == nonce_in(acc, caller),
{
    match action {
        TransactionAction::Transfer { receiver, carrying_asset } => {
            let asset = carrying_asset.asset_id@;
            let to = seq![USER_TAG] + receiver@;
            let amount = carrying_asset.amount as nat;
            let b1 = balance_in(acc, asset, caller)->Ok_0;
            let m1 = acc.insert(balance_key(asset, caller), le_bytes((b1 - amount) as nat, 16));
            lemma_balance_write_keeps_nonce(acc, asset, caller, le_bytes((b1 - amount) as nat, 16), caller);
            let b2 = balance_in(m1, asset, to)->Ok_0;
            lemma_balance_write_keeps_nonce(m1, asset, to, le_bytes(b2 + amount, 16), caller);
        },
        _ => {},
    }
}

/// Raising a nonce that the contract wrote reads back one higher.
proof fn lemma_inc_nonce_advances(mid: State, fin: State, caller: Seq<u8>)
    requires
        inc_nonce_model(mid, caller) == Ok::<State, ExecError>(fin),
    ensures
        nonce_advanced(mid, fin, caller),
{
    let n = nonce_in(mid, caller)->Ok_0;
    lemma_pow256_facts();
    lemma_le_bytes_len(n + 1, 8);
    lemma_le_round_trip(n + 1, 8);
}

impl TransactionExecutor {
    /// Both contracts' states are well formed and hold no staged write: the
    /// state between epochs.
    pub open spec fn wf(&self) -> bool {
        &&& self.db.wf()
        &&& self.trie.wf()
        &&& self.account.wf()
        &&& self.bank.wf()
        &&& self.account.settled()
        &&& self.bank.settled()
        &&& self.account.stashed@ == Map::<Seq<u8>, Seq<u8>>::empty()
        &&& self.bank.stashed@ == Map::<Seq<u8>, Seq<u8>>::empty()
    }

    /// Well formed while a batch runs: the cache is empty between
    /// transactions, the stashed writes wait for the commit.
    pub open spec fn wf_in_batch(&self) -> bool {
        &&& self.db.wf()
        &&& self.trie.wf()
        &&& self.account.wf()
        &&& self.bank.wf()
        &&& self.account.settled()
        &&& self.bank.settled()
    }

    /// A fresh executor whose state is the empty trie.
    pub fn new(chain_id: Vec<u8>, db: TrieDb) -> (r: Result<TransactionExecutor, ExecError>)
        requires
            db.wf(),
        ensures
            match r {
                Ok(ex) => ex.wf() && ex.chain_id@ == chain_id@ && ex.account@ == Map::<Seq<u8>, Seq<u8>>::empty()
                    && ex.bank@ == Map::<Seq<u8>, Seq<u8>>::empty() && ex.trie@ == Map::<Seq<u8>, Seq<u8>>::empty()
                    && ex.trie.root() == map_root(Map::<Seq<u8>, Seq<u8>>::empty()) && reopenable(ex.db, ex.trie.root()),
                Err(_) => false,
            },
    {
        let mut db = db;
        let empty = KvMap::new();
        let root = db.put(&empty);
        proof {
            lemma_root_of_contents(empty);
            let last = db.snapshots@.len() - 1;
            assert forall|j: int| #[trigger] db.latest_with_root(j, root@) implies j == last by {
                if j < last {
                    assert(db.snapshots@[last].root@ == root@);
                }
            }
        }
        let account = ContractStateAdapter::new(KvMap::new());
        let bank = ContractStateAdapter::new(KvMap::new());
        Ok(TransactionExecutor { chain_id, db, trie: empty, account, bank })
    }

    /// Reopens the state committed under `state_root`.
    pub fn from(chain_id: Vec<u8>, state_root: Vec<u8>, db: TrieDb) -> (r: Result<TransactionExecutor, ExecError>)
        requires
            db.wf(),
        ensures
            match r {
                Ok(ex) => {
                    &&& ex.wf()
                    &&& ex.chain_id@ == chain_id@
                    &&& ex.db == db
                    &&& ex.trie.root() == state_root@
                    &&& exists|i: int| db.latest_with_root(i, state_root@) && ex.trie@ == db.snapshots@[i].map@
                    &&& contract_state_matches(db, ex.trie@, native_contract_bytes(ACCOUNT_CONTRACT_ID), ex.account)
                    &&& contract_state_matches(db, ex.trie@, native_contract_bytes(BANK_CONTRACT_ID), ex.bank)
                },
                Err(e) => e == ExecError::RootNotFound && !reopenable(db, state_root@),
            },
    {
        let trie = match db.load(&state_root) {
            Some(t) => t,
            None => return Err(ExecError::RootNotFound),
        };
        let account_address = native_contract_address(ACCOUNT_CONTRACT_ID);
        let ghost i = choose|i: int| db.latest_with_root(i, state_root@) && trie@ == db.snapshots@[i].map@;
        proof {
            assert forall|j: int| #[trigger] db.latest_with_root(j, state_root@) implies j == i by {
                if j < i {
                    assert(db.snapshots@[i].root@ != state_root@);
                } else if j > i {
                    assert(db.snapshots@[j].root@ != state_root@);
                }
            }
        }
        let account = match gen_contract_state(&trie, &account_address, &db) {
            Ok(a) => a,
            Err(e) => return Err(e),
        };
        let bank_address = native_contract_address(BANK_CONTRACT_ID);
        let bank = match gen_contract_state(&trie, &bank_address, &db) {
            Ok(a) => a,
            Err(e) => return Err(e),
        };
        Ok(TransactionExecutor { chain_id, db, trie, account, bank })
    }
}

/// Where the root trie records a root for `address`, the store holds it.
pub open spec fn recorded_root_held(db: TrieDb, trie: State, address: Seq<u8>) -> bool {
    trie.contains_key(address) ==> db.holds_root(trie[address])
}

/// The store holds `root`, and the latest root trie committed under it records
/// for each native contract a root that the store holds too: `from` succeeds
/// exactly on such roots.
pub open spec fn reopenable(db: TrieDb, root: Seq<u8>) -> bool {
    &&& db.holds_root(root)
    &&& forall|i: int| #[trigger] db.latest_with_root(i, root) ==> {
        &&& recorded_root_held(db, db.snapshots@[i].map@, native_contract_bytes(ACCOUNT_CONTRACT_ID))
        &&& recorded_root_held(db, db.snapshots@[i].map@, native_contract_bytes(BANK_CONTRACT_ID))
    }
}

/// A contract's state is the one the root trie records for its address, or
/// empty where the root trie records none.
pub open spec fn contract_state_matches(db: TrieDb, trie: State, address: Seq<u8>, a: ContractStateAdapter) -> bool {
    &&& !trie.contains_key(address) ==> a@ == Map::<Seq<u8>, Seq<u8>>::empty()
    &&& trie.contains_key(address) ==> a.trie.root() == trie[address] && exists|i: int|
        db.latest_with_root(i, trie[address]) && a@ == db.snapshots@[i].map@
}

/// The state of the contract at `address`: the trie whose root the root trie
/// holds for it, or an empty one where it holds none.
pub fn gen_contract_state(trie: &KvMap, address: &Address, db: &TrieDb) -> (r: Result<ContractStateAdapter, ExecError>)
    requires
        trie.wf(),
        db.wf(),
    ensures
        match r {
            Ok(a) => a.wf() && a.settled() && a.stashed@ == Map::<Seq<u8>, Seq<u8>>::empty()
                && contract_state_matches(*db, trie@, address.bytes_of(), a),
            Err(e) => e == ExecError::RootNotFound && !recorded_root_held(*db, trie@, address.bytes_of()),
        },
{
    let key = address.as_bytes();
    let sub = match trie.get(&key) {
        Some(root) => match db.load(&root) {
            Some(t) => t,
            None => return Err(ExecError::RootNotFound),
        },
        None => KvMap::new(),
    };
    let a = ContractStateAdapter::new(sub);
    assert(a@ =~= a.trie@);
    Ok(a)
}

/// Everything but the two contract states and the staged writes is as before.
pub open spec fn same_frame(a: TransactionExecutor, b: TransactionExecutor) -> bool {
    &&& a.chain_id == b.chain_id
    &&& a.db == b.db
    &&& a.trie == b.trie
    &&& a.account.trie == b.account.trie
    &&& a.bank.trie == b.bank.trie
}

impl TransactionExecutor {
    fn handle_transfer(&mut self, ictx: &InvokeContext, receiver: &Vec<u8>) -> (r: Result<ReceiptResult, ExecError>)
        requires
            old(self).wf_in_batch(),
        ensures
            final(self).account.wf() && final(self).bank.wf(),
            same_frame(*old(self), *final(self)),
            final(self).account.stashed == old(self).account.stashed,
            final(self).bank.stashed == old(self).bank.stashed,
            final(self).bank@ == old(self).bank@,
            final(self).bank.settled(),
            match ictx.carrying_asset {
                None => r == Err::<ReceiptResult, ExecError>(ExecError::MissingCarryingAsset) && *final(self)
                    == *old(self),
                Some(c) => {
                    let caller = ictx.caller.bytes_of();
                    let action = TransactionAction::Transfer { receiver: *receiver, carrying_asset: c };
                    &&& match dispatch_model(old(self).account@, old(self).bank@, caller, action) {
                        Ok((a2, b2)) => r is Ok && final(self).account@ == a2 && result_agrees(
                            r->Ok_0,
                            old(self).account@,
                            a2,
                            caller,
                            action,
                        ),
                        Err(e) => r == Err::<ReceiptResult, ExecError>(e),
                    }
                    &&& (asset_supply_in(old(self).bank@, c.asset_id@) is Err || balance_in(
                        old(self).account@,
                        c.asset_id@,
                        caller,
                    ) is Err) ==> *final(self) == *old(self)
                },
            },
    {
        let carrying = match &ictx.carrying_asset {
            Some(c) => c,
            None => return Err(ExecError::MissingCarryingAsset),
        };
        let from = &ictx.caller;
        let to = Address::User(copy_bytes(receiver));
        match bank::get_asset(&self.bank, &carrying.asset_id) {
            Err(e) => return Err(e),
            Ok(_) => {},
        }
        let before_amount = match account::get_balance(&self.account, &carrying.asset_id, from) {
            Err(e) => return Err(e),
            Ok(b) => b,
        };
        match account::transfer(&mut self.account, ictx, &to) {
            Err(e) => return Err(e),
            Ok(()) => {},
        }
        let after_amount = match account::get_balance(&self.account, &carrying.asset_id, from) {
            Err(e) => return Err(e),
            Ok(b) => b,
        };
        Ok(ReceiptResult::Transfer {
            receiver: copy_bytes(receiver),
            asset_id: copy_bytes(&carrying.asset_id),
            before_amount,
            after_amount,
        })
    }

    fn handle_deploy(&mut self, ictx: &InvokeContext, code: &Vec<u8>, contract_type: &ContractType) -> (r: Result<
        ReceiptResult,
        ExecError,
    >)
        requires
            old(self).wf_in_batch(),
        ensures
            final(self).account.wf() && final(self).bank.wf(),
            same_frame(*old(self), *final(self)),
            final(self).account.stashed == old(self).account.stashed,
            final(self).bank.stashed == old(self).bank.stashed,
            final(self).account@ == old(self).account@,
            final(self).account.settled(),
            ({
                let caller = ictx.caller.bytes_of();
                let action = TransactionAction::Deploy { code: *code, contract_type: *contract_type };
                match dispatch_model(old(self).account@, old(self).bank@, caller, action) {
                    Ok((a2, b2)) => r is Ok && final(self).bank@ == b2 && result_agrees(
                        r->Ok_0, old(self).account@, a2, caller, action),
                    Err(e) => r == Err::<ReceiptResult, ExecError>(e),
                }
            }),
            r is Err ==> *final(self) == *old(self),
    {
        match contract_type {
            ContractType::Asset => {},
            _ => return Err(ExecError::UnsupportedAction),
        }
        let nonce = match account::get_nonce(&self.account, &ictx.caller) {
            Err(e) => return Err(e),
            Ok(n) => n,
        };
        let address = contract_address_from_code(code, nonce, ContractType::Asset);
        let name = token_name_bytes();
        let symbol = token_symbol_bytes();
        match bank::register(&mut self.bank, ictx, &address, &name, &symbol, NATIVE_TOKEN_SUPPLY) {
            Err(e) => return Err(e),
            Ok(()) => {},
        }
        let contract = address.as_bytes();
        Ok(ReceiptResult::Deploy { contract, contract_type: ContractType::Asset })
    }

    fn dispatch(&mut self, ictx: &InvokeContext, signed_tx: &SignedTransaction) -> (r: Result<ReceiptResult, ExecError>)
        requires
            old(self).wf_in_batch(),
            carried_by(*ictx) == carried(signed_tx.action),
        ensures
            final(self).account.wf() && final(self).bank.wf(),
            same_frame(*old(self), *final(self)),
            final(self).account.stashed == old(self).account.stashed,
            final(self).bank.stashed == old(self).bank.stashed,
            match dispatch_model(old(self).account@, old(self).bank@, ictx.caller.bytes_of(), signed_tx.action) {
                Ok((a2, b2)) => r is Ok && final(self).account@ == a2 && final(self).bank@ == b2 && result_agrees(
                    r->Ok_0, old(self).account@, a2, ictx.caller.bytes_of(), signed_tx.action),
                Err(e) => r == Err::<ReceiptResult, ExecError>(e),
            },
            r == Err::<ReceiptResult, ExecError>(ExecError::UnsupportedAction) ==> *final(self) == *old(self),
            match signed_tx.action {
                TransactionAction::Transfer { carrying_asset, .. } => asset_supply_in(
                    old(self).bank@,
                    carrying_asset.asset_id@,
                ) is Err ==> *final(self) == *old(self),
                TransactionAction::Deploy { .. } => r is Err ==> *final(self) == *old(self),
                _ => *final(self) == *old(self),
            },
    {
        match &signed_tx.action {
            TransactionAction::Transfer { receiver, .. } => self.handle_transfer(ictx, receiver),
            TransactionAction::Deploy { code, contract_type } => self.handle_deploy(ictx, code, contract_type),
            _ => Err(ExecError::UnsupportedAction),
        }
    }
}

impl TransactionExecutor {
    fn stash(&mut self)
        requires
            old(self).wf_in_batch() || (old(self).account.wf() && old(self).bank.wf() && old(self).db.wf()
                && old(self).trie.wf()),
        ensures
            final(self).wf_in_batch(),
            same_frame(*old(self), *final(self)),
            final(self).account@ == old(self).account@,
            final(self).bank@ == old(self).bank@,
            final(self).account.stashed@ == old(self).account.stashed@.union_prefer_right(old(self).account.cache@),
            final(self).bank.stashed@ == old(self).bank.stashed@.union_prefer_right(old(self).bank.cache@),
    {
        self.account.stash();
        self.bank.stash();
    }

    fn revert(&mut self)
        requires
            old(self).account.wf() && old(self).bank.wf() && old(self).db.wf() && old(self).trie.wf(),
        ensures
            final(self).wf_in_batch(),
            same_frame(*old(self), *final(self)),
            final(self).account@ == old(self).account.stashed_view(),
            final(self).bank@ == old(self).bank.stashed_view(),
            final(self).account.stashed == old(self).account.stashed,
            final(self).bank.stashed == old(self).bank.stashed,
    {
        self.account.revert_cache();
        self.bank.revert_cache();
    }

    /// Runs one transaction: dispatches it, stashes its writes or reverts
    /// them, and raises the caller's nonce whatever the outcome.
    fn apply_tx(&mut self, epoch_id: u64, cycles_price: u64, coinbase: &Address, signed_tx: &SignedTransaction) -> (r:
        Result<Receipt, ExecError>)
        requires
            old(self).wf_in_batch(),
        ensures
            final(self).wf_in_batch(),
            same_frame(*old(self), *final(self)),
            match r {
                Ok(_) => tx_model(old(self).account@, old(self).bank@, *signed_tx) == Ok::<(State, State), ExecError>(
                    (final(self).account@, final(self).bank@),
                ),
                Err(e) => tx_model(old(self).account@, old(self).bank@, *signed_tx) == Err::<(State, State), ExecError>(e),
            },
            match r {
                Ok(receipt) => {
                    let caller = caller_bytes(signed_tx.pubkey@);
                    &&& receipt.tx_hash@ == signed_tx.tx_hash@
                    &&& receipt.epoch_id == epoch_id
                    &&& receipt.cycles_used.asset_id@ == signed_tx.fee.asset_id@
                    &&& receipt.cycles_used.cycle == 0
                    &&& receipt.state_root@.len() == 0
                    &&& nonce_advanced(old(self).account@, final(self).account@, caller)
                    &&& receipt_agrees(receipt.result, old(self).account@, old(self).bank@, *signed_tx)
                    &&& match dispatch_model(old(self).account@, old(self).bank@, caller, signed_tx.action) {
                        Ok((a2, b2)) => inc_nonce_model(a2, caller) == Ok::<State, ExecError>(final(self).account@)
                            && final(self).bank@ == b2 && result_agrees(
                            receipt.result,
                            old(self).account@,
                            a2,
                            caller,
                            signed_tx.action,
                        ),
                        Err(e) => !e.fatal() && receipt.result is Fail && receipt.result->Fail_system@
                            == e.description_of() && receipt.result->Fail_user@.len() == 0 && inc_nonce_model(old(self).account@, caller)
                            == Ok::<State, ExecError>(final(self).account@) && final(self).bank@ == old(self).bank@,
                    }
                },
                Err(e) => signed_tx.pubkey@.len() == 0 && e == ExecError::MalformedPubkey || {
                    let caller = caller_bytes(signed_tx.pubkey@);
                    match dispatch_model(old(self).account@, old(self).bank@, caller, signed_tx.action) {
                        Ok((a2, b2)) => inc_nonce_model(a2, caller) == Err::<State, ExecError>(e),
                        Err(e2) => if e2.fatal() {
                            e == e2
                        } else {
                            inc_nonce_model(old(self).account@, caller) == Err::<State, ExecError>(e)
                        },
                    }
                },
            },
    {
        let tx_hash = copy_bytes(&signed_tx.tx_hash);
        let ictx = match gen_invoke_ctx(epoch_id, cycles_price, &self.chain_id, coinbase, signed_tx) {
            Ok(c) => c,
            Err(e) => return Err(e),
        };
        let ghost acc0 = self.account@;
        let ghost bank0 = self.bank@;
        let ghost caller = ictx.caller.bytes_of();
        let res = match self.dispatch(&ictx, signed_tx) {
            Ok(res) => {
                self.stash();
                res
            },
            Err(e) => {
                if e.is_fatal() {
                    self.revert();
                    return Err(e);
                }
                self.revert();
                assert(self.account@ == acc0) by {
                    assert(old(self).account.stashed_view() =~= old(self).account@);
                }
                assert(self.bank@ == bank0) by {
                    assert(old(self).bank.stashed_view() =~= old(self).bank@);
                }
                ReceiptResult::Fail { system: e.description(), user: String::new() }
            },
        };
        let ghost mid = self.account@;
        proof {
            if dispatch_model(acc0, bank0, caller, signed_tx.action) is Ok {
                lemma_dispatch_keeps_nonce(acc0, bank0, caller, signed_tx.action);
            }
        }
        match account::inc_nonce(&mut self.account, &ictx) {
            Err(e) => {
                self.revert();
                return Err(e);
            },
            Ok(()) => {},
        }
        proof {
            lemma_inc_nonce_advances(mid, self.account@, caller);
        }
        self.stash();
        Ok(Receipt {
            state_root: Vec::new(),
            epoch_id: ictx.epoch_id,
            cycles_used: Fee { asset_id: copy_bytes(&ictx.cycles_used.asset_id), cycle: ictx.cycles_used.cycle },
            result: res,
            tx_hash,
        })
    }
}

/// The account state after crediting `coinbase` with each fee in turn.
pub open spec fn credit_all(m: State, coinbase: Seq<u8>, fees: Seq<(Seq<u8>, u64)>) -> Result<State, ExecError>
    decreases fees.len(),
{
    if fees.len() == 0 {
        Ok(m)
    } else {
        match credit_all(m, coinbase, fees.drop_last()) {
            Err(e) => Err(e),
            Ok(m1) => account::add_balance_model(m1, fees.last().0, coinbase, fees.last().1 as nat),
        }
    }
}

impl TransactionExecutor {
    /// Credits `coinbase` with every aggregated fee.
    fn reward_coinbase(&mut self, coinbase: &Address, all_cycles_used: &Vec<Fee>) -> (r: Result<(), ExecError>)
        requires
            old(self).wf_in_batch(),
        ensures
            final(self).wf_in_batch(),
            same_frame(*old(self), *final(self)),
            final(self).bank@ == old(self).bank@,
            match r {
                Ok(()) => credit_all(old(self).account@, coinbase.bytes_of(), fee_views(all_cycles_used@)) == Ok::<
                    State,
                    ExecError,
                >(final(self).account@),
                Err(e) => credit_all(old(self).account@, coinbase.bytes_of(), fee_views(all_cycles_used@)) == Err::<
                    State,
                    ExecError,
                >(e),
            },
    {
        let mut i: usize = 0;
        while i < all_cycles_used.len()
            invariant
                i <= all_cycles_used@.len(),
                self.account.wf(),
                self.bank.wf(),
                self.db.wf(),
                self.trie.wf(),
                self.bank.settled(),
                same_frame(*old(self), *self),
                self.bank@ == old(self).bank@,
                self.account.stashed == old(self).account.stashed,
                credit_all(old(self).account@, coinbase.bytes_of(), fee_views(all_cycles_used@.take(i as int))) == Ok::<
                    State,
                    ExecError,
                >(self.account@),
            decreases all_cycles_used@.len() - i,
        {
            assert(fee_views(all_cycles_used@.take(i + 1)).drop_last() =~= fee_views(all_cycles_used@.take(i as int)));
            let f = &all_cycles_used[i];
            match account::add_balance(&mut self.account, &f.asset_id, coinbase, f.cycle as u128) {
                Err(e) => {
                    proof {
                        assert(fee_views(all_cycles_used@).take(i + 1) =~= fee_views(all_cycles_used@.take(i + 1)));
                        lemma_credit_all_err(old(self).account@, coinbase.bytes_of(), fee_views(all_cycles_used@), i + 1, e);
                    }
                    self.revert();
                    return Err(e);
                },
                Ok(()) => {},
            }
            i = i + 1;
        }
        assert(all_cycles_used@.take(i as int) =~= all_cycles_used@);
        self.stash();
        Ok(())
    }

    /// Flushes every contract's stashed writes, records each contract's root in
    /// the root trie, and returns the new state root.
    fn commit(&mut self) -> (r: Vec<u8>)
        requires
            old(self).wf_in_batch(),
        ensures
            final(self).wf(),
            final(self).chain_id == old(self).chain_id,
            final(self).account@ == old(self).account@,
            final(self).bank@ == old(self).bank@,
            final(self).trie@ == old(self).trie@.insert(
                native_contract_bytes(ACCOUNT_CONTRACT_ID),
                final(self).account.trie.root(),
            ).insert(native_contract_bytes(BANK_CONTRACT_ID), final(self).bank.trie.root()),
            r@ == final(self).trie.root(),
            final(self).db.holds_root(r@),
            final(self).db.holds_root(final(self).account.trie.root()),
            final(self).db.holds_root(final(self).bank.trie.root()),
            final(self).trie@ == root_trie_after(old(self).trie@, old(self).account@, old(self).bank@),
            r@ == map_root(final(self).trie@),
            reopenable(final(self).db, r@),
    {
        let account_root = self.account.commit();
        let _ = self.db.put(&self.account.trie);
        let bank_root = self.bank.commit();
        let _ = self.db.put(&self.bank.trie);
        let account_address = native_contract_address(ACCOUNT_CONTRACT_ID).as_bytes();
        self.trie.insert(&account_address, &account_root);
        let bank_address = native_contract_address(BANK_CONTRACT_ID).as_bytes();
        self.trie.insert(&bank_address, &bank_root);
        assert(self.account@ =~= old(self).account@);
        assert(self.bank@ =~= old(self).bank@);
        proof {
            assert(self.account.trie@ =~= self.account@);
            assert(self.bank.trie@ =~= self.bank@);
            lemma_root_of_contents(self.account.trie);
            lemma_root_of_contents(self.bank.trie);
            lemma_root_of_contents(self.trie);
        }
        let root = self.db.put(&self.trie);
        proof {
            let last = self.db.snapshots@.len() - 1;
            assert forall|j: int| #[trigger] self.db.latest_with_root(j, root@) implies j == last by {
                if j < last {
                    assert(self.db.snapshots@[last].root@ == root@);
                }
            }
        }
        root
    }

    /// Drops every staged write: the state is again the committed one.
    fn discard(&mut self)
        requires
            old(self).account.wf() && old(self).bank.wf() && old(self).db.wf() && old(self).trie.wf(),
        ensures
            final(self).wf(),
            same_frame(*old(self), *final(self)),
            final(self).account@ == old(self).account.trie@,
            final(self).bank@ == old(self).bank.trie@,
    {
        self.account.stashed = KvMap::new();
        self.account.cache = KvMap::new();
        self.bank.stashed = KvMap::new();
        self.bank.cache = KvMap::new();
        assert(self.account@ =~= self.account.trie@);
        assert(self.bank@ =~= self.bank.trie@);
    }

    /// Runs one epoch's batch in order and commits its state. A batch-fatal
    /// error leaves the state as it was before the batch.
    pub fn exec(&mut self, epoch_id: u64, cycles_price: u64, coinbase: Address, signed_txs: Vec<SignedTransaction>) -> (r:
        Result<ExecutorExecResp, ExecError>)
        requires
            old(self).wf(),
        ensures
            final(self).wf(),
            final(self).chain_id == old(self).chain_id,
            match r {
                Ok(resp) => {
                    &&& resp.receipts@.len() == signed_txs@.len()
                    &&& forall|i: int| 0 <= i < signed_txs@.len() ==> {
                        &&& (#[trigger] resp.receipts@[i]).tx_hash@ == signed_txs@[i].tx_hash@
                        &&& resp.receipts@[i].epoch_id == epoch_id
                        &&& resp.receipts@[i].state_root@ == resp.state_root@
                        &&& resp.receipts@[i].cycles_used.asset_id@ == signed_txs@[i].fee.asset_id@
                        &&& resp.receipts@[i].cycles_used.cycle == 0
                        &&& receipt_agrees(
                            resp.receipts@[i].result,
                            state_before(old(self).account@, old(self).bank@, signed_txs@, i).0,
                            state_before(old(self).account@, old(self).bank@, signed_txs@, i).1,
                            signed_txs@[i],
                        )
                    }
                    &&& resp.state_root@ == final(self).trie.root()
                    &&& final(self).db.holds_root(resp.state_root@)
                    &&& reopenable(final(self).db, resp.state_root@)
                    &&& aggregate_model(fee_views(cycles_of(resp.receipts@))) == Some(fee_views(resp.all_cycles_used@))
                    &&& distinct_assets(resp.all_cycles_used@)
                    &&& forall|a: Seq<u8>| #[trigger] fee_total(resp.all_cycles_used@, a) == fee_total(
                        cycles_of(resp.receipts@),
                        a,
                    )
                    &&& resp.logs_bloom@.len() == 0
                    &&& epoch_model(
                        old(self).account@,
                        old(self).bank@,
                        old(self).trie@,
                        coinbase.bytes_of(),
                        signed_txs@,
                    ) == Ok::<(State, State, State, Seq<u8>), ExecError>(
                        (final(self).account@, final(self).bank@, final(self).trie@, resp.state_root@),
                    )
                    &&& match batch_model(old(self).account@, old(self).bank@, signed_txs@) {
                        Ok((a, b)) => credit_all(a, coinbase.bytes_of(), fee_views(resp.all_cycles_used@)) == Ok::<
                            State,
                            ExecError,
                        >(final(self).account@) && final(self).bank@ == b,
                        Err(_) => false,
                    }
                },
                Err(e) => final(self).account@ == old(self).account@ && final(self).bank@ == old(self).bank@
                    && final(self).trie == old(self).trie && epoch_model(
                    old(self).account@,
                    old(self).bank@,
                    old(self).trie@,
                    coinbase.bytes_of(),
                    signed_txs@,
                ) == Err::<(State, State, State, Seq<u8>), ExecError>(e),
            },
    {
        assert(old(self).account@ =~= old(self).account.trie@);
        assert(old(self).bank@ =~= old(self).bank.trie@);
        let mut receipts: Vec<Receipt> = Vec::new();
        let mut i: usize = 0;
        while i < signed_txs.len()
            invariant
                self.wf_in_batch(),
                same_frame(*old(self), *self),
                old(self).account@ == old(self).account.trie@,
                old(self).bank@ == old(self).bank.trie@,
                i <= signed_txs@.len(),
                batch_model(old(self).account@, old(self).bank@, signed_txs@.take(i as int)) == Ok::<
                    (State, State),
                    ExecError,
                >((self.account@, self.bank@)),
                receipts@.len() == i,
                forall|j: int| 0 <= j < i ==> {
                    &&& (#[trigger] receipts@[j]).tx_hash@ == signed_txs@[j].tx_hash@
                    &&& receipts@[j].epoch_id == epoch_id
                    &&& receipts@[j].cycles_used.asset_id@ == signed_txs@[j].fee.asset_id@
                    &&& receipts@[j].cycles_used.cycle == 0
                    &&& receipt_agrees(
                        receipts@[j].result,
                        state_before(old(self).account@, old(self).bank@, signed_txs@, j).0,
                        state_before(old(self).account@, old(self).bank@, signed_txs@, j).1,
                        signed_txs@[j],
                    )
                },
            decreases signed_txs@.len() - i,
        {
            assert(signed_txs@.take(i + 1).drop_last() =~= signed_txs@.take(i as int));
            match self.apply_tx(epoch_id, cycles_price, &coinbase, &signed_txs[i]) {
                Err(e) => {
                    proof {
                        lemma_batch_err(old(self).account@, old(self).bank@, signed_txs@, i + 1, e);
                    }
                    self.discard();
                    return Err(e);
                },
                Ok(receipt) => {
                    proof {
                        assert(signed_txs@.take(i + 1).take(i as int) =~= signed_txs@.take(i as int));
                        assert forall|j: int| 0 <= j < i implies signed_txs@.take(j) == #[trigger] signed_txs@.take(
                            i + 1,
                        ).take(j) by {
                            assert(signed_txs@.take(j) =~= signed_txs@.take(i + 1).take(j));
                        }
                    }
                    receipts.push(receipt);
                },
            }
            i = i + 1;
        }
        assert(signed_txs@.take(i as int) =~= signed_txs@);
        assert(fee_views(cycles_of(receipts@)) =~= charged_fees(signed_txs@));
        let ghost batch_acc = self.account@;
        let ghost batch_bank = self.bank@;
        let all_cycles_used = match aggregate_fees(&receipts) {
            Ok(all) => all,
            Err(e) => {
                self.discard();
                return Err(e);
            },
        };
        assert(batch_model(old(self).account@, old(self).bank@, signed_txs@) == Ok::<(State, State), ExecError>(
            (batch_acc, batch_bank),
        ));
        match self.reward_coinbase(&coinbase, &all_cycles_used) {
            Err(e) => {
                self.discard();
                return Err(e);
            },
            Ok(()) => {},
        }
        let state_root = self.commit();
        let ghost before = receipts@;
        let mut j: usize = 0;
        while j < receipts.len()
            invariant
                j <= receipts@.len(),
                receipts@.len() == before.len(),
                forall|k: int| 0 <= k < receipts@.len() ==> {
                    &&& (#[trigger] receipts@[k]).tx_hash == before[k].tx_hash
                    &&& receipts@[k].epoch_id == before[k].epoch_id
                    &&& receipts@[k].cycles_used == before[k].cycles_used
                    &&& receipts@[k].result == before[k].result
                },
                forall|k: int| 0 <= k < j ==> (#[trigger] receipts@[k]).state_root@ == state_root@,
            decreases receipts@.len() - j,
        {
            let root = copy_bytes(&state_root);
            let mut rc = receipts.remove(j);
            rc.state_root = root;
            receipts.insert(j, rc);
            j = j + 1;
        }
        assert(cycles_of(receipts@) =~= cycles_of(before));
        Ok(ExecutorExecResp { receipts, all_cycles_used, logs_bloom: Vec::new(), state_root })
    }
}

impl TransactionExecutor {
    /// The balance of `addr` in `asset_id`.
    pub fn get_balance(&self, asset_id: &Vec<u8>, addr: &Address) -> (r: Result<u128, ExecError>)
        requires
            self.wf(),
        ensures
            match r {
                Ok(v) => balance_in(self.account@, asset_id@, addr.bytes_of()) == Ok::<nat, ExecError>(v as nat),
                Err(e) => balance_in(self.account@, asset_id@, addr.bytes_of()) == Err::<nat, ExecError>(e),
            },
    {
        account::get_balance(&self.account, asset_id, addr)
    }

    /// The nonce of `addr`.
    pub fn get_nonce(&self, addr: &Address) -> (r: Result<u64, ExecError>)
        requires
            self.wf(),
        ensures
            match r {
                Ok(v) => nonce_in(self.account@, addr.bytes_of()) == Ok::<nat, ExecError>(v as nat),
                Err(e) => nonce_in(self.account@, addr.bytes_of()) == Err::<nat, ExecError>(e),
            },
    {
        account::get_nonce(&self.account, addr)
    }

    /// The asset registered under `asset_id`.
    pub fn get_asset(&self, asset_id: &Vec<u8>) -> (r: Result<bank::Asset, ExecError>)
        requires
            self.wf(),
        ensures
            match r {
                Ok(a) => asset_supply_in(self.bank@, asset_id@) == Ok::<nat, ExecError>(a.supply as nat)
                    && a.id@ == asset_id@,
                Err(e) => asset_supply_in(self.bank@, asset_id@) == Err::<nat, ExecError>(e),
            },
    {
        bank::get_asset(&self.bank, asset_id)
    }

    /// The root of the last committed state.
    pub fn state_root(&self) -> (r: Vec<u8>)
        ensures
            r@ == self.trie.root(),
    {
        self.trie.root_hash()
    }

    /// The backing store, to reopen a committed root from.
    pub fn into_db(self) -> (r: TrieDb)
        ensures
            r == self.db,
    {
        self.db
    }

    /// Allocates `amount` of `asset_id` to `addr` outside any transaction, as a
    /// genesis allocation does, and commits the new state.
    pub fn genesis_credit(&mut self, asset_id: &Vec<u8>, addr: &Address, amount: u128) -> (r: Result<Vec<u8>, ExecError>)
        requires
            old(self).wf(),
        ensures
            final(self).wf(),
            final(self).chain_id == old(self).chain_id,
            final(self).bank@ == old(self).bank@,
            match r {
                Ok(root) => account::add_balance_model(old(self).account@, asset_id@, addr.bytes_of(), amount as nat)
                    == Ok::<State, ExecError>(final(self).account@) && root@ == final(self).trie.root(),
                Err(e) => account::add_balance_model(old(self).account@, asset_id@, addr.bytes_of(), amount as nat)
                    == Err::<State, ExecError>(e) && final(self).account@ == old(self).account@,
            },
    {
        assert(old(self).account@ =~= old(self).account.trie@);
        match account::add_balance(&mut self.account, asset_id, addr, amount) {
            Err(e) => {
                self.discard();
                return Err(e);
            },
            Ok(()) => {},
        }
        self.stash();
        Ok(self.commit())
    }
}

/// Every processed transaction raises its caller's nonce by exactly one,
/// whether its dispatch succeeded (and the nonce is raised over the state it
/// left) or failed (and the nonce is raised over the state before it).
pub proof fn lemma_nonce_advances_by_one(
    acc: State,
    bank: State,
    caller: Seq<u8>,
    action: TransactionAction,
    fin: State,
)
    requires
        match dispatch_model(acc, bank, caller, action) {
            Ok((a2, _)) => inc_nonce_model(a2, caller) == Ok::<State, ExecError>(fin),
            Err(_) => inc_nonce_model(acc, caller) == Ok::<State, ExecError>(fin),
        },
    ensures
        nonce_advanced(acc, fin, caller),
{
    match dispatch_model(acc, bank, caller, action) {
        Ok((a2, _)) => {
            lemma_dispatch_keeps_nonce(acc, bank, caller, action);
            lemma_inc_nonce_advances(a2, fin, caller);
        },
        Err(_) => {
            lemma_inc_nonce_advances(acc, fin, caller);
        },
    }
}

/// A transfer of an asset that is not registered fails with `AssetNotFound`,
/// and the nonce increment that follows leaves every balance as it was.
pub proof fn lemma_unknown_asset_safety(
    acc: State,
    bank: State,
    caller: Seq<u8>,
    action: TransactionAction,
    fin: State,
)
    requires
        action is Transfer,
        asset_supply_in(bank, action->Transfer_carrying_asset.asset_id@) == Err::<nat, ExecError>(
            ExecError::AssetNotFound,
        ),
        inc_nonce_model(acc, caller) == Ok::<State, ExecError>(fin),
    ensures
        dispatch_model(acc, bank, caller, action) == Err::<(State, State), ExecError>(ExecError::AssetNotFound),
        forall|asset: Seq<u8>, addr: Seq<u8>| #[trigger] balance_in(fin, asset, addr) == balance_in(acc, asset, addr),
{
    let n = nonce_in(acc, caller)->Ok_0;
    assert forall|asset: Seq<u8>, addr: Seq<u8>| #[trigger] balance_in(fin, asset, addr) == balance_in(
        acc,
        asset,
        addr,
    ) by {
        assert(balance_key(asset, addr)[0] != nonce_key(caller)[0]);
        assert(fin == acc.insert(nonce_key(caller), le_bytes(n + 1, 8)));
    }
}

/// Distinct asset ids give the same address distinct balance keys.
pub proof fn lemma_balance_key_injective(a1: Seq<u8>, a2: Seq<u8>, addr: Seq<u8>)
    requires
        a1.len() <= usize::MAX,
        a2.len() <= usize::MAX,
        balance_key(a1, addr) == balance_key(a2, addr),
    ensures
        a1 == a2,
{
    let k1 = balance_key(a1, addr);
    let k2 = balance_key(a2, addr);
    lemma_pow256_facts();
    lemma_le_bytes_len(a1.len(), 8);
    lemma_le_bytes_len(a2.len(), 8);
    assert(le_bytes(a1.len(), 8) =~= k1.subrange(1, 9));
    assert(le_bytes(a2.len(), 8) =~= k2.subrange(1, 9));
    crate::bytes::lemma_le_bytes_injective(a1.len(), a2.len(), 8);
    assert(a1 =~= k1.subrange(9, 9 + a1.len() as int));
    assert(a2 =~= k2.subrange(9, 9 + a2.len() as int));
}

/// Fee conservation: crediting the coinbase with per-asset fee totals raises
/// its balance in each asset by exactly what the fees count toward that asset.
pub proof fn lemma_fee_conservation(m: State, coinbase: Seq<u8>, fees: Seq<Fee>, fin: State)
    requires
        distinct_assets(fees),
        forall|i: int| 0 <= i < fees.len() ==> (#[trigger] fees[i]).asset_id@.len() <= usize::MAX,
        credit_all(m, coinbase, fee_views(fees)) == Ok::<State, ExecError>(fin),
    ensures
        forall|asset: Seq<u8>| asset.len() <= usize::MAX && (#[trigger] balance_in(m, asset, coinbase)) is Ok
            ==> balance_in(fin, asset, coinbase) == Ok::<nat, ExecError>(
            balance_in(m, asset, coinbase)->Ok_0 + crate::fees::fee_total(fees, asset),
        ),
    decreases fees.len(),
{
    if fees.len() == 0 {
    } else {
        let d = fees.drop_last();
        let last = fees.last();
        assert(fee_views(fees).drop_last() =~= fee_views(d));
        let m1 = credit_all(m, coinbase, fee_views(d))->Ok_0;
        assert(distinct_assets(d)) by {
            assert forall|i: int, j: int| 0 <= i < j < d.len() implies (#[trigger] d[i]).asset_id@ != (
            #[trigger] d[j]).asset_id@ by {
                assert(d[i] == fees[i] && d[j] == fees[j]);
            }
        }
        assert forall|i: int| 0 <= i < d.len() implies (#[trigger] d[i]).asset_id@.len() <= usize::MAX by {
            assert(d[i] == fees[i]);
        }
        lemma_fee_conservation(m, coinbase, d, m1);
        let la = last.asset_id@;
        let b = balance_in(m1, la, coinbase)->Ok_0;
        assert(fin == m1.insert(balance_key(la, coinbase), le_bytes(b + last.cycle as nat, 16)));
        assert forall|asset: Seq<u8>| asset.len() <= usize::MAX && (#[trigger] balance_in(m, asset, coinbase)) is Ok
            implies balance_in(fin, asset, coinbase) == Ok::<nat, ExecError>(
            balance_in(m, asset, coinbase)->Ok_0 + crate::fees::fee_total(fees, asset),
        ) by {
            if asset == la {
                lemma_balance_reads_back(m1, la, coinbase, b + last.cycle as nat);
            } else {
                if balance_key(asset, coinbase) == balance_key(la, coinbase) {
                    lemma_balance_key_injective(asset, la, coinbase);
                }
            }
        }
    }
}

/// Two receipt results that say the same thing, field by field.
pub open spec fn same_result(a: ReceiptResult, b: ReceiptResult) -> bool {
    match (a, b) {
        (
            ReceiptResult::Transfer { receiver: r1, asset_id: a1, before_amount: b1, after_amount: f1 },
            ReceiptResult::Transfer { receiver: r2, asset_id: a2, before_amount: b2, after_amount: f2 },
        ) => r1@ == r2@ && a1@ == a2@ && b1 == b2 && f1 == f2,
        (
            ReceiptResult::Deploy { contract: c1, contract_type: t1 },
            ReceiptResult::Deploy { contract: c2, contract_type: t2 },
        ) => c1@ == c2@ && t1 == t2,
        (ReceiptResult::Fail { system: s1, user: u1 }, ReceiptResult::Fail { system: s2, user: u2 }) => s1@ == s2@
            && u1@ == u2@,
        _ => false,
    }
}

/// Determinism of receipts: for a transaction run against given account and
/// bank states, the receipt result that `exec` promises is unique, so running
/// the same batch from the same state reports the same results. (The states
/// and root that `exec` promises are the single value of `epoch_model`, and its
/// fee list the single value of `aggregate_model` over the receipts' fees.)
pub proof fn lemma_receipt_determinism(r1: ReceiptResult, r2: ReceiptResult, acc: State, bank: State, tx: SignedTransaction)
    requires
        receipt_agrees(r1, acc, bank, tx),
        receipt_agrees(r2, acc, bank, tx),
    ensures
        same_result(r1, r2),
{
    let caller = caller_bytes(tx.pubkey@);
    match dispatch_model(acc, bank, caller, tx.action) {
        Ok((a2, _)) => {
            match tx.action {
                TransactionAction::Deploy { code, .. } => {
                    let n1 = choose|n: nat| nonce_in(acc, caller) == Ok::<nat, ExecError>(n)
                        && r1->Deploy_contract@ == seq![CONTRACT_TAG] + contract_hash_of(code@, n, ContractType::Asset);
                    let n2 = choose|n: nat| nonce_in(acc, caller) == Ok::<nat, ExecError>(n)
                        && r2->Deploy_contract@ == seq![CONTRACT_TAG] + contract_hash_of(code@, n, ContractType::Asset);
                    assert(n1 == n2);
                },
                _ => {},
            }
        },
        Err(_) => {
            assert(r1->Fail_user@ =~= r2->Fail_user@);
        },
    }
}

proof fn lemma_batch_err(acc: State, bank: State, txs: Seq<SignedTransaction>, n: int, e: ExecError)
    requires
        0 < n <= txs.len(),
        batch_model(acc, bank, txs.take(n)) == Err::<(State, State), ExecError>(e),
    ensures
        batch_model(acc, bank, txs) == Err::<(State, State), ExecError>(e),
    decreases txs.len(),
{
    if n < txs.len() {
        assert(txs.drop_last().take(n) =~= txs.take(n));
        lemma_batch_err(acc, bank, txs.drop_last(), n, e);
    } else {
        assert(txs.take(n) =~= txs);
    }
}

proof fn lemma_credit_all_err(m: State, coinbase: Seq<u8>, fees: Seq<(Seq<u8>, u64)>, n: int, e: ExecError)
    requires
        0 < n <= fees.len(),
        credit_all(m, coinbase, fees.take(n)) == Err::<State, ExecError>(e),
    ensures
        credit_all(m, coinbase, fees) == Err::<State, ExecError>(e),
    decreases fees.len(),
{
    if n < fees.len() {
        assert(fees.drop_last().take(n) =~= fees.take(n));
        lemma_credit_all_err(m, coinbase, fees.drop_last(), n, e);
    } else {
        assert(fees.take(n) =~= fees);
    }
}

} // verus!
