//! The native account contract: balances per (asset, address) and nonces per
//! address, read and written only through its own staged state.

use vstd::prelude::*;
use crate::adapter::ContractStateAdapter;
use crate::bytes::{concat, decode_le, encode_le, from_le, le_bytes, lemma_from_le_bound,
    lemma_le_bytes_len, lemma_le_round_trip, lemma_pow256_facts, pow256};
use crate::types::{Address, ExecError, InvokeContext};

verus! {

pub const BALANCE_PREFIX: u8 = 0x62;

pub const NONCE_PREFIX: u8 = 0x6e;

pub const BALANCE_WIDTH: usize = 16;

pub const NONCE_WIDTH: usize = 8;

pub type State = Map<Seq<u8>, Seq<u8>>;

/// Where the balance of `addr` in `asset` is stored. The asset id's length
/// comes first, so distinct (asset, address) pairs never share a key.
pub open spec fn balance_key(asset: Seq<u8>, addr: Seq<u8>) -> Seq<u8> {
    seq![BALANCE_PREFIX] + le_bytes(asset.len(), 8) + asset + addr
}

/// Where the nonce of `addr` is stored.
pub open spec fn nonce_key(addr: Seq<u8>) -> Seq<u8> {
    seq![NONCE_PREFIX] + addr
}

/// The balance stored under a key: zero where nothing is stored.
pub open spec fn stored_amount(m: State, k: Seq<u8>, width: nat) -> Result<nat, ExecError> {
    if !m.contains_key(k) {
        Ok(0)
    } else if m[k].len() == width {
        Ok(from_le(m[k]))
    } else {
        Err(ExecError::MalformedState)
    }
}

pub open spec fn balance_in(m: State, asset: Seq<u8>, addr: Seq<u8>) -> Result<nat, ExecError> {
    stored_amount(m, balance_key(asset, addr), 16)
}

pub open spec fn nonce_in(m: State, addr: Seq<u8>) -> Result<nat, ExecError> {
    stored_amount(m, nonce_key(addr), 8)
}

/// The state after crediting `amount` of `asset` to `addr`.
pub open spec fn add_balance_model(m: State, asset: Seq<u8>, addr: Seq<u8>, amount: nat) -> Result<State, ExecError> {
    match balance_in(m, asset, addr) {
        Err(e) => Err(e),
        Ok(b) => if b + amount > u128::MAX {
            Err(ExecError::BalanceOverflow)
        } else {
            Ok(m.insert(balance_key(asset, addr), le_bytes(b + amount, 16)))
        },
    }
}

/// The state after debiting `amount` of `asset` from `addr`.
pub open spec fn sub_balance_model(m: State, asset: Seq<u8>, addr: Seq<u8>, amount: nat) -> Result<State, ExecError> {
    match balance_in(m, asset, addr) {
        Err(e) => Err(e),
        Ok(b) => if b < amount {
            Err(ExecError::InsufficientBalance)
        } else {
            Ok(m.insert(balance_key(asset, addr), le_bytes((b - amount) as nat, 16)))
        },
    }
}

/// The state after moving `amount` of `asset` from `from` to `to`.
pub open spec fn transfer_model(m: State, asset: Seq<u8>, from: Seq<u8>, to: Seq<u8>, amount: nat) -> Result<State, ExecError> {
    match sub_balance_model(m, asset, from, amount) {
        Err(e) => Err(e),
        Ok(m1) => add_balance_model(m1, asset, to, amount),
    }
}

/// The state after raising the nonce of `addr` by one.
pub open spec fn inc_nonce_model(m: State, addr: Seq<u8>) -> Result<State, ExecError> {
    match nonce_in(m, addr) {
        Err(e) => Err(e),
        Ok(n) => if n >= u64::MAX {
            Err(ExecError::NonceOverflow)
        } else {
            Ok(m.insert(nonce_key(addr), le_bytes(n + 1, 8)))
        },
    }
}

/// What a change of `state` means for the model: it changed exactly as `model`
/// says, or failed with the error `model` gives and touched nothing stashed.
pub open spec fn follows(
    before: ContractStateAdapter,
    after: ContractStateAdapter,
    r: Result<(), ExecError>,
    model: Result<State, ExecError>,
) -> bool {
    &&& after.wf()
    &&& after.trie == before.trie
    &&& after.stashed == before.stashed
    &&& match r {
        Ok(()) => model == Ok::<State, ExecError>(after@),
        Err(e) => model == Err::<State, ExecError>(e),
    }
}

pub fn balance_key_of(asset: &Vec<u8>, addr: &Vec<u8>) -> (r: Vec<u8>)
    ensures
        r@ == balance_key(asset@, addr@),
{
    proof {
        lemma_pow256_facts();
    }
    let p: Vec<u8> = vec![BALANCE_PREFIX];
    let len = encode_le(asset.len() as u128, 8);
    let a = concat(&p, &len);
    let b = concat(&a, asset);
    let r = concat(&b, addr);
    assert(p@ =~= seq![BALANCE_PREFIX]);
    r
}

pub fn nonce_key_of(addr: &Vec<u8>) -> (r: Vec<u8>)
    ensures
        r@ == nonce_key(addr@),
{
    let p: Vec<u8> = vec![NONCE_PREFIX];
    assert(p@ =~= seq![NONCE_PREFIX]);
    concat(&p, addr)
}

fn read_amount(state: &ContractStateAdapter, key: &Vec<u8>, width: usize) -> (r: Result<u128, ExecError>)
    requires
        state.wf(),
        width <= 16,
    ensures
        match r {
            Ok(v) => stored_amount(state@, key@, width as nat) == Ok::<nat, ExecError>(v as nat),
            Err(e) => stored_amount(state@, key@, width as nat) == Err::<nat, ExecError>(e),
        },
{
    match state.get(key) {
        None => Ok(0),
        Some(v) => {
            if v.len() == width {
                Ok(decode_le(&v))
            } else {
                Err(ExecError::MalformedState)
            }
        },
    }
}

/// The balance of `addr` in `asset`; zero where none was ever credited.
pub fn get_balance(state: &ContractStateAdapter, asset: &Vec<u8>, addr: &Address) -> (r: Result<u128, ExecError>)
    requires
        state.wf(),
    ensures
        match r {
            Ok(v) => balance_in(state@, asset@, addr.bytes_of()) == Ok::<nat, ExecError>(v as nat),
            Err(e) => balance_in(state@, asset@, addr.bytes_of()) == Err::<nat, ExecError>(e),
        },
{
    let a = addr.as_bytes();
    let key = balance_key_of(asset, &a);
    read_amount(state, &key, BALANCE_WIDTH)
}

/// The nonce of `addr`; zero for an address never seen.
pub fn get_nonce(state: &ContractStateAdapter, addr: &Address) -> (r: Result<u64, ExecError>)
    requires
        state.wf(),
    ensures
        match r {
            Ok(v) => nonce_in(state@, addr.bytes_of()) == Ok::<nat, ExecError>(v as nat),
            Err(e) => nonce_in(state@, addr.bytes_of()) == Err::<nat, ExecError>(e),
        },
{
    let a = addr.as_bytes();
    let key = nonce_key_of(&a);
    let r = read_amount(state, &key, NONCE_WIDTH);
    match r {
        Ok(v) => {
            proof {
                let s = state@[key@];
                lemma_from_le_bound(s);
                lemma_pow256_facts();
            }
            Ok(v as u64)
        },
        Err(e) => Err(e),
    }
}

fn write_amount(state: &mut ContractStateAdapter, key: &Vec<u8>, v: u128, width: usize)
    requires
        old(state).wf(),
        v < pow256(width as nat),
    ensures
        final(state).wf(),
        final(state)@ == old(state)@.insert(key@, le_bytes(v as nat, width as nat)),
        final(state).trie == old(state).trie,
        final(state).stashed == old(state).stashed,
{
    let bytes = encode_le(v, width);
    state.insert_cache(key, &bytes);
}

/// Credits `amount` of `asset` to `addr`.
pub fn add_balance(state: &mut ContractStateAdapter, asset: &Vec<u8>, addr: &Address, amount: u128) -> (r: Result<(), ExecError>)
    requires
        old(state).wf(),
    ensures
        follows(*old(state), *final(state), r, add_balance_model(old(state)@, asset@, addr.bytes_of(), amount as nat)),
        r is Err ==> *final(state) == *old(state),
{
    let a = addr.as_bytes();
    let key = balance_key_of(asset, &a);
    let b = match read_amount(state, &key, BALANCE_WIDTH) {
        Ok(b) => b,
        Err(e) => return Err(e),
    };
    match b.checked_add(amount) {
        None => Err(ExecError::BalanceOverflow),
        Some(n) => {
            proof {
                lemma_pow256_facts();
            }
            write_amount(state, &key, n, BALANCE_WIDTH);
            Ok(())
        },
    }
}

/// Debits `amount` of `asset` from `addr`.
pub fn sub_balance(state: &mut ContractStateAdapter, asset: &Vec<u8>, addr: &Address, amount: u128) -> (r: Result<(), ExecError>)
    requires
        old(state).wf(),
    ensures
        follows(*old(state), *final(state), r, sub_balance_model(old(state)@, asset@, addr.bytes_of(), amount as nat)),
        r is Err ==> *final(state) == *old(state),
{
    let a = addr.as_bytes();
    let key = balance_key_of(asset, &a);
    let b = match read_amount(state, &key, BALANCE_WIDTH) {
        Ok(b) => b,
        Err(e) => return Err(e),
    };
    if b < amount {
        Err(ExecError::InsufficientBalance)
    } else {
        proof {
            lemma_pow256_facts();
        }
        write_amount(state, &key, b - amount, BALANCE_WIDTH);
        Ok(())
    }
}

/// Moves the asset and amount that `ctx` carries from its caller to `to`.
pub fn transfer(state: &mut ContractStateAdapter, ctx: &InvokeContext, to: &Address) -> (r: Result<(), ExecError>)
    requires
        old(state).wf(),
    ensures
        match ctx.carrying_asset {
            None => r == Err::<(), ExecError>(ExecError::MissingCarryingAsset) && *final(state) == *old(state),
            Some(c) => follows(
                *old(state),
                *final(state),
                r,
                transfer_model(old(state)@, c.asset_id@, ctx.caller.bytes_of(), to.bytes_of(), c.amount as nat),
            ),
        },
{
    let carrying = match &ctx.carrying_asset {
        None => return Err(ExecError::MissingCarryingAsset),
        Some(c) => c,
    };
    match sub_balance(state, &carrying.asset_id, &ctx.caller, carrying.amount) {
        Err(e) => Err(e),
        Ok(()) => add_balance(state, &carrying.asset_id, to, carrying.amount),
    }
}

/// Raises the nonce of the caller of `ctx` by one.
pub fn inc_nonce(state: &mut ContractStateAdapter, ctx: &InvokeContext) -> (r: Result<(), ExecError>)
    requires
        old(state).wf(),
    ensures
        follows(*old(state), *final(state), r, inc_nonce_model(old(state)@, ctx.caller.bytes_of())),
        r is Err ==> *final(state) == *old(state),
{
    let n = match get_nonce(state, &ctx.caller) {
        Ok(n) => n,
        Err(e) => return Err(e),
    };
    if n == u64::MAX {
        Err(ExecError::NonceOverflow)
    } else {
        let a = ctx.caller.as_bytes();
        let key = nonce_key_of(&a);
        proof {
            lemma_pow256_facts();
        }
        write_amount(state, &key, (n + 1) as u128, NONCE_WIDTH);
        Ok(())
    }
}

/// A balance written by the contract reads back as the amount written.
pub proof fn lemma_balance_reads_back(m: State, asset: Seq<u8>, addr: Seq<u8>, v: nat)
    requires
        v <= u128::MAX,
    ensures
        balance_in(m.insert(balance_key(asset, addr), le_bytes(v, 16)), asset, addr) == Ok::<nat, ExecError>(v),
{
    lemma_pow256_facts();
    lemma_le_bytes_len(v, 16);
    lemma_le_round_trip(v, 16);
}

} // verus!
