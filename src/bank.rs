//! The native bank contract: the registry of assets. It holds no balances.

use vstd::prelude::*;
use crate::account::{follows, State};
use crate::adapter::ContractStateAdapter;
use crate::bytes::{concat, decode_le, encode_le, from_le, le_bytes, lemma_pow256_facts, sub_bytes};
use crate::types::{Address, ExecError, InvokeContext};

verus! {

pub const ASSET_PREFIX: u8 = 0x61;

/// A registered asset as the transfer logic reads it.
pub struct Asset {
    pub id: Vec<u8>,
    pub supply: u128,
}

/// Where the record of an asset is stored.
pub open spec fn asset_key(id: Seq<u8>) -> Seq<u8> {
    seq![ASSET_PREFIX] + id
}

/// The stored record of an asset: its supply, then its name and symbol, each
/// after its length, then its manager's address.
pub open spec fn asset_record(supply: nat, name: Seq<u8>, symbol: Seq<u8>, manager: Seq<u8>) -> Seq<u8> {
    le_bytes(supply, 16) + le_bytes(name.len(), 8) + name + le_bytes(symbol.len(), 8) + symbol + manager
}

/// The supply of the asset registered under `id`.
pub open spec fn asset_supply_in(m: State, id: Seq<u8>) -> Result<nat, ExecError> {
    if !m.contains_key(asset_key(id)) {
        Err(ExecError::AssetNotFound)
    } else if m[asset_key(id)].len() < 16 {
        Err(ExecError::MalformedState)
    } else {
        Ok(from_le(m[asset_key(id)].take(16)))
    }
}

/// The state after registering an asset under the address `addr`; an id that
/// is registered already is refused.
pub open spec fn register_model(
    m: State,
    addr: Seq<u8>,
    name: Seq<u8>,
    symbol: Seq<u8>,
    supply: nat,
    manager: Seq<u8>,
) -> Result<State, ExecError> {
    if m.contains_key(asset_key(addr)) {
        Err(ExecError::AssetExists)
    } else {
        Ok(m.insert(asset_key(addr), asset_record(supply, name, symbol, manager)))
    }
}

pub fn asset_key_of(id: &Vec<u8>) -> (r: Vec<u8>)
    ensures
        r@ == asset_key(id@),
{
    let p: Vec<u8> = vec![ASSET_PREFIX];
    assert(p@ =~= seq![ASSET_PREFIX]);
    concat(&p, id)
}

/// The asset registered under `asset_id`, or `AssetNotFound`.
pub fn get_asset(state: &ContractStateAdapter, asset_id: &Vec<u8>) -> (r: Result<Asset, ExecError>)
    requires
        state.wf(),
    ensures
        match r {
            Ok(a) => asset_supply_in(state@, asset_id@) == Ok::<nat, ExecError>(a.supply as nat)
                && a.id@ == asset_id@,
            Err(e) => asset_supply_in(state@, asset_id@) == Err::<nat, ExecError>(e),
        },
{
    let key = asset_key_of(asset_id);
    match state.get(&key) {
        None => Err(ExecError::AssetNotFound),
        Some(v) => {
            if v.len() < 16 {
                Err(ExecError::MalformedState)
            } else {
                let s = sub_bytes(&v, 0, 16);
                assert(v@.subrange(0, 16) =~= v@.take(16));
                Ok(Asset { id: crate::bytes::copy_bytes(asset_id), supply: decode_le(&s) })
            }
        },
    }
}

/// Registers an asset under the bytes of `address`, managed by the caller of
/// `ctx`.
pub fn register(
    state: &mut ContractStateAdapter,
    ctx: &InvokeContext,
    address: &Address,
    name: &Vec<u8>,
    symbol: &Vec<u8>,
    supply: u128,
) -> (r: Result<(), ExecError>)
    requires
        old(state).wf(),
    ensures
        follows(
            *old(state),
            *final(state),
            r,
            register_model(old(state)@, address.bytes_of(), name@, symbol@, supply as nat, ctx.caller.bytes_of()),
        ),
        r is Err ==> *final(state) == *old(state),
{
    let id = address.as_bytes();
    let key = asset_key_of(&id);
    if state.get(&key).is_some() {
        return Err(ExecError::AssetExists);
    }
    proof {
        lemma_pow256_facts();
    }
    let s = encode_le(supply, 16);
    let nl = encode_le(name.len() as u128, 8);
    let sl = encode_le(symbol.len() as u128, 8);
    let manager = ctx.caller.as_bytes();
    let r1 = concat(&s, &nl);
    let r2 = concat(&r1, name);
    let r3 = concat(&r2, &sl);
    let r4 = concat(&r3, symbol);
    let record = concat(&r4, &manager);
    state.insert_cache(&key, &record);
    Ok(())
}

} // verus!
