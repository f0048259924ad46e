//! Deriving addresses and building the context a transaction runs with.

use vstd::prelude::*;
use crate::bytes::{concat, copy_bytes, encode_le, le_bytes, lemma_le_bytes_injective,
    lemma_le_bytes_len, lemma_pow256_facts};
use crate::hash::{keccak256, keccak256_of};
use crate::types::{Address, CarryingAsset, ContractType, ExecError, Fee, InvokeContext,
    SignedTransaction, TransactionAction, USER_TAG};

verus! {

/// The digest that a contract address is taken of: the code, the deployer's
/// nonce in eight bytes, and the contract kind.
pub open spec fn contract_preimage(code: Seq<u8>, nonce: nat, contract_type: ContractType) -> Seq<u8> {
    code + le_bytes(nonce, 8) + seq![contract_type.tag_of()]
}

pub open spec fn contract_hash_of(code: Seq<u8>, nonce: nat, contract_type: ContractType) -> Seq<u8> {
    keccak256_of(contract_preimage(code, nonce, contract_type))
}

/// The address bytes of the sender whose public key is `pubkey`.
pub open spec fn caller_bytes(pubkey: Seq<u8>) -> Seq<u8> {
    seq![USER_TAG] + keccak256_of(pubkey)
}

/// The asset and amount that an action carries.
pub open spec fn carried(action: TransactionAction) -> Option<(Seq<u8>, u128)> {
    match action {
        TransactionAction::Transfer { carrying_asset, .. } => Some((carrying_asset.asset_id@, carrying_asset.amount)),
        TransactionAction::Call { carrying_asset, .. } => match carrying_asset {
            Some(c) => Some((c.asset_id@, c.amount)),
            None => None,
        },
        _ => None,
    }
}

pub open spec fn carried_by(ctx: InvokeContext) -> Option<(Seq<u8>, u128)> {
    match ctx.carrying_asset {
        Some(c) => Some((c.asset_id@, c.amount)),
        None => None,
    }
}

/// The address of a contract deployed with `code` by a caller at `nonce`.
pub fn contract_address_from_code(code: &Vec<u8>, nonce: u64, contract_type: ContractType) -> (r: Address)
    ensures
        match r {
            Address::Contract(h) => h@ == contract_hash_of(code@, nonce as nat, contract_type),
            _ => false,
        },
{
    proof {
        lemma_pow256_facts();
    }
    let n = encode_le(nonce as u128, 8);
    let t: Vec<u8> = vec![contract_type.tag()];
    let a = concat(code, &n);
    let pre = concat(&a, &t);
    assert(t@ =~= seq![contract_type.tag_of()]);
    Address::Contract(keccak256(&pre))
}

/// A contract address depends on the code, the nonce and the kind alone, and
/// no two distinct triples share a preimage: changing any one of them changes
/// what the digest is taken of.
pub proof fn lemma_contract_address_determinism(
    code1: Seq<u8>,
    nonce1: u64,
    type1: ContractType,
    code2: Seq<u8>,
    nonce2: u64,
    type2: ContractType,
)
    ensures
        (code1 == code2 && nonce1 == nonce2 && type1 == type2) ==> contract_hash_of(code1, nonce1 as nat, type1)
            == contract_hash_of(code2, nonce2 as nat, type2),
        contract_preimage(code1, nonce1 as nat, type1) == contract_preimage(code2, nonce2 as nat, type2) ==> (
        code1 == code2 && nonce1 == nonce2 && type1 == type2),
{
    let pre1 = contract_preimage(code1, nonce1 as nat, type1);
    let pre2 = contract_preimage(code2, nonce2 as nat, type2);
    if pre1 == pre2 {
        lemma_le_bytes_len(nonce1 as nat, 8);
        lemma_le_bytes_len(nonce2 as nat, 8);
        assert(pre1.len() == code1.len() + 9);
        assert(pre2.len() == code2.len() + 9);
        assert(code1.len() == code2.len());
        assert(code1 =~= pre1.take(code1.len() as int));
        assert(code2 =~= pre2.take(code2.len() as int));
        let l = code1.len() as int;
        assert(le_bytes(nonce1 as nat, 8) =~= pre1.subrange(l, l + 8));
        assert(le_bytes(nonce2 as nat, 8) =~= pre2.subrange(l, l + 8));
        lemma_pow256_facts();
        lemma_le_bytes_injective(nonce1 as nat, nonce2 as nat, 8);
        assert(pre1[l + 8] == type1.tag_of());
        assert(pre2[l + 8] == type2.tag_of());
    }
}

/// The address of the sender whose public key is `pubkey`; an empty key is
/// refused.
pub fn user_address_from_pubkey(pubkey: &Vec<u8>) -> (r: Result<Address, ExecError>)
    ensures
        match r {
            Ok(a) => pubkey@.len() > 0 && a is User && a.bytes_of() == caller_bytes(pubkey@),
            Err(e) => e == ExecError::MalformedPubkey && pubkey@.len() == 0,
        },
{
    if pubkey.len() == 0 {
        Err(ExecError::MalformedPubkey)
    } else {
        Ok(Address::User(keccak256(pubkey)))
    }
}

pub fn copy_carrying(c: &CarryingAsset) -> (r: CarryingAsset)
    ensures
        r.asset_id@ == c.asset_id@,
        r.amount == c.amount,
{
    CarryingAsset { asset_id: copy_bytes(&c.asset_id), amount: c.amount }
}

/// The context for one transaction. An empty public key is refused.
pub fn gen_invoke_ctx(
    epoch_id: u64,
    cycles_price: u64,
    chain_id: &Vec<u8>,
    coinbase: &Address,
    signed_tx: &SignedTransaction,
) -> (r: Result<InvokeContext, ExecError>)
    ensures
        match r {
            Ok(ctx) => {
                &&& signed_tx.pubkey@.len() > 0
                &&& ctx.caller.bytes_of() == caller_bytes(signed_tx.pubkey@)
                &&& ctx.caller is User
                &&& ctx.coinbase.bytes_of() == coinbase.bytes_of()
                &&& ctx.chain_id@ == chain_id@
                &&& ctx.epoch_id == epoch_id
                &&& ctx.cycles_price == cycles_price
                &&& ctx.cycles_used.asset_id@ == signed_tx.fee.asset_id@
                &&& ctx.cycles_used.cycle == 0
                &&& ctx.cycles_limit.asset_id@ == signed_tx.fee.asset_id@
                &&& ctx.cycles_limit.cycle == signed_tx.fee.cycle
                &&& carried_by(ctx) == carried(signed_tx.action)
            },
            Err(e) => e == ExecError::MalformedPubkey && signed_tx.pubkey@.len() == 0,
        },
{
    let caller = match user_address_from_pubkey(&signed_tx.pubkey) {
        Ok(a) => a,
        Err(e) => return Err(e),
    };
    let carrying_asset = match &signed_tx.action {
        TransactionAction::Transfer { carrying_asset, .. } => Some(copy_carrying(carrying_asset)),
        TransactionAction::Call { carrying_asset, .. } => match carrying_asset {
            Some(c) => Some(copy_carrying(c)),
            None => None,
        },
        _ => None,
    };
    Ok(InvokeContext {
        chain_id: copy_bytes(chain_id),
        cycles_used: Fee { asset_id: copy_bytes(&signed_tx.fee.asset_id), cycle: 0 },
        cycles_limit: Fee { asset_id: copy_bytes(&signed_tx.fee.asset_id), cycle: signed_tx.fee.cycle },
        caller,
        coinbase: coinbase.duplicate(),
        epoch_id,
        cycles_price,
        carrying_asset,
    })
}

} // verus!
