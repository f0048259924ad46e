//! Ledger values: addresses, fees, transactions, receipts and errors.

use vstd::prelude::*;

verus! {

/// A sender or a contract. Each holds the digest that identifies it.
pub enum Address {
    User(Vec<u8>),
    Contract(Vec<u8>),
}

pub const USER_TAG: u8 = 0x10;

pub const CONTRACT_TAG: u8 = 0x23;

impl Address {
    /// The address as bytes: a tag for its kind, then its digest.
    pub open spec fn bytes_of(&self) -> Seq<u8> {
        match self {
            Address::User(h) => seq![USER_TAG] + h@,
            Address::Contract(h) => seq![CONTRACT_TAG] + h@,
        }
    }

    pub fn as_bytes(&self) -> (r: Vec<u8>)
        ensures
            r@ == self.bytes_of(),
    {
        let (tag, h) = match self {
            Address::User(h) => (USER_TAG, h),
            Address::Contract(h) => (CONTRACT_TAG, h),
        };
        let t: Vec<u8> = vec![tag];
        let r = crate::bytes::concat(&t, h);
        assert(t@ =~= seq![tag]);
        r
    }

    pub fn duplicate(&self) -> (r: Address)
        ensures
            r.bytes_of() == self.bytes_of(),
            match (self, r) {
                (Address::User(a), Address::User(b)) => a@ == b@,
                (Address::Contract(a), Address::Contract(b)) => a@ == b@,
                _ => false,
            },
    {
        match self {
            Address::User(h) => Address::User(crate::bytes::copy_bytes(h)),
            Address::Contract(h) => Address::Contract(crate::bytes::copy_bytes(h)),
        }
    }
}

#[derive(Clone, Copy, Debug, PartialEq, Eq, Structural)]
pub enum ContractType {
    Asset,
    App,
    Library,
    Native,
}

impl ContractType {
    /// The byte that stands for the kind in a contract address's preimage.
    pub open spec fn tag_of(self) -> u8 {
        match self {
            ContractType::Asset => 0,
            ContractType::App => 1,
            ContractType::Library => 2,
            ContractType::Native => 3,
        }
    }

    pub fn tag(&self) -> (r: u8)
        ensures
            r == self.tag_of(),
    {
        match self {
            ContractType::Asset => 0,
            ContractType::App => 1,
            ContractType::Library => 2,
            ContractType::Native => 3,
        }
    }
}

/// The asset and amount that a transfer or call moves from caller to receiver.
pub struct CarryingAsset {
    pub asset_id: Vec<u8>,
    pub amount: u128,
}

/// A cost in cycles, denominated in one asset.
pub struct Fee {
    pub asset_id: Vec<u8>,
    pub cycle: u64,
}

#[allow(inconsistent_fields)]
pub enum TransactionAction {
    Transfer { receiver: Vec<u8>, carrying_asset: CarryingAsset },
    Deploy { code: Vec<u8>, contract_type: ContractType },
    Call {
        contract: Vec<u8>,
        method: Vec<u8>,
        args: Vec<Vec<u8>>,
        carrying_asset: Option<CarryingAsset>,
    },
}

/// A transaction whose signature has already been checked.
pub struct SignedTransaction {
    pub tx_hash: Vec<u8>,
    pub pubkey: Vec<u8>,
    pub action: TransactionAction,
    pub fee: Fee,
}

pub enum ReceiptResult {
    Transfer { receiver: Vec<u8>, asset_id: Vec<u8>, before_amount: u128, after_amount: u128 },
    Deploy { contract: Vec<u8>, contract_type: ContractType },
    Fail { system: String, user: String },
}

pub struct Receipt {
    pub state_root: Vec<u8>,
    pub epoch_id: u64,
    pub cycles_used: Fee,
    pub result: ReceiptResult,
    pub tx_hash: Vec<u8>,
}

/// What one transaction runs with; made fresh for each transaction.
pub struct InvokeContext {
    pub chain_id: Vec<u8>,
    pub cycles_used: Fee,
    pub cycles_limit: Fee,
    pub caller: Address,
    pub coinbase: Address,
    pub epoch_id: u64,
    pub cycles_price: u64,
    pub carrying_asset: Option<CarryingAsset>,
}

#[derive(Clone, Copy, Debug, PartialEq, Eq, Structural)]
pub enum ExecError {
    /// The asset a transfer names is not registered.
    AssetNotFound,
    /// An asset with this id is registered already.
    AssetExists,
    /// The caller holds less than the amount to move.
    InsufficientBalance,
    /// A balance would exceed the largest representable amount.
    BalanceOverflow,
    /// A transfer came without the asset it carries.
    MissingCarryingAsset,
    /// A stored value does not have the shape the contract writes.
    MalformedState,
    /// The signer's public key is empty.
    MalformedPubkey,
    /// The action kind is not one this executor runs.
    UnsupportedAction,
    /// The caller's nonce is at its largest value.
    NonceOverflow,
    /// An epoch's fees in one asset exceed the largest cycle count.
    FeeOverflow,
    /// No committed state has this root.
    RootNotFound,
}

impl ExecError {
    /// Errors that abort the whole batch rather than fail one transaction.
    pub open spec fn fatal(self) -> bool {
        match self {
            ExecError::MalformedPubkey | ExecError::UnsupportedAction | ExecError::NonceOverflow
            | ExecError::FeeOverflow | ExecError::RootNotFound => true,
            _ => false,
        }
    }

    pub fn is_fatal(&self) -> (r: bool)
        ensures
            r == self.fatal(),
    {
        match self {
            ExecError::MalformedPubkey | ExecError::UnsupportedAction | ExecError::NonceOverflow
            | ExecError::FeeOverflow | ExecError::RootNotFound => true,
            _ => false,
        }
    }

    /// The description that a failure receipt carries.
    pub open spec fn description_of(self) -> Seq<char> {
        match self {
            ExecError::AssetNotFound => "asset not found"@,
            ExecError::AssetExists => "asset already registered"@,
            ExecError::InsufficientBalance => "insufficient balance"@,
            ExecError::BalanceOverflow => "balance overflow"@,
            ExecError::MissingCarryingAsset => "transfer carries no asset"@,
            ExecError::MalformedState => "malformed contract state"@,
            ExecError::MalformedPubkey => "malformed public key"@,
            ExecError::UnsupportedAction => "unsupported transaction"@,
            ExecError::NonceOverflow => "nonce overflow"@,
            ExecError::FeeOverflow => "fee overflow"@,
            ExecError::RootNotFound => "state root not found"@,
        }
    }

    /// A description for a failure receipt.
    pub fn description(&self) -> (r: String)
        ensures
            r@ == self.description_of(),
    {
        let s = match self {
            ExecError::AssetNotFound => "asset not found",
            ExecError::AssetExists => "asset already registered",
            ExecError::InsufficientBalance => "insufficient balance",
            ExecError::BalanceOverflow => "balance overflow",
            ExecError::MissingCarryingAsset => "transfer carries no asset",
            ExecError::MalformedState => "malformed contract state",
            ExecError::MalformedPubkey => "malformed public key",
            ExecError::UnsupportedAction => "unsupported transaction",
            ExecError::NonceOverflow => "nonce overflow",
            ExecError::FeeOverflow => "fee overflow",
            ExecError::RootNotFound => "state root not found",
        };
        String::from_str(s)
    }
}

} // verus!
