//! Shared value types: addresses, token and contract references, errors,
//! the execution context handed to every inbound action, and structured
//! log entries.

use vstd::prelude::*;

verus! {

/// An account or contract address, carried as opaque bytes. The engine
/// never interprets the bytes; it only stores and compares them.
#[derive(Clone, Debug)]
pub struct Addr(pub Vec<u8>);

impl View for Addr {
    type V = Seq<u8>;

    open spec fn view(&self) -> Seq<u8> {
        self.0@
    }
}

impl Addr {
    /// Copies the address bytes.
    pub fn clone_addr(&self) -> (r: Addr)
        ensures
            r@ == self@,
    {
        Addr(clone_bytes(&self.0))
    }
}

/// Copies a byte string.
pub fn clone_bytes(v: &Vec<u8>) -> (r: Vec<u8>)
    ensures
        r@ == v@,
{
    let r = v.clone();
    proof {
        assert(forall|i: int| 0 <= i < v@.len() ==> r@[i] == v@[i]);
        assert(r@ =~= v@);
    }
    r
}

/// Byte-for-byte address comparison.
pub fn addr_eq(a: &Addr, b: &Addr) -> (r: bool)
    ensures
        r <==> a@ == b@,
{
    bytes_eq(&a.0, &b.0)
}

/// Byte-for-byte comparison of two byte strings.
pub fn bytes_eq(a: &Vec<u8>, b: &Vec<u8>) -> (r: bool)
    ensures
        r <==> a@ == b@,
{
    if a.len() != b.len() {
        assert(a@ != b@) by {
            assert(a@.len() != b@.len());
        }
        return false;
    }
    let n: usize = a.len();
    let mut i: usize = 0;
    while i < n
        invariant
            n == a@.len() && n == b@.len(),
            i <= n,
            forall|j: int| 0 <= j < i ==> a@[j] == b@[j],
        decreases n - i,
    {
        if a[i] != b[i] {
            return false;
        }
        i += 1;
    }
    proof {
        assert(a@ =~= b@);
    }
    true
}

/// Everything that can go wrong inside the engine. Every error aborts the
/// whole action with no partial state change.
#[derive(Clone, Copy, Debug, PartialEq, Eq, Structural)]
pub enum Error {
    /// Caller lacks the required role, or a handshake signature mismatched.
    Unauthorized,
    /// A ledger operation named an identity with no staking record.
    NotAStaker,
    /// A zero or otherwise disallowed quantity was supplied.
    InvalidAmount,
    /// A result exceeded the 128-bit working width even after the widened
    /// intermediate step.
    Overflow,
    /// A subtraction would have gone negative.
    Underflow,
    /// A trade amount times a fee numerator exceeded the working width.
    FeeOverflow,
    /// A token-receive callback arrived without its embedded message.
    MissingCallbackMessage,
    /// No exchange is registered for the requested token pair.
    PairNotFound,
}

/// Read-only execution context of one inbound action.
#[derive(Clone, Debug)]
pub struct Env {
    /// Address of the account that sent the message.
    pub sender: Addr,
    /// Address of the contract instance handling the message.
    pub contract_address: Addr,
    /// Current block height.
    pub block_height: u64,
    /// Current block time, in seconds.
    pub block_time: u64,
}

/// The action a log entry reports.
#[derive(Clone, Copy, Debug, PartialEq, Eq, Structural)]
pub enum LogAction {
    Stake,
    Unstake,
    ClaimRewards,
    RegisterAmmPair,
}

/// One structured log entry: the action, who performed it, and the amount
/// it moved, when one was computed.
#[derive(Clone, Debug)]
pub struct LogEntry {
    pub action: LogAction,
    pub actor: Addr,
    pub amount: Option<u128>,
}

/// A reference to a deployed contract.
#[derive(Clone, Debug)]
pub struct ContractLink {
    pub address: Addr,
    pub code_hash: Vec<u8>,
}

/// The code id and hash needed to instantiate a new contract.
#[derive(Clone, Debug)]
pub struct ContractInstantiationInfo {
    pub id: u64,
    pub code_hash: Vec<u8>,
}

/// A token an exchange can trade: a deployed token contract, or a native
/// coin named by its denomination.
#[derive(Clone, Debug)]
pub enum TokenType {
    CustomToken { contract_addr: Addr, token_code_hash: Vec<u8> },
    NativeToken { denom: Vec<u8> },
}

/// The two tokens an exchange trades between.
#[derive(Clone, Debug)]
pub struct TokenPair(pub TokenType, pub TokenType);

/// An amount of one concrete token.
#[derive(Clone, Debug)]
pub struct TokenAmount {
    pub token: TokenType,
    pub amount: u128,
}

/// A window of a paginated listing.
#[derive(Clone, Copy, Debug)]
pub struct Pagination {
    pub start: u64,
    pub limit: u8,
}

/// The answer to a counter query of the message schema.
#[derive(Clone, Copy, Debug, PartialEq, Eq, Structural)]
pub struct CountResponse {
    pub count: i32,
}

/// An outbound token transfer scheduled by a successful action: send
/// `amount` of `token`, held by `sender`, to `recipient`.
#[derive(Clone, Debug)]
pub struct SendMsg {
    pub token: TokenType,
    pub sender: Addr,
    pub recipient: Addr,
    pub amount: u128,
}

/// Spec-level equality of token types: same variant, same bytes.
pub open spec fn token_type_matches(a: TokenType, b: TokenType) -> bool {
    match (a, b) {
        (
            TokenType::CustomToken { contract_addr: ca, token_code_hash: ha },
            TokenType::CustomToken { contract_addr: cb, token_code_hash: hb },
        ) => ca@ == cb@ && ha@ == hb@,
        (TokenType::NativeToken { denom: da }, TokenType::NativeToken { denom: db }) => da@ == db@,
        _ => false,
    }
}

/// Executable equality of token types, byte for byte.
pub fn token_type_eq(a: &TokenType, b: &TokenType) -> (r: bool)
    ensures
        r <==> token_type_matches(*a, *b),
{
    match (a, b) {
        (
            TokenType::CustomToken { contract_addr: ca, token_code_hash: ha },
            TokenType::CustomToken { contract_addr: cb, token_code_hash: hb },
        ) => addr_eq(ca, cb) && bytes_eq(ha, hb),
        (TokenType::NativeToken { denom: da }, TokenType::NativeToken { denom: db }) => bytes_eq(
            da,
            db,
        ),
        _ => false,
    }
}

/// Copies a token type.
pub fn clone_token_type(t: &TokenType) -> (r: TokenType)
    ensures
        token_type_matches(r, *t),
{
    match t {
        TokenType::CustomToken { contract_addr, token_code_hash } => TokenType::CustomToken {
            contract_addr: contract_addr.clone_addr(),
            token_code_hash: clone_bytes(token_code_hash),
        },
        TokenType::NativeToken { denom } => TokenType::NativeToken { denom: clone_bytes(denom) },
    }
}

/// Copies a token pair.
pub fn clone_token_pair(p: &TokenPair) -> (r: TokenPair)
    ensures
        token_pair_matches(r, *p),
{
    TokenPair(clone_token_type(&p.0), clone_token_type(&p.1))
}

/// Spec-level equality of instantiation records: same code id and hash.
pub open spec fn instantiation_info_matches(
    a: ContractInstantiationInfo,
    b: ContractInstantiationInfo,
) -> bool {
    a.id == b.id && a.code_hash@ == b.code_hash@
}

/// Copies an instantiation record.
pub fn clone_instantiation_info(c: &ContractInstantiationInfo) -> (r: ContractInstantiationInfo)
    ensures
        instantiation_info_matches(r, *c),
{
    ContractInstantiationInfo { id: c.id, code_hash: clone_bytes(&c.code_hash) }
}

/// Spec-level equality of token pairs, in the stored orientation.
pub open spec fn token_pair_matches(a: TokenPair, b: TokenPair) -> bool {
    token_type_matches(a.0, b.0) && token_type_matches(a.1, b.1)
}

/// Executable equality of token pairs.
pub fn token_pair_eq(a: &TokenPair, b: &TokenPair) -> (r: bool)
    ensures
        r <==> token_pair_matches(*a, *b),
{
    token_type_eq(&a.0, &b.0) && token_type_eq(&a.1, &b.1)
}

} // verus!
