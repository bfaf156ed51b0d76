//! The factory: it keeps the registry of exchanges, hands out its
//! configuration, and brackets the creation of a new exchange with a
//! one-shot signature handshake.
//!
//! `create_pair` derives a signature from the caller, block height and
//! block time, persists it in the single ephemeral slot, and asks for the
//! new exchange to be instantiated. The new exchange calls back with
//! `register_amm_pair`, which consumes the slot on the first byte-exact
//! match and refuses everything else.

use vstd::prelude::*;
use crate::amm_pair::{AMMPair, AMMSettings};
use crate::types::{
    Addr,
    ContractInstantiationInfo,
    Env,
    Error,
    LogAction,
    LogEntry,
    Pagination,
    TokenPair,
    bytes_eq,
    clone_bytes,
    token_pair_matches,
    token_pair_eq,
};

verus! {

/// What the factory is told at instantiation.
pub struct InitMsg {
    pub pair_contract: ContractInstantiationInfo,
    pub amm_settings: AMMSettings,
    pub lp_token_contract: ContractInstantiationInfo,
    pub prng_seed: Vec<u8>,
}

/// The factory's own configuration: which code to instantiate for a new
/// exchange, and the fee schedule every exchange shares.
pub struct Config {
    pub pair_contract: ContractInstantiationInfo,
    pub amm_settings: AMMSettings,
}

impl Config {
    /// Keeps the configuration-bearing fields of the instantiation
    /// message.
    pub fn from_init_msg(msg: InitMsg) -> (r: Self)
        ensures
            r.pair_contract == msg.pair_contract,
            r.amm_settings == msg.amm_settings,
    {
        Self { pair_contract: msg.pair_contract, amm_settings: msg.amm_settings }
    }
}

/// An inbound action on the factory.
pub enum HandleMsg {
    CreateAMMPair {},
    SetConfig { pair_contract: Option<ContractInstantiationInfo> },
    AddAMMPairs { amm_pair: Vec<AMMPair> },
    RegisterAMMPair { pair: TokenPair, signature: Vec<u8> },
}

/// A read-only question to the factory.
pub enum QueryMsg {
    GetConfig {},
    ListAMMPairs { pagination: Pagination },
    GetAMMPairAddress { pair: TokenPair },
    GetAMMSettings,
}

/// The structured answer to a [`QueryMsg`].
#[derive(Debug)]
pub enum QueryResponse {
    GetConfig { pair_contract: ContractInstantiationInfo, amm_settings: AMMSettings },
    ListAMMPairs { amm_pairs: Vec<AMMPair> },
    GetAMMPairAddress { address: Addr },
    GetAMMSettings { settings: AMMSettings },
}

/// An outbound request to instantiate a new exchange from stored code.
#[derive(Debug)]
pub struct InstantiateMsg {
    pub code_id: u64,
    pub code_hash: Vec<u8>,
}

/// The structured result of a successful factory action: outbound
/// instantiate requests and log entries.
#[derive(Debug)]
pub struct Response {
    pub messages: Vec<InstantiateMsg>,
    pub log: Vec<LogEntry>,
}

/// The factory's whole durable state: its configuration, the registry of
/// exchanges in registration order, and the single ephemeral handshake
/// slot (absent when idle).
pub struct FactoryState {
    pub config: Config,
    pub amm_pairs: Vec<AMMPair>,
    pub ephemeral_signature: Option<Vec<u8>>,
}

/// The pending signature the next callback must present: the stored bytes,
/// or the empty byte string when the slot is idle.
pub open spec fn stored_signature(state: FactoryState) -> Seq<u8> {
    match state.ephemeral_signature {
        Some(s) => s@,
        None => Seq::empty(),
    }
}

/// A callback presenting `received` is accepted exactly when it matches
/// the pending signature (the empty byte string when the slot is idle).
pub open spec fn signature_accepted(pending: Seq<u8>, received: Seq<u8>) -> bool {
    received == pending
}

/// Sets up a factory with an empty registry and an idle handshake slot.
pub fn init(msg: InitMsg) -> (r: FactoryState)
    ensures
        r.config.pair_contract == msg.pair_contract,
        r.config.amm_settings == msg.amm_settings,
        r.amm_pairs@.len() == 0,
        r.ephemeral_signature is None,
{
    FactoryState {
        config: Config::from_init_msg(msg),
        amm_pairs: Vec::new(),
        ephemeral_signature: None,
    }
}

/// Big-endian bytes of a 64-bit integer, most significant first.
pub open spec fn spec_u64_be(x: u64) -> Seq<u8> {
    seq![
        (x / 0x100_0000_0000_0000) as u8,
        ((x / 0x1_0000_0000_0000) % 0x100) as u8,
        ((x / 0x100_0000_0000) % 0x100) as u8,
        ((x / 0x1_0000_0000) % 0x100) as u8,
        ((x / 0x100_0000) % 0x100) as u8,
        ((x / 0x1_0000) % 0x100) as u8,
        ((x / 0x100) % 0x100) as u8,
        (x % 0x100) as u8,
    ]
}

/// Writes a 64-bit integer as its eight big-endian bytes.
pub fn u64_to_be_bytes(x: u64) -> (r: Vec<u8>)
    ensures
        r@ == spec_u64_be(x),
{
    let mut r: Vec<u8> = Vec::new();
    r.push((x / 0x100_0000_0000_0000) as u8);
    r.push(((x / 0x1_0000_0000_0000) % 0x100) as u8);
    r.push(((x / 0x100_0000_0000) % 0x100) as u8);
    r.push(((x / 0x1_0000_0000) % 0x100) as u8);
    r.push(((x / 0x100_0000) % 0x100) as u8);
    r.push(((x / 0x1_0000) % 0x100) as u8);
    r.push(((x / 0x100) % 0x100) as u8);
    r.push((x % 0x100) as u8);
    proof {
        assert(r@ =~= spec_u64_be(x));
    }
    r
}

/// The handshake signature `create_pair` derives: the caller's address
/// bytes, then the block height, then the block time, both big endian.
/// It is at least sixteen bytes, so it is never the empty byte string an
/// idle slot presents.
pub open spec fn spec_signature(sender: Seq<u8>, height: u64, time: u64) -> Seq<u8> {
    sender + spec_u64_be(height) + spec_u64_be(time)
}

/// Derives the handshake signature of this execution context.
pub fn create_signature(env: &Env) -> (r: Vec<u8>)
    ensures
        r@ == spec_signature(env.sender@, env.block_height, env.block_time),
        r@.len() == env.sender@.len() + 16,
{
    let mut r = clone_bytes(&env.sender.0);
    let mut height_bytes = u64_to_be_bytes(env.block_height);
    let mut time_bytes = u64_to_be_bytes(env.block_time);
    r.append(&mut height_bytes);
    r.append(&mut time_bytes);
    r
}

/// Begins the handshake and asks for a new exchange: derives the
/// signature of this context, fills the ephemeral slot with it, and
/// schedules one instantiate call of the configured exchange code.
///
/// A signature already pending is deliberately overwritten: the engine
/// keeps no timeout on the slot, so a `create_pair` repeated before its
/// callback arrives orphans the earlier signature's authority. That is
/// the protocol's intended behavior, not an accident of this code.
pub fn create_pair(state: &mut FactoryState, env: &Env) -> (r: Response)
    ensures
        final(state).config == old(state).config,
        final(state).amm_pairs == old(state).amm_pairs,
        stored_signature(*final(state)) == spec_signature(
            env.sender@,
            env.block_height,
            env.block_time,
        ),
        final(state).ephemeral_signature is Some,
        r.messages@.len() == 1,
        r.messages@[0].code_id == old(state).config.pair_contract.id,
        r.messages@[0].code_hash@ == old(state).config.pair_contract.code_hash@,
        r.log@.len() == 0,
{
    let signature = create_signature(env);
    state.ephemeral_signature = Some(signature);
    let code_hash = clone_bytes(&state.config.pair_contract.code_hash);
    Response {
        messages: vec![InstantiateMsg { code_id: state.config.pair_contract.id, code_hash }],
        log: Vec::new(),
    }
}

/// Completes the handshake: accepts `signature` exactly when it matches
/// the pending slot byte for byte, and consumes the slot on acceptance. A
/// mismatch leaves the slot untouched and refuses the action.
pub fn ensure_correct_signature(state: &mut FactoryState, signature: &Vec<u8>) -> (r: Result<
    (),
    Error,
>)
    ensures
        signature_accepted(stored_signature(*old(state)), signature@) ==> {
            &&& r == Ok::<(), Error>(())
            &&& final(state).config == old(state).config
            &&& final(state).amm_pairs == old(state).amm_pairs
            &&& final(state).ephemeral_signature is None
        },
        !signature_accepted(stored_signature(*old(state)), signature@) ==> {
            &&& r == Err::<(), Error>(Error::Unauthorized)
            &&& *final(state) == *old(state)
        },
{
    let matches_pending: bool = match &state.ephemeral_signature {
        Some(s) => bytes_eq(s, signature),
        None => signature.len() == 0,
    };
    if matches_pending {
        proof {
            if state.ephemeral_signature is None {
                assert(signature@ =~= Seq::<u8>::empty());
            }
        }
        state.ephemeral_signature = None;
        Ok(())
    } else {
        Err(Error::Unauthorized)
    }
}

/// Completing the handshake is single use: a signature derived by
/// `create_pair` is never empty, so once it has been consumed the slot
/// presents the empty byte string and the same signature is refused on
/// every later attempt.
pub proof fn lemma_handshake_single_use(sender: Seq<u8>, height: u64, time: u64)
    ensures
        signature_accepted(
            spec_signature(sender, height, time),
            spec_signature(sender, height, time),
        ),
        !signature_accepted(Seq::<u8>::empty(), spec_signature(sender, height, time)),
{
    assert(spec_signature(sender, height, time).len() >= 16);
}

/// Registers the calling exchange for `pair`: the callback half of the
/// handshake. The signature must match the pending slot; on acceptance
/// the slot is consumed and the caller is appended to the registry.
pub fn register_amm_pair(state: &mut FactoryState, env: &Env, pair: TokenPair, signature: Vec<
    u8,
>) -> (r: Result<Response, Error>)
    ensures
        signature_accepted(stored_signature(*old(state)), signature@) ==> {
            &&& r matches Ok(resp)
            &&& final(state).config == old(state).config
            &&& final(state).ephemeral_signature is None
            &&& final(state).amm_pairs@.len() == old(state).amm_pairs@.len() + 1
            &&& forall|i: int|
                0 <= i < old(state).amm_pairs@.len() ==> final(state).amm_pairs@[i] == old(
                    state,
                ).amm_pairs@[i]
            &&& final(state).amm_pairs@.last().pair == pair
            &&& final(state).amm_pairs@.last().address@ == env.sender@
            &&& resp.messages@.len() == 0
            &&& resp.log@.len() == 1
            &&& resp.log@[0].action == LogAction::RegisterAmmPair
            &&& resp.log@[0].actor@ == env.sender@
            &&& resp.log@[0].amount is None
        },
        !signature_accepted(stored_signature(*old(state)), signature@) ==> {
            &&& r == Err::<Response, Error>(Error::Unauthorized)
            &&& *final(state) == *old(state)
        },
{
    match ensure_correct_signature(state, &signature) {
        Ok(()) => {},
        Err(e) => {
            return Err(e);
        },
    }
    let amm_pair = AMMPair { pair, address: env.sender.clone_addr() };
    state.amm_pairs.push(amm_pair);
    Ok(
        Response {
            messages: Vec::new(),
            log: vec![
                LogEntry {
                    action: LogAction::RegisterAmmPair,
                    actor: env.sender.clone_addr(),
                    amount: None,
                },
            ],
        },
    )
}

/// Appends pre-built registry entries as they stand; the handshake is not
/// involved.
pub fn add_amm_pairs(state: &mut FactoryState, _env: &Env, mut amm_pair: Vec<AMMPair>) -> (r:
    Response)
    ensures
        final(state).config == old(state).config,
        final(state).ephemeral_signature == old(state).ephemeral_signature,
        final(state).amm_pairs@ == old(state).amm_pairs@ + amm_pair@,
        r.messages@.len() == 0,
        r.log@.len() == 0,
{
    state.amm_pairs.append(&mut amm_pair);
    Response { messages: Vec::new(), log: Vec::new() }
}

/// One page of the registry: up to `limit` entries starting at index
/// `start`, in registration order.
pub fn list_pairs(state: &FactoryState, pagination: Pagination) -> (r: QueryResponse)
    ensures
        r matches QueryResponse::ListAMMPairs { amm_pairs } && {
            let page_len = if pagination.start >= state.amm_pairs@.len() {
                0
            } else if pagination.start + pagination.limit <= state.amm_pairs@.len() {
                pagination.limit as int
            } else {
                state.amm_pairs@.len() - pagination.start
            };
            &&& amm_pairs@.len() == page_len
            &&& forall|j: int|
                0 <= j < page_len ==> crate::amm_pair::amm_pair_matches(
                    amm_pairs@[j],
                    state.amm_pairs@[pagination.start + j],
                )
        },
{
    let mut page: Vec<AMMPair> = Vec::new();
    let len: usize = state.amm_pairs.len();
    if pagination.start >= len as u64 {
        return QueryResponse::ListAMMPairs { amm_pairs: page };
    }
    let start: usize = pagination.start as usize;
    let remaining: usize = len - start;
    let take: usize = if (pagination.limit as usize) <= remaining {
        pagination.limit as usize
    } else {
        remaining
    };
    let mut j: usize = 0;
    while j < take
        invariant
            len == state.amm_pairs@.len(),
            start + take <= len,
            j <= take,
            page@.len() == j,
            forall|k: int|
                0 <= k < j ==> crate::amm_pair::amm_pair_matches(
                    page@[k],
                    state.amm_pairs@[start + k],
                ),
        decreases take - j,
    {
        page.push(crate::amm_pair::clone_amm_pair(&state.amm_pairs[start + j]));
        j += 1;
    }
    QueryResponse::ListAMMPairs { amm_pairs: page }
}

/// The shared fee schedule, for queries. The pagination argument keeps
/// the query's call shape uniform and is not consulted.
pub fn query_amm_settings(state: &FactoryState, _pagination: Pagination) -> (r: QueryResponse)
    ensures
        r matches QueryResponse::GetAMMSettings { settings } && crate::amm_pair::settings_matches(
            settings,
            state.config.amm_settings,
        ),
{
    QueryResponse::GetAMMSettings {
        settings: crate::amm_pair::clone_settings(&state.config.amm_settings),
    }
}

/// The whole configuration, for queries.
pub fn get_config(state: &FactoryState) -> (r: QueryResponse)
    ensures
        r matches QueryResponse::GetConfig { pair_contract, amm_settings } && {
            &&& crate::types::instantiation_info_matches(
                pair_contract,
                state.config.pair_contract,
            )
            &&& crate::amm_pair::settings_matches(amm_settings, state.config.amm_settings)
        },
{
    QueryResponse::GetConfig {
        pair_contract: crate::types::clone_instantiation_info(&state.config.pair_contract),
        amm_settings: crate::amm_pair::clone_settings(&state.config.amm_settings),
    }
}

/// Whether some registry entry manages `pair`, stored orientation only.
pub open spec fn has_pair(pairs: Seq<AMMPair>, pair: TokenPair) -> bool {
    exists|i: int| 0 <= i < pairs.len() && token_pair_matches(pairs[i].pair, pair)
}

/// The exchange address registered for `pair`: the earliest entry whose
/// pair matches byte for byte, or `PairNotFound` when none does.
pub fn query_amm_pair_address(state: &FactoryState, pair: &TokenPair) -> (r: Result<
    QueryResponse,
    Error,
>)
    ensures
        has_pair(state.amm_pairs@, *pair) ==> (r matches Ok(q) && q matches
            QueryResponse::GetAMMPairAddress { address } && exists|i: int|
            {
                &&& 0 <= i < state.amm_pairs@.len()
                &&& token_pair_matches(state.amm_pairs@[i].pair, *pair)
                &&& address@ == state.amm_pairs@[i].address@
                &&& forall|j: int|
                    0 <= j < i ==> !token_pair_matches(state.amm_pairs@[j].pair, *pair)
            }),
        !has_pair(state.amm_pairs@, *pair) ==> r == Err::<QueryResponse, Error>(
            Error::PairNotFound,
        ),
{
    let len: usize = state.amm_pairs.len();
    let mut i: usize = 0;
    while i < len
        invariant
            len == state.amm_pairs@.len(),
            i <= len,
            forall|j: int| 0 <= j < i ==> !token_pair_matches(state.amm_pairs@[j].pair, *pair),
        decreases len - i,
    {
        if token_pair_eq(&state.amm_pairs[i].pair, pair) {
            return Ok(
                QueryResponse::GetAMMPairAddress { address: state.amm_pairs[i].address.clone_addr() },
            );
        }
        i += 1;
    }
    Err(Error::PairNotFound)
}

/// Updates the configuration in place: a supplied pair-contract record
/// replaces the stored one; an absent one leaves it unchanged. Only a
/// `SetConfig` action may be handed in.
pub fn set_config(state: &mut FactoryState, _env: &Env, msg: HandleMsg) -> (r: Result<
    Response,
    Error,
>)
    requires
        msg matches HandleMsg::SetConfig { .. },
    ensures
        msg matches HandleMsg::SetConfig { pair_contract } && {
            &&& r matches Ok(resp)
            &&& resp.messages@.len() == 0
            &&& resp.log@.len() == 0
            &&& final(state).config.pair_contract == if pair_contract is Some {
                pair_contract->0
            } else {
                old(state).config.pair_contract
            }
            &&& final(state).config.amm_settings == old(state).config.amm_settings
            &&& final(state).amm_pairs == old(state).amm_pairs
            &&& final(state).ephemeral_signature == old(state).ephemeral_signature
        },
{
    if let HandleMsg::SetConfig { pair_contract } = msg {
        if let Some(new_value) = pair_contract {
            state.config.pair_contract = new_value;
        }
        Ok(Response { messages: Vec::new(), log: Vec::new() })
    } else {
        Err(Error::Unauthorized)
    }
}

/// Dispatches one inbound factory action to its handler.
pub fn handle(state: &mut FactoryState, env: &Env, msg: HandleMsg) -> (r: Result<Response, Error>)
    ensures
        msg matches HandleMsg::CreateAMMPair {  } ==> {
            &&& r matches Ok(resp)
            &&& stored_signature(*final(state)) == spec_signature(
                env.sender@,
                env.block_height,
                env.block_time,
            )
            &&& final(state).config == old(state).config
            &&& final(state).amm_pairs == old(state).amm_pairs
            &&& resp.messages@.len() == 1
            &&& resp.messages@[0].code_id == old(state).config.pair_contract.id
        },
        msg matches HandleMsg::SetConfig { pair_contract } ==> {
            &&& r matches Ok(resp)
            &&& final(state).config.pair_contract == if pair_contract is Some {
                pair_contract->0
            } else {
                old(state).config.pair_contract
            }
            &&& final(state).config.amm_settings == old(state).config.amm_settings
            &&& final(state).amm_pairs == old(state).amm_pairs
            &&& final(state).ephemeral_signature == old(state).ephemeral_signature
        },
        msg matches HandleMsg::AddAMMPairs { amm_pair } ==> {
            &&& r matches Ok(resp)
            &&& final(state).amm_pairs@ == old(state).amm_pairs@ + amm_pair@
            &&& final(state).config == old(state).config
            &&& final(state).ephemeral_signature == old(state).ephemeral_signature
        },
        msg matches HandleMsg::RegisterAMMPair { pair, signature } ==> {
            &&& signature_accepted(stored_signature(*old(state)), signature@) ==> {
                &&& r is Ok
                &&& final(state).ephemeral_signature is None
                &&& final(state).amm_pairs@.len() == old(state).amm_pairs@.len() + 1
                &&& final(state).amm_pairs@.last().pair == pair
                &&& final(state).amm_pairs@.last().address@ == env.sender@
            }
            &&& !signature_accepted(stored_signature(*old(state)), signature@) ==> {
                &&& r == Err::<Response, Error>(Error::Unauthorized)
                &&& *final(state) == *old(state)
            }
        },
{
    match msg {
        HandleMsg::CreateAMMPair {  } => Ok(create_pair(state, env)),
        HandleMsg::SetConfig { pair_contract } => set_config(
            state,
            env,
            HandleMsg::SetConfig { pair_contract },
        ),
        HandleMsg::AddAMMPairs { amm_pair } => Ok(add_amm_pairs(state, env, amm_pair)),
        HandleMsg::RegisterAMMPair { pair, signature } => register_amm_pair(
            state,
            env,
            pair,
            signature,
        ),
    }
}

/// Answers one read-only question about the factory.
pub fn query(state: &FactoryState, msg: QueryMsg) -> (r: Result<QueryResponse, Error>)
    ensures
        msg matches QueryMsg::GetConfig {  } ==> (r matches Ok(q) && q matches
            QueryResponse::GetConfig { pair_contract, amm_settings } && {
            &&& crate::types::instantiation_info_matches(
                pair_contract,
                state.config.pair_contract,
            )
            &&& crate::amm_pair::settings_matches(amm_settings, state.config.amm_settings)
        }),
        msg matches QueryMsg::ListAMMPairs { pagination } ==> (r matches Ok(q) && q matches
            QueryResponse::ListAMMPairs { amm_pairs } && amm_pairs@.len() <= pagination.limit),
        msg matches QueryMsg::GetAMMSettings ==> (r matches Ok(q) && q matches
            QueryResponse::GetAMMSettings { settings } && crate::amm_pair::settings_matches(
            settings,
            state.config.amm_settings,
        )),
        msg matches QueryMsg::GetAMMPairAddress { pair } ==> {
            &&& has_pair(state.amm_pairs@, pair) <==> r is Ok
            &&& !has_pair(state.amm_pairs@, pair) ==> r == Err::<QueryResponse, Error>(
                Error::PairNotFound,
            )
        },
{
    match msg {
        QueryMsg::GetConfig {  } => Ok(get_config(state)),
        QueryMsg::ListAMMPairs { pagination } => Ok(list_pairs(state, pagination)),
        QueryMsg::GetAMMPairAddress { pair } => query_amm_pair_address(state, &pair),
        QueryMsg::GetAMMSettings => Ok(
            query_amm_settings(state, Pagination { start: 0, limit: 0 }),
        ),
    }
}

} // verus!
