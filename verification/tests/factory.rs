//! The factory: registry bookkeeping and the one-shot handshake.

use shadeswap::amm_pair::{AMMPair, AMMSettings, Contract, Fee};
use shadeswap::factory::{
    add_amm_pairs, create_pair, create_signature, ensure_correct_signature, get_config, handle,
    init, list_pairs, query, query_amm_pair_address, query_amm_settings, register_amm_pair,
    set_config, u64_to_be_bytes, Config, FactoryState, HandleMsg, InitMsg, QueryMsg, QueryResponse,
};
use shadeswap::types::{
    Addr, ContractInstantiationInfo, Env, Error, LogAction, Pagination, TokenPair, TokenType,
};

fn token(name: &str) -> TokenType {
    TokenType::CustomToken {
        contract_addr: Addr(name.as_bytes().to_vec()),
        token_code_hash: b"hash".to_vec(),
    }
}

fn pair(a: &str, b: &str) -> TokenPair {
    TokenPair(token(a), token(b))
}

fn settings() -> AMMSettings {
    AMMSettings {
        lp_fee: Fee::new(3, 1000),
        shade_dao_fee: Fee::new(2, 1000),
        shade_dao_address: Contract {
            address: Addr(b"dao".to_vec()),
            code_hash: b"dao-hash".to_vec(),
        },
    }
}

fn fresh() -> FactoryState {
    init(InitMsg {
        pair_contract: ContractInstantiationInfo {
            id: 42,
            code_hash: b"pair-code".to_vec(),
        },
        amm_settings: settings(),
        lp_token_contract: ContractInstantiationInfo {
            id: 43,
            code_hash: b"lp-code".to_vec(),
        },
        prng_seed: b"seed".to_vec(),
    })
}

fn env_at(sender: &str, height: u64, time: u64) -> Env {
    Env {
        sender: Addr(sender.as_bytes().to_vec()),
        contract_address: Addr(b"factory".to_vec()),
        block_height: height,
        block_time: time,
    }
}

#[test]
fn be_bytes_are_big_endian() {
    let b = u64_to_be_bytes(0x0102_0304_0506_0708);
    assert_eq!(b, vec![1, 2, 3, 4, 5, 6, 7, 8]);
    assert_eq!(u64_to_be_bytes(0), vec![0; 8]);
    assert_eq!(u64_to_be_bytes(u64::MAX), vec![0xFF; 8]);
}

#[test]
fn signature_concatenates_sender_height_time() {
    let env = env_at("ab", 0x0102_0304_0506_0708, 0x1112_1314_1516_1718);
    let sig = create_signature(&env);
    let mut expected = b"ab".to_vec();
    expected.extend_from_slice(&[1, 2, 3, 4, 5, 6, 7, 8]);
    expected.extend_from_slice(&[0x11, 0x12, 0x13, 0x14, 0x15, 0x16, 0x17, 0x18]);
    assert_eq!(sig, expected);
}

#[test]
fn create_pair_schedules_instantiate_and_stores_signature() {
    let mut state = fresh();
    let resp = create_pair(&mut state, &env_at("admin", 7, 99));
    assert_eq!(resp.messages.len(), 1);
    assert_eq!(resp.messages[0].code_id, 42);
    assert_eq!(resp.messages[0].code_hash, b"pair-code".to_vec());
    let expected = create_signature(&env_at("admin", 7, 99));
    assert_eq!(state.ephemeral_signature, Some(expected));
}

#[test]
fn handshake_accepts_exact_signature_once() {
    let mut state = fresh();
    let env = env_at("admin", 7, 99);
    create_pair(&mut state, &env);
    let sig = create_signature(&env);
    let resp =
        register_amm_pair(&mut state, &env_at("exchange", 8, 100), pair("a", "b"), sig.clone())
            .unwrap();
    assert_eq!(resp.log[0].action, LogAction::RegisterAmmPair);
    assert_eq!(state.amm_pairs.len(), 1);
    assert_eq!(state.amm_pairs[0].address.0, b"exchange".to_vec());
    assert!(state.ephemeral_signature.is_none());
    // The slot is consumed: replaying the very same signature fails.
    let replay = register_amm_pair(&mut state, &env_at("exchange", 8, 100), pair("a", "b"), sig);
    assert_eq!(replay.unwrap_err(), Error::Unauthorized);
    assert_eq!(state.amm_pairs.len(), 1);
}

#[test]
fn handshake_rejects_wrong_signature_and_keeps_slot() {
    let mut state = fresh();
    let env = env_at("admin", 7, 99);
    create_pair(&mut state, &env);
    let wrong = b"forged".to_vec();
    let r = register_amm_pair(&mut state, &env_at("mallory", 8, 100), pair("a", "b"), wrong);
    assert_eq!(r.unwrap_err(), Error::Unauthorized);
    assert!(state.ephemeral_signature.is_some());
    // The honest callback still goes through afterwards.
    let sig = create_signature(&env);
    register_amm_pair(&mut state, &env_at("exchange", 8, 100), pair("a", "b"), sig).unwrap();
}

#[test]
fn ensure_correct_signature_consumes_the_slot() {
    let mut state = fresh();
    state.ephemeral_signature = Some(b"s3cr3t".to_vec());
    assert_eq!(ensure_correct_signature(&mut state, &b"s3cr3t".to_vec()), Ok(()));
    assert!(state.ephemeral_signature.is_none());
    assert_eq!(
        ensure_correct_signature(&mut state, &b"s3cr3t".to_vec()),
        Err(Error::Unauthorized)
    );
}

#[test]
fn add_and_list_pairs_with_pagination() {
    let mut state = fresh();
    let entries = vec![
        AMMPair { pair: pair("a", "b"), address: Addr(b"x1".to_vec()) },
        AMMPair { pair: pair("c", "d"), address: Addr(b"x2".to_vec()) },
        AMMPair { pair: pair("e", "f"), address: Addr(b"x3".to_vec()) },
    ];
    add_amm_pairs(&mut state, &env_at("admin", 1, 1), entries);
    assert_eq!(state.amm_pairs.len(), 3);
    match list_pairs(&state, Pagination { start: 1, limit: 5 }) {
        QueryResponse::ListAMMPairs { amm_pairs } => {
            assert_eq!(amm_pairs.len(), 2);
            assert_eq!(amm_pairs[0].address.0, b"x2".to_vec());
            assert_eq!(amm_pairs[1].address.0, b"x3".to_vec());
        }
        _ => panic!("expected a pair listing"),
    }
    match list_pairs(&state, Pagination { start: 9, limit: 5 }) {
        QueryResponse::ListAMMPairs { amm_pairs } => assert!(amm_pairs.is_empty()),
        _ => panic!("expected a pair listing"),
    }
}

#[test]
fn pair_address_lookup() {
    let mut state = fresh();
    add_amm_pairs(
        &mut state,
        &env_at("admin", 1, 1),
        vec![AMMPair { pair: pair("a", "b"), address: Addr(b"x1".to_vec()) }],
    );
    match query_amm_pair_address(&state, &pair("a", "b")).unwrap() {
        QueryResponse::GetAMMPairAddress { address } => {
            assert_eq!(address.0, b"x1".to_vec());
        }
        _ => panic!("expected a pair address"),
    }
    let missing = query_amm_pair_address(&state, &pair("q", "r"));
    assert_eq!(missing.unwrap_err(), Error::PairNotFound);
}

#[test]
fn set_config_replaces_only_supplied_fields() {
    let mut state = fresh();
    let new_info = ContractInstantiationInfo { id: 77, code_hash: b"new-code".to_vec() };
    set_config(
        &mut state,
        &env_at("admin", 1, 1),
        HandleMsg::SetConfig { pair_contract: Some(new_info) },
    )
    .unwrap();
    assert_eq!(state.config.pair_contract.id, 77);
    set_config(
        &mut state,
        &env_at("admin", 1, 1),
        HandleMsg::SetConfig { pair_contract: None },
    )
    .unwrap();
    assert_eq!(state.config.pair_contract.id, 77);
}

#[test]
fn queries_report_configuration() {
    let state = fresh();
    match get_config(&state) {
        QueryResponse::GetConfig { pair_contract, amm_settings } => {
            assert_eq!(pair_contract.id, 42);
            assert_eq!(amm_settings.lp_fee, Fee::new(3, 1000));
        }
        _ => panic!("expected the configuration"),
    }
    match query_amm_settings(&state, Pagination { start: 0, limit: 0 }) {
        QueryResponse::GetAMMSettings { settings } => {
            assert_eq!(settings.shade_dao_fee, Fee::new(2, 1000));
        }
        _ => panic!("expected the settings"),
    }
    match query(&state, QueryMsg::GetAMMSettings).unwrap() {
        QueryResponse::GetAMMSettings { settings } => {
            assert_eq!(settings.lp_fee, Fee::new(3, 1000));
        }
        _ => panic!("expected the settings"),
    }
}

#[test]
fn handle_runs_the_whole_handshake() {
    let mut state = fresh();
    let env = env_at("admin", 7, 99);
    handle(&mut state, &env, HandleMsg::CreateAMMPair {}).unwrap();
    let sig = create_signature(&env);
    handle(
        &mut state,
        &env_at("exchange", 8, 100),
        HandleMsg::RegisterAMMPair { pair: pair("a", "b"), signature: sig },
    )
    .unwrap();
    assert_eq!(state.amm_pairs.len(), 1);
    assert!(state.ephemeral_signature.is_none());
}

#[test]
fn config_from_init_msg_keeps_the_pair_code() {
    let c = Config::from_init_msg(InitMsg {
        pair_contract: ContractInstantiationInfo { id: 5, code_hash: b"c".to_vec() },
        amm_settings: settings(),
        lp_token_contract: ContractInstantiationInfo { id: 6, code_hash: b"d".to_vec() },
        prng_seed: b"seed".to_vec(),
    });
    assert_eq!(c.pair_contract.id, 5);
}
