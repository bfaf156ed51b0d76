//! The staking ledger: accrual, stake/unstake/claim, and the reward
//! formula on concrete numbers.

use shadeswap::staking::{
    calculate_staking_reward, claim_rewards, claim_rewards_for_all_stakers, get_staking_percentage,
    handle, init, receiver_callback, stake, unstake, Config, HandleMsg, InitMsg, InvokeMsg,
    StakingState,
};
use shadeswap::types::{Addr, Env, Error, LogAction, TokenType};

fn token(name: &str) -> TokenType {
    TokenType::CustomToken {
        contract_addr: Addr(name.as_bytes().to_vec()),
        token_code_hash: b"hash".to_vec(),
    }
}

fn env_at(sender: &str, time: u64) -> Env {
    Env {
        sender: Addr(sender.as_bytes().to_vec()),
        contract_address: Addr(b"staking".to_vec()),
        block_height: 10,
        block_time: time,
    }
}

fn fresh(daily: u128, time: u64) -> StakingState {
    init(
        InitMsg {
            staking_amount: daily,
            reward_token: token("reward"),
            lp_token: token("lp"),
        },
        &env_at("owner", time),
    )
}

#[test]
fn init_records_configuration() {
    let state = fresh(864_000_000, 1_000_000);
    assert_eq!(state.config.daily_reward_amount, 864_000_000);
    assert_eq!(state.config.contract_owner.0, b"owner".to_vec());
    assert_eq!(state.last_accrual, 1_000_000);
    assert!(state.records.is_empty());
}

#[test]
fn stake_rejects_zero_amount() {
    let mut state = fresh(1_000_000, 0);
    let r = stake(&mut state, &env_at("alice", 0), 0, Addr(b"alice".to_vec()));
    assert_eq!(r.unwrap_err(), Error::InvalidAmount);
    assert!(state.records.is_empty());
}

#[test]
fn stake_creates_and_grows_positions() {
    let t0 = 1_000_000;
    let mut state = fresh(1_000_000, t0);
    let resp = stake(&mut state, &env_at("alice", t0), 30, Addr(b"alice".to_vec())).unwrap();
    assert_eq!(resp.log.len(), 1);
    assert_eq!(resp.log[0].action, LogAction::Stake);
    assert_eq!(resp.log[0].amount, Some(30));
    stake(&mut state, &env_at("alice", t0), 12, Addr(b"alice".to_vec())).unwrap();
    assert_eq!(state.records.len(), 1);
    assert_eq!(state.records[0].amount, 42);
    assert!(state.records[0].is_member);
    assert_eq!(state.records[0].claim_amount, 0);
}

#[test]
fn stake_overflow_aborts_unchanged() {
    let mut state = fresh(1_000_000, 0);
    stake(&mut state, &env_at("alice", 0), u128::MAX, Addr(b"alice".to_vec())).unwrap();
    let r = stake(&mut state, &env_at("bob", 0), 1, Addr(b"bob".to_vec()));
    assert_eq!(r.unwrap_err(), Error::Overflow);
    assert_eq!(state.records.len(), 1);
    assert_eq!(state.records[0].amount, u128::MAX);
}

#[test]
fn full_day_accrues_the_full_window_amount() {
    // Daily rate 864,000,000 over exactly one day: the window's
    // available units are 864,000,000 / (86,400 * 1,000) == 10, and a
    // single staker with a 100% share collects all of them exactly.
    let t0 = 1_000_000;
    let mut state = fresh(864_000_000, t0);
    stake(&mut state, &env_at("alice", t0), 100, Addr(b"alice".to_vec())).unwrap();
    let resp = claim_rewards(&mut state, &env_at("alice", t0 + 86_400)).unwrap();
    assert_eq!(resp.messages.len(), 1);
    assert_eq!(resp.messages[0].amount, 10);
    assert_eq!(resp.messages[0].recipient.0, b"alice".to_vec());
    assert_eq!(resp.log[0].action, LogAction::ClaimRewards);
    assert_eq!(resp.log[0].amount, Some(10));
    assert_eq!(state.records[0].claim_amount, 0);
    assert_eq!(state.last_accrual, t0 + 86_400);
}

#[test]
fn two_stakers_split_thirty_seventy() {
    // Window amount 1,000,000 / (1 * 1,000) == 1,000 split 30/70:
    // increments 300 and 700, never summing past 1,000.
    let t0 = 500;
    let mut state = fresh(1_000_000, t0);
    stake(&mut state, &env_at("alice", t0), 30, Addr(b"alice".to_vec())).unwrap();
    stake(&mut state, &env_at("bob", t0), 70, Addr(b"bob".to_vec())).unwrap();
    claim_rewards_for_all_stakers(&mut state, t0 + 1).unwrap();
    assert_eq!(state.records[0].claim_amount, 300);
    assert_eq!(state.records[1].claim_amount, 700);
    assert!(state.records[0].claim_amount + state.records[1].claim_amount <= 1_000);
}

#[test]
fn accrual_is_idempotent_at_one_instant() {
    let t0 = 500;
    let mut state = fresh(1_000_000, t0);
    stake(&mut state, &env_at("alice", t0), 30, Addr(b"alice".to_vec())).unwrap();
    stake(&mut state, &env_at("bob", t0), 70, Addr(b"bob".to_vec())).unwrap();
    claim_rewards_for_all_stakers(&mut state, t0 + 1).unwrap();
    let claims: Vec<u128> = state.records.iter().map(|r| r.claim_amount).collect();
    let checkpoint = state.last_accrual;
    claim_rewards_for_all_stakers(&mut state, t0 + 1).unwrap();
    let claims_after: Vec<u128> = state.records.iter().map(|r| r.claim_amount).collect();
    assert_eq!(claims, claims_after);
    assert_eq!(state.last_accrual, checkpoint);
}

#[test]
fn stake_then_unstake_returns_principal_and_no_reward() {
    let t0 = 9_000;
    let mut state = fresh(1_000_000, t0);
    stake(&mut state, &env_at("alice", t0), 55, Addr(b"alice".to_vec())).unwrap();
    let resp = unstake(&mut state, &env_at("alice", t0)).unwrap();
    assert_eq!(resp.messages.len(), 2);
    assert_eq!(resp.messages[0].amount, 55);
    assert_eq!(resp.messages[1].amount, 0);
    assert_eq!(resp.log[0].action, LogAction::Unstake);
    assert!(!state.records[0].is_member);
    assert_eq!(state.records[0].amount, 0);
    assert_eq!(state.records[0].claim_amount, 0);
}

#[test]
fn unstake_pays_out_accrued_rewards() {
    let t0 = 500;
    let mut state = fresh(1_000_000, t0);
    stake(&mut state, &env_at("alice", t0), 30, Addr(b"alice".to_vec())).unwrap();
    stake(&mut state, &env_at("bob", t0), 70, Addr(b"bob".to_vec())).unwrap();
    let resp = unstake(&mut state, &env_at("bob", t0 + 1)).unwrap();
    assert_eq!(resp.messages[0].amount, 70);
    assert_eq!(resp.messages[1].amount, 700);
}

#[test]
fn claim_by_stranger_is_refused() {
    let mut state = fresh(1_000_000, 0);
    let r = claim_rewards(&mut state, &env_at("mallory", 5));
    assert_eq!(r.unwrap_err(), Error::NotAStaker);
}

#[test]
fn unstake_by_stranger_is_refused() {
    let mut state = fresh(1_000_000, 0);
    let r = unstake(&mut state, &env_at("mallory", 5));
    assert_eq!(r.unwrap_err(), Error::NotAStaker);
}

#[test]
fn unstake_twice_is_refused() {
    let t0 = 100;
    let mut state = fresh(1_000_000, t0);
    stake(&mut state, &env_at("alice", t0), 5, Addr(b"alice".to_vec())).unwrap();
    unstake(&mut state, &env_at("alice", t0)).unwrap();
    let r = unstake(&mut state, &env_at("alice", t0));
    assert_eq!(r.unwrap_err(), Error::NotAStaker);
}

#[test]
fn receiver_callback_needs_a_message() {
    let mut state = fresh(1_000_000, 0);
    let r = receiver_callback(&mut state, &env_at("token", 0), None);
    assert_eq!(r.unwrap_err(), Error::MissingCallbackMessage);
}

#[test]
fn handle_dispatches_embedded_stake() {
    let t0 = 100;
    let mut state = fresh(1_000_000, t0);
    let msg = HandleMsg::Receive {
        from: Addr(b"ignored".to_vec()),
        amount: 999,
        msg: Some(InvokeMsg::Stake {
            from: Addr(b"alice".to_vec()),
            amount: 25,
        }),
    };
    handle(&mut state, &env_at("token", t0), msg).unwrap();
    assert_eq!(state.records[0].staker.0, b"alice".to_vec());
    assert_eq!(state.records[0].amount, 25);
}

#[test]
fn staking_percentage_is_floored() {
    let t0 = 100;
    let mut state = fresh(1_000_000, t0);
    stake(&mut state, &env_at("alice", t0), 30, Addr(b"alice".to_vec())).unwrap();
    stake(&mut state, &env_at("bob", t0), 70, Addr(b"bob".to_vec())).unwrap();
    let p = get_staking_percentage(&state, &Addr(b"alice".to_vec()), 100).unwrap();
    assert_eq!(p, 30);
    let q = get_staking_percentage(&state, &Addr(b"carol".to_vec()), 100);
    assert_eq!(q.unwrap_err(), Error::NotAStaker);
}

#[test]
fn reward_formula_on_concrete_window() {
    let t0 = 0;
    let mut state = fresh(864_000_000, t0);
    stake(&mut state, &env_at("alice", t0), 100, Addr(b"alice".to_vec())).unwrap();
    // Window of one day: 864,000,000 / 86,400,000 == 10 units, all to
    // the only staker.
    let r = calculate_staking_reward(&state, &Addr(b"alice".to_vec()), 0, 86_400).unwrap();
    assert_eq!(r, 10);
    // An empty window yields zero.
    let z = calculate_staking_reward(&state, &Addr(b"alice".to_vec()), 50, 50).unwrap();
    assert_eq!(z, 0);
}

#[test]
fn reward_window_running_backwards_is_refused() {
    let mut state = fresh(1_000_000, 0);
    stake(&mut state, &env_at("alice", 0), 1, Addr(b"alice".to_vec())).unwrap();
    let r = calculate_staking_reward(&state, &Addr(b"alice".to_vec()), 10, 5);
    assert_eq!(r.unwrap_err(), Error::Underflow);
}

#[test]
fn reward_for_unknown_staker_is_refused() {
    let state = fresh(1_000_000, 0);
    let r = calculate_staking_reward(&state, &Addr(b"nobody".to_vec()), 0, 10);
    assert_eq!(r.unwrap_err(), Error::NotAStaker);
}

#[test]
fn restake_after_unstake_rejoins_at_fresh_amount() {
    let t0 = 100;
    let mut state = fresh(1_000_000, t0);
    stake(&mut state, &env_at("alice", t0), 40, Addr(b"alice".to_vec())).unwrap();
    unstake(&mut state, &env_at("alice", t0)).unwrap();
    stake(&mut state, &env_at("alice", t0), 7, Addr(b"alice".to_vec())).unwrap();
    assert_eq!(state.records.len(), 1);
    assert!(state.records[0].is_member);
    assert_eq!(state.records[0].amount, 7);
}

#[test]
fn config_type_is_usable() {
    let c = Config {
        contract_owner: Addr(b"owner".to_vec()),
        daily_reward_amount: 5,
        reward_token: token("reward"),
        lp_token: token("lp"),
    };
    assert_eq!(c.daily_reward_amount, 5);
}
