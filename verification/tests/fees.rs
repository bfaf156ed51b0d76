//! Fee settlement: floor rounding, conservation, and the overflow guard.

use shadeswap::amm_pair::{calculate_fee, calculate_swap_result, AMMSettings, Contract, Fee};
use shadeswap::types::{Addr, Error};

fn settings(lp: Fee, dao: Fee) -> AMMSettings {
    AMMSettings {
        lp_fee: lp,
        shade_dao_fee: dao,
        shade_dao_address: Contract {
            address: Addr(b"dao".to_vec()),
            code_hash: b"hash".to_vec(),
        },
    }
}

#[test]
fn fee_is_floored_ratio() {
    assert_eq!(calculate_fee(1000, Fee::new(3, 100)), Ok(30));
    // floor(999 * 3 / 100) == 29: truncation favors the pool.
    assert_eq!(calculate_fee(999, Fee::new(3, 100)), Ok(29));
}

#[test]
fn fee_of_zero_rate_is_zero() {
    assert_eq!(calculate_fee(u128::MAX, Fee::new(0, 1)), Ok(0));
}

#[test]
fn fee_overflow_is_reported() {
    assert_eq!(calculate_fee(u128::MAX, Fee::new(2, 1)), Err(Error::FeeOverflow));
}

#[test]
fn fee_repeated_runs_agree() {
    let first = calculate_fee(123_456_789, Fee::new(7, 997));
    let second = calculate_fee(123_456_789, Fee::new(7, 997));
    assert_eq!(first, second);
    assert_eq!(first, Ok(123_456_789 * 7 / 997));
}

#[test]
fn swap_conserves_every_unit() {
    let s = settings(Fee::new(3, 1000), Fee::new(2, 1000));
    let info = calculate_swap_result(10_000, &s, 10_000).unwrap();
    assert_eq!(info.lp_fee_amount, 30);
    assert_eq!(info.shade_dao_fee_amount, 20);
    assert_eq!(info.total_fee_amount, 50);
    assert_eq!(info.result.return_amount, 9_950);
    assert_eq!(info.result.spread_amount, 50);
    assert_eq!(
        info.shade_dao_fee_amount + info.lp_fee_amount + info.result.return_amount,
        10_000
    );
}

#[test]
fn swap_conserves_with_awkward_amounts() {
    let s = settings(Fee::new(3, 997), Fee::new(1, 331));
    for amount in [1u128, 7, 330, 331, 996, 997, 123_456_789] {
        let info = calculate_swap_result(amount, &s, 0).unwrap();
        assert_eq!(
            info.shade_dao_fee_amount + info.lp_fee_amount + info.result.return_amount,
            amount
        );
    }
}

#[test]
fn swap_fee_overflow_is_reported() {
    let s = settings(Fee::new(3, 1000), Fee::new(2, 1000));
    assert_eq!(
        calculate_swap_result(u128::MAX, &s, 0),
        Err(Error::FeeOverflow)
    );
}
