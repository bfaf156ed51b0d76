//! Trade-fee settlement for an exchange pair: the fee schedule, the split
//! of a trade into protocol fee, liquidity-provider fee and net amount,
//! and the records an exchange keeps about itself.
//!
//! Every fee is `floor(amount * numerator / denominator)`; rounding always
//! favors the pool over the trader and must stay exact for
//! reproducibility.

use vstd::prelude::*;
use vstd::arithmetic::div_mod::*;
use vstd::arithmetic::mul::*;
use crate::types::{Addr, ContractLink, Error, TokenPair};

verus! {

/// One fee rate, as a numerator over a denominator.
#[derive(Clone, Copy, Debug, PartialEq, Eq, Structural)]
pub struct Fee {
    pub nom: u8,
    pub denom: u16,
}

impl Fee {
    /// A fee rate taken as given.
    pub fn new(nom: u8, denom: u16) -> (r: Self)
        ensures
            r.nom == nom && r.denom == denom,
    {
        Self { nom, denom }
    }

    /// A usable rate: share math never divides by zero.
    pub open spec fn valid(self) -> bool {
        self.denom > 0
    }
}

/// The address of a deployed contract outside this crate's own state.
#[derive(Clone, Debug)]
pub struct Contract {
    pub address: Addr,
    pub code_hash: Vec<u8>,
}

/// The immutable fee schedule of a factory and its exchanges: the
/// liquidity-provider fee, the protocol fee, and where the protocol fee
/// goes.
#[derive(Clone, Debug)]
pub struct AMMSettings {
    pub lp_fee: Fee,
    pub shade_dao_fee: Fee,
    pub shade_dao_address: Contract,
}

impl AMMSettings {
    /// Both rates are usable and together never exceed the whole trade
    /// amount, so settlement conserves every unit.
    pub open spec fn valid(self) -> bool {
        &&& self.lp_fee.valid()
        &&& self.shade_dao_fee.valid()
        &&& self.lp_fee.nom * self.shade_dao_fee.denom + self.shade_dao_fee.nom
            * self.lp_fee.denom <= self.lp_fee.denom * self.shade_dao_fee.denom
    }
}

/// The address of an exchange and the pair that it manages.
#[derive(Clone, Debug)]
pub struct AMMPair {
    /// The pair that the contract manages.
    pub pair: TokenPair,
    /// Address of the contract that manages the exchange.
    pub address: Addr,
}

/// Everything an exchange pair remembers about itself.
#[derive(Clone, Debug)]
pub struct Config {
    pub symbol: Vec<u8>,
    pub factory_info: ContractLink,
    pub lp_token_info: ContractLink,
    pub pair: TokenPair,
    pub contract_addr: Addr,
    pub viewing_key: Vec<u8>,
}

/// Spec-level equality of contract references: same address, same hash.
pub open spec fn contract_matches(a: Contract, b: Contract) -> bool {
    a.address@ == b.address@ && a.code_hash@ == b.code_hash@
}

/// Copies a contract reference.
pub fn clone_contract(c: &Contract) -> (r: Contract)
    ensures
        contract_matches(r, *c),
{
    Contract { address: c.address.clone_addr(), code_hash: crate::types::clone_bytes(&c.code_hash) }
}

/// Spec-level equality of fee schedules: same rates, same recipient.
pub open spec fn settings_matches(a: AMMSettings, b: AMMSettings) -> bool {
    a.lp_fee == b.lp_fee && a.shade_dao_fee == b.shade_dao_fee && contract_matches(
        a.shade_dao_address,
        b.shade_dao_address,
    )
}

/// Copies a fee schedule.
pub fn clone_settings(s: &AMMSettings) -> (r: AMMSettings)
    ensures
        settings_matches(r, *s),
        r.valid() == s.valid(),
{
    AMMSettings {
        lp_fee: s.lp_fee,
        shade_dao_fee: s.shade_dao_fee,
        shade_dao_address: clone_contract(&s.shade_dao_address),
    }
}

/// Spec-level equality of registry entries: same pair, same exchange.
pub open spec fn amm_pair_matches(a: AMMPair, b: AMMPair) -> bool {
    crate::types::token_pair_matches(a.pair, b.pair) && a.address@ == b.address@
}

/// Copies a registry entry.
pub fn clone_amm_pair(p: &AMMPair) -> (r: AMMPair)
    ensures
        amm_pair_matches(r, *p),
{
    AMMPair { pair: crate::types::clone_token_pair(&p.pair), address: p.address.clone_addr() }
}

/// What one trade pays and delivers.
#[derive(Clone, Copy, Debug, PartialEq, Eq, Structural)]
pub struct SwapInfo {
    pub total_fee_amount: u128,
    pub lp_fee_amount: u128,
    pub shade_dao_fee_amount: u128,
    pub result: SwapResult,
}

/// The net outcome of one trade: what the trader receives, and how far it
/// fell short of the quoted return.
#[derive(Clone, Copy, Debug, PartialEq, Eq, Structural)]
pub struct SwapResult {
    pub return_amount: u128,
    pub spread_amount: u128,
}

/// The exact fee a rate takes from an amount.
pub open spec fn spec_fee(amount: int, fee: Fee) -> int {
    amount * fee.nom / fee.denom as int
}

/// Floored fee of one rate on a trade amount: `floor(amount * nom /
/// denom)`, or `FeeOverflow` when the product `amount * nom` exceeds the
/// 128-bit working width.
pub fn calculate_fee(amount: u128, fee: Fee) -> (r: Result<u128, Error>)
    requires
        fee.valid(),
    ensures
        amount * fee.nom <= u128::MAX ==> (r matches Ok(q) && q == spec_fee(amount as int, fee)),
        amount * fee.nom > u128::MAX ==> r == Err::<u128, Error>(Error::FeeOverflow),
{
    if fee.nom == 0 {
        proof {
            lemma_div_of0(fee.denom as int);
        }
        return Ok(0);
    }
    let nom: u128 = fee.nom as u128;
    if amount > u128::MAX / nom {
        proof {
            // amount >= u128::MAX / nom + 1, so amount * nom > u128::MAX.
            lemma_fundamental_div_mod(u128::MAX as int, nom as int);
            lemma_mod_division_less_than_divisor(u128::MAX as int, nom as int);
            assert(amount * nom > u128::MAX) by (nonlinear_arith)
                requires
                    amount >= u128::MAX as int / nom as int + 1,
                    u128::MAX == nom * (u128::MAX as int / nom as int) + u128::MAX as int % nom
                        as int,
                    (u128::MAX as int % nom as int) < nom,
                    nom > 0,
            ;
        }
        Err(Error::FeeOverflow)
    } else {
        proof {
            // amount <= u128::MAX / nom, so amount * nom <= u128::MAX.
            lemma_fundamental_div_mod(u128::MAX as int, nom as int);
            lemma_mod_division_less_than_divisor(u128::MAX as int, nom as int);
            assert(amount * nom <= u128::MAX) by (nonlinear_arith)
                requires
                    amount <= u128::MAX as int / nom as int,
                    u128::MAX == nom * (u128::MAX as int / nom as int) + u128::MAX as int % nom
                        as int,
                    u128::MAX as int % nom as int >= 0,
                    nom > 0,
            ;
        }
        let product: u128 = amount * nom;
        Ok(product / (fee.denom as u128))
    }
}

/// The two fees of a valid schedule never take more than the whole trade:
/// `floor(x*a/b) + floor(x*c/d) <= x` whenever `a*d + c*b <= b*d`.
pub proof fn lemma_fee_sum_bound(x: int, a: int, b: int, c: int, d: int)
    requires
        x >= 0,
        a >= 0,
        c >= 0,
        b > 0,
        d > 0,
        a * d + c * b <= b * d,
    ensures
        x * a / b + x * c / d <= x,
{
    let lp = x * a / b;
    let dao = x * c / d;
    lemma_mul_nonnegative(x, a);
    lemma_mul_nonnegative(x, c);
    lemma_div_pos_is_pos(x * a, b);
    lemma_div_pos_is_pos(x * c, d);
    lemma_fundamental_div_mod(x * a, b);
    lemma_mod_division_less_than_divisor(x * a, b);
    lemma_fundamental_div_mod(x * c, d);
    lemma_mod_division_less_than_divisor(x * c, d);
    assert(lp * b <= x * a) by (nonlinear_arith)
        requires
            x * a == b * lp + (x * a) % b,
            (x * a) % b >= 0,
    ;
    assert(dao * d <= x * c) by (nonlinear_arith)
        requires
            x * c == d * dao + (x * c) % d,
            (x * c) % d >= 0,
    ;
    assert(lp * b * d <= x * a * d) by (nonlinear_arith)
        requires
            lp * b <= x * a,
            d > 0,
    ;
    assert(dao * d * b <= x * c * b) by (nonlinear_arith)
        requires
            dao * d <= x * c,
            b > 0,
    ;
    assert((lp + dao) * (b * d) == lp * b * d + dao * d * b) by (nonlinear_arith);
    assert(x * a * d + x * c * b == x * (a * d + c * b)) by (nonlinear_arith);
    assert(x * (a * d + c * b) <= x * (b * d)) by (nonlinear_arith)
        requires
            x >= 0,
            a * d + c * b <= b * d,
    ;
    assert(b * d > 0) by (nonlinear_arith)
        requires
            b > 0,
            d > 0,
    ;
    assert(lp + dao <= x) by (nonlinear_arith)
        requires
            (lp + dao) * (b * d) <= x * (b * d),
            b * d > 0,
    ;
}

/// Settles one trade of `amount` against the schedule: the protocol fee,
/// the liquidity-provider fee, the net return, and its shortfall against
/// the quoted return. Conservation holds exactly: protocol fee plus
/// liquidity-provider fee plus net return equals the trade amount.
pub fn calculate_swap_result(amount: u128, settings: &AMMSettings, quoted_return: u128) -> (r:
    Result<SwapInfo, Error>)
    requires
        settings.valid(),
    ensures
        amount * settings.lp_fee.nom <= u128::MAX && amount * settings.shade_dao_fee.nom
            <= u128::MAX ==> (r matches Ok(info) && {
            &&& info.lp_fee_amount == spec_fee(amount as int, settings.lp_fee)
            &&& info.shade_dao_fee_amount == spec_fee(amount as int, settings.shade_dao_fee)
            &&& info.total_fee_amount == info.lp_fee_amount + info.shade_dao_fee_amount
            &&& info.result.return_amount == amount - info.total_fee_amount
            &&& info.shade_dao_fee_amount + info.lp_fee_amount + info.result.return_amount
                == amount
            &&& info.result.spread_amount == if quoted_return >= info.result.return_amount {
                quoted_return - info.result.return_amount
            } else {
                0
            }
        }),
        amount * settings.lp_fee.nom > u128::MAX || amount * settings.shade_dao_fee.nom
            > u128::MAX ==> r == Err::<SwapInfo, Error>(Error::FeeOverflow),
{
    let lp_fee_amount = match calculate_fee(amount, settings.lp_fee) {
        Ok(v) => v,
        Err(e) => {
            return Err(e);
        },
    };
    let shade_dao_fee_amount = match calculate_fee(amount, settings.shade_dao_fee) {
        Ok(v) => v,
        Err(e) => {
            return Err(e);
        },
    };
    proof {
        lemma_fee_sum_bound(
            amount as int,
            settings.lp_fee.nom as int,
            settings.lp_fee.denom as int,
            settings.shade_dao_fee.nom as int,
            settings.shade_dao_fee.denom as int,
        );
    }
    let total_fee_amount = lp_fee_amount + shade_dao_fee_amount;
    let return_amount = amount - total_fee_amount;
    let spread_amount = if quoted_return >= return_amount {
        quoted_return - return_amount
    } else {
        0
    };
    Ok(
        SwapInfo {
            total_fee_amount,
            lp_fee_amount,
            shade_dao_fee_amount,
            result: SwapResult { return_amount, spread_amount },
        },
    )
}

} // verus!
