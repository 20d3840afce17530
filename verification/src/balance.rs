//! Conversions between EVM balances (256-bit, in the EVM's smallest unit) and
//! native balances, at a fixed ratio of EVM units per native unit.
//!
//! A native balance is an unsigned integer of at most 128 bits; it is held in a
//! `u128`, and the functions that produce one take the largest value of the
//! runtime's balance type (its `Bounded::max_value()`), `u128::MAX` for a
//! `u128` balance, `u64::MAX` for a `u64` one.

use vstd::arithmetic::div_mod::*;
use vstd::arithmetic::mul::*;
use vstd::prelude::*;

use crate::u256::{lemma_u256_bounded, saturated, u256_max, U256};

verus! {

/// How an EVM amount that is not a whole number of native units is treated.
#[derive(Clone, Copy, PartialEq, Eq, Structural, Debug)]
pub enum ConversionPrecision {
    /// The amount must be a whole number of native units.
    Exact,
    /// A remainder rounds the native amount up by one.
    RoundUp,
}

/// Why an EVM amount has no native counterpart.
#[derive(Clone, Copy, PartialEq, Eq, Structural, Debug)]
pub enum ConversionError {
    /// An exact conversion was asked for and the amount is not a whole number
    /// of native units.
    DecimalPrecisionLoss,
    /// The native amount does not fit in a native balance.
    BalanceConversionFailed,
}

/// A limit on the storage deposit of a call: none, or at most a balance.
#[derive(Clone, Copy, PartialEq, Eq, Debug)]
pub enum DepositLimit<B> {
    Unchecked,
    Balance(B),
}

/// The EVM amount of `value` native units: `value * ratio`, saturated at the
/// 256-bit maximum.
pub open spec fn native_to_evm(value: nat, ratio: nat) -> nat {
    saturated(value * ratio)
}

/// The native amount of `value` EVM units: zero for zero; otherwise `value / ratio`
/// where that division is exact, the quotient rounded up where `precision`
/// allows it, and an error where the amount would lose precision or exceed the
/// largest native balance `max_balance`.
pub open spec fn evm_to_native(
    value: nat,
    precision: ConversionPrecision,
    ratio: nat,
    max_balance: nat,
) -> Result<
    u128,
    ConversionError,
> {
    if value == 0 {
        Ok(0)
    } else if value % ratio != 0 && precision == ConversionPrecision::Exact {
        Err(ConversionError::DecimalPrecisionLoss)
    } else {
        let native = if value % ratio == 0 {
            value / ratio
        } else {
            value / ratio + 1
        };
        if native <= max_balance {
            Ok(native as u128)
        } else {
            Err(ConversionError::BalanceConversionFailed)
        }
    }
}

/// Whether converting `value` EVM units asks for no division by zero.
pub open spec fn evm_convertible(value: nat, ratio: nat) -> bool {
    value == 0 || ratio > 0
}

/// The native counterpart of an EVM deposit limit: `Unchecked` stays as it
/// is; a balance is converted exactly, and its error is the limit's error.
pub open spec fn deposit_limit_to_native(
    limit: DepositLimit<U256>,
    ratio: nat,
    max_balance: nat,
) -> Result<
    DepositLimit<u128>,
    ConversionError,
> {
    match limit {
        DepositLimit::Unchecked => Ok(DepositLimit::Unchecked),
        DepositLimit::Balance(v) => match evm_to_native(
            v@,
            ConversionPrecision::Exact,
            ratio,
            max_balance,
        ) {
            Ok(b) => Ok(DepositLimit::Balance(b)),
            Err(e) => Err(e),
        },
    }
}

/// Whether converting `limit` asks for no division by zero.
pub open spec fn deposit_limit_convertible(limit: DepositLimit<U256>, ratio: nat) -> bool {
    match limit {
        DepositLimit::Unchecked => true,
        DepositLimit::Balance(v) => evm_convertible(v@, ratio),
    }
}

/// A `u128` times a `u32` stays below 2^160, far from the 256-bit maximum.
proof fn lemma_native_product_fits(value: u128, ratio: u32)
    ensures
        value as nat * ratio as nat <= u256_max(),
{
    assert(value as nat * ratio as nat <= 340282366920938463463374607431768211455nat
        * 4294967295nat) by (nonlinear_arith)
        requires
            value as nat <= 340282366920938463463374607431768211455nat,
            ratio as nat <= 4294967295nat,
    ;
}

/// Converts a native balance to an EVM balance: `value` times the number of EVM
/// units per native unit.
pub fn convert_native_to_evm(value: u128, native_to_eth_ratio: u32) -> (r: U256)
    ensures
        r@ == native_to_evm(value as nat, native_to_eth_ratio as nat),
        r@ == value * native_to_eth_ratio,
{
    proof {
        lemma_native_product_fits(value, native_to_eth_ratio);
    }
    let v = U256::from_u128(value);
    let ratio = U256::from_u32(native_to_eth_ratio);
    v.saturating_mul(&ratio)
}

/// The native balance equal to `amount`: the amount where it is at most
/// `max_balance`, `BalanceConversionFailed` where it is not.
fn fit_balance(amount: &U256, max_balance: u128) -> (r: Result<u128, ConversionError>)
    ensures
        r == (if amount@ <= max_balance {
            Ok::<u128, ConversionError>(amount@ as u128)
        } else {
            Err::<u128, ConversionError>(ConversionError::BalanceConversionFailed)
        }),
{
    match amount.try_into_u128() {
        Some(b) => if b <= max_balance {
            Ok(b)
        } else {
            Err(ConversionError::BalanceConversionFailed)
        },
        None => Err(ConversionError::BalanceConversionFailed),
    }
}

/// Converts an EVM balance to a native balance, exactly or rounding up.
///
/// Zero converts to zero whatever the ratio; any other amount is divided by
/// `native_to_eth_ratio`, which must then not be zero. The result must not
/// exceed `max_balance`, the largest value of the native balance type.
pub fn convert_evm_to_native(
    value: U256,
    precision: ConversionPrecision,
    native_to_eth_ratio: u32,
    max_balance: u128,
) -> (r: Result<u128, ConversionError>)
    requires
        evm_convertible(value@, native_to_eth_ratio as nat),
    ensures
        r == evm_to_native(value@, precision, native_to_eth_ratio as nat, max_balance as nat),
        r == Err::<u128, ConversionError>(ConversionError::DecimalPrecisionLoss) ==> precision
            == ConversionPrecision::Exact,
        r is Ok ==> value@ <= r->Ok_0 * native_to_eth_ratio,
        r is Ok && native_to_eth_ratio > 0 ==> r->Ok_0 * native_to_eth_ratio < value@
            + native_to_eth_ratio,
        r is Ok && precision == ConversionPrecision::Exact ==> r->Ok_0 * native_to_eth_ratio
            == value@,
{
    proof {
        lemma_conversion_result(value@, precision, native_to_eth_ratio as nat, max_balance);
    }
    if value.is_zero() {
        return Ok(0);
    }
    let ratio = U256::from_u32(native_to_eth_ratio);
    let (quotient, remainder) = value.div_mod(&ratio);
    let exact = remainder.is_zero();
    match (precision, exact) {
        (ConversionPrecision::Exact, false) => Err(ConversionError::DecimalPrecisionLoss),
        (_, true) => fit_balance(&quotient, max_balance),
        (_, false) => {
            proof {
                let v = value@;
                let d = native_to_eth_ratio as nat;
                lemma_u256_bounded(value);
                // A remainder means the ratio is at least two, so the quotient is
                // at most half the amount and one more does not saturate.
                if d == 1 {
                    assert(v % 1 == 0);
                }
                assert(d >= 2);
                lemma_div_is_ordered_by_denominator(v as int, 2, d as int);
                lemma_fundamental_div_mod(v as int, 2);
                assert(v / d <= v / 2);
                assert(v / d + 1 <= u256_max());
            }
            let up = quotient.saturating_add(&U256::one());
            fit_balance(&up, max_balance)
        },
    }
}

/// Converts an EVM storage deposit limit to a native one: `Unchecked` stays,
/// a balance is converted exactly.
pub fn storage_deposit_limit_fn(
    limit: DepositLimit<U256>,
    native_to_eth_ratio: u32,
    max_balance: u128,
) -> (r: Result<DepositLimit<u128>, ConversionError>)
    requires
        deposit_limit_convertible(limit, native_to_eth_ratio as nat),
    ensures
        r == deposit_limit_to_native(limit, native_to_eth_ratio as nat, max_balance as nat),
        r is Ok ==> (r->Ok_0 is Unchecked <==> limit is Unchecked),
        r is Ok && limit is Balance ==> r->Ok_0->Balance_0 * native_to_eth_ratio
            == limit->Balance_0@,
{
    match limit {
        DepositLimit::Unchecked => Ok(DepositLimit::Unchecked),
        DepositLimit::Balance(v) => {
            match convert_evm_to_native(
                v,
                ConversionPrecision::Exact,
                native_to_eth_ratio,
                max_balance,
            ) {
                Ok(b) => Ok(DepositLimit::Balance(b)),
                Err(e) => Err(e),
            }
        },
    }
}

/// The native value and native storage deposit limit that a deployment, an
/// instantiation or a call hands to the runtime: the value converted exactly
/// and the limit converted as `storage_deposit_limit_fn` does. Neither may fail:
/// such a request is refused before it reaches the runtime.
pub fn call_arguments(
    value: U256,
    storage_deposit_limit: DepositLimit<U256>,
    native_to_eth_ratio: u32,
    max_balance: u128,
) -> (r: (u128, DepositLimit<u128>))
    requires
        evm_convertible(value@, native_to_eth_ratio as nat),
        deposit_limit_convertible(storage_deposit_limit, native_to_eth_ratio as nat),
        evm_to_native(
            value@,
            ConversionPrecision::Exact,
            native_to_eth_ratio as nat,
            max_balance as nat,
        ) is Ok,
        deposit_limit_to_native(
            storage_deposit_limit,
            native_to_eth_ratio as nat,
            max_balance as nat,
        ) is Ok,
    ensures
        evm_to_native(
            value@,
            ConversionPrecision::Exact,
            native_to_eth_ratio as nat,
            max_balance as nat,
        ) == Ok::<u128, ConversionError>(r.0),
        deposit_limit_to_native(
            storage_deposit_limit,
            native_to_eth_ratio as nat,
            max_balance as nat,
        ) == Ok::<DepositLimit<u128>, ConversionError>(r.1),
        r.0 * native_to_eth_ratio == value@,
        r.1 is Unchecked <==> storage_deposit_limit is Unchecked,
        storage_deposit_limit is Balance ==> r.1->Balance_0 * native_to_eth_ratio
            == storage_deposit_limit->Balance_0@,
{
    let native_value = convert_evm_to_native(
        value,
        ConversionPrecision::Exact,
        native_to_eth_ratio,
        max_balance,
    ).unwrap();
    let native_limit = storage_deposit_limit_fn(
        storage_deposit_limit,
        native_to_eth_ratio,
        max_balance,
    ).unwrap();
    (native_value, native_limit)
}

/// What the runtime answers to a code upload: the hash of the code and the
/// storage deposit charged for it.
#[derive(Clone, Copy, PartialEq, Eq, Debug)]
pub struct CodeUploadReturnValue<B> {
    pub code_hash: [u8; 32],
    pub deposit: B,
}

/// The native storage deposit limit that a code upload hands to the runtime:
/// the limit converted exactly. It may not fail: such an upload is refused
/// before it reaches the runtime.
pub fn upload_deposit_limit(
    storage_deposit_limit: U256,
    native_to_eth_ratio: u32,
    max_balance: u128,
) -> (r: u128)
    requires
        evm_convertible(storage_deposit_limit@, native_to_eth_ratio as nat),
        evm_to_native(
            storage_deposit_limit@,
            ConversionPrecision::Exact,
            native_to_eth_ratio as nat,
            max_balance as nat,
        ) is Ok,
    ensures
        evm_to_native(
            storage_deposit_limit@,
            ConversionPrecision::Exact,
            native_to_eth_ratio as nat,
            max_balance as nat,
        ) == Ok::<u128, ConversionError>(r),
        r * native_to_eth_ratio == storage_deposit_limit@,
{
    convert_evm_to_native(
        storage_deposit_limit,
        ConversionPrecision::Exact,
        native_to_eth_ratio,
        max_balance,
    ).unwrap()
}

/// The runtime's answer to a code upload as the caller sees it: the same code
/// hash with the deposit in EVM units; an error is passed on unchanged.
pub fn upload_result_to_evm<E>(
    result: Result<CodeUploadReturnValue<u128>, E>,
    native_to_eth_ratio: u32,
) -> (r: Result<CodeUploadReturnValue<U256>, E>)
    ensures
        r is Ok <==> result is Ok,
        result is Err ==> r == Err::<CodeUploadReturnValue<U256>, E>(result->Err_0),
        result is Ok ==> r->Ok_0.code_hash == result->Ok_0.code_hash,
        result is Ok ==> r->Ok_0.deposit@ == result->Ok_0.deposit * native_to_eth_ratio,
{
    match result {
        Ok(v) => Ok(
            CodeUploadReturnValue {
                code_hash: v.code_hash,
                deposit: convert_native_to_evm(v.deposit, native_to_eth_ratio),
            },
        ),
        Err(e) => Err(e),
    }
}

/// What any conversion result says of the amount: a converted amount is worth at
/// least the given one, exactly it for an exact conversion, and less than one
/// native unit more when rounding up; only an exact conversion loses precision.
pub proof fn lemma_conversion_result(
    value: nat,
    precision: ConversionPrecision,
    ratio: nat,
    max_balance: u128,
)
    requires
        evm_convertible(value, ratio),
    ensures
        evm_to_native(value, precision, ratio, max_balance as nat) == Err::<u128, ConversionError>(
            ConversionError::DecimalPrecisionLoss,
        ) ==> precision == ConversionPrecision::Exact,
        evm_to_native(value, precision, ratio, max_balance as nat) is Ok ==> value <= evm_to_native(
            value,
            precision,
            ratio,
            max_balance as nat,
        )->Ok_0 * ratio,
        evm_to_native(value, precision, ratio, max_balance as nat) is Ok && ratio > 0 ==> evm_to_native(
            value,
            precision,
            ratio,
            max_balance as nat,
        )->Ok_0 * ratio < value + ratio,
        evm_to_native(value, precision, ratio, max_balance as nat) is Ok && precision
            == ConversionPrecision::Exact ==> evm_to_native(
            value,
            precision,
            ratio,
            max_balance as nat,
        )->Ok_0 * ratio == value,
{
    let r = evm_to_native(value, precision, ratio, max_balance as nat);
    if r is Ok {
        let n = r->Ok_0 as nat;
        if value == 0 {
            assert(n == 0);
            lemma_mul_basics(ratio as int);
        } else {
            lemma_fundamental_div_mod(value as int, ratio as int);
            lemma_mod_bound(value as int, ratio as int);
            let q = value / ratio;
            let m = value % ratio;
            if m == 0 {
                assert(n == q);
                lemma_mul_is_commutative(q as int, ratio as int);
            } else {
                assert(precision == ConversionPrecision::RoundUp);
                assert(n == q + 1);
                assert(n * ratio == ratio * q + ratio) by (nonlinear_arith)
                    requires
                        n == q + 1,
                ;
            }
        }
    }
}

/// Rounding up gives the ceiling of the amount over the ratio: for the one
/// native amount `native` whose EVM value covers `value` by less than one
/// native unit, the conversion gives `native` where it is a balance and
/// `BalanceConversionFailed` where it exceeds the largest balance.
pub proof fn lemma_round_up_is_ceiling(value: nat, ratio: nat, max_balance: u128, native: nat)
    requires
        ratio > 0,
        value <= native * ratio,
        native * ratio < value + ratio,
    ensures
        native <= max_balance ==> evm_to_native(
            value,
            ConversionPrecision::RoundUp,
            ratio,
            max_balance as nat,
        ) == Ok::<u128, ConversionError>(native as u128),
        native > max_balance ==> evm_to_native(
            value,
            ConversionPrecision::RoundUp,
            ratio,
            max_balance as nat,
        ) == Err::<u128, ConversionError>(ConversionError::BalanceConversionFailed),
{
    lemma_fundamental_div_mod(value as int, ratio as int);
    lemma_mod_bound(value as int, ratio as int);
    let q = value / ratio;
    let m = value % ratio;
    assert(value == ratio * q + m);
    if m == 0 {
        assert(native == q) by (nonlinear_arith)
            requires
                ratio > 0,
                ratio * q <= native * ratio,
                native * ratio < ratio * q + ratio,
        ;
    } else {
        assert(native == q + 1) by (nonlinear_arith)
            requires
                ratio > 0,
                0 < m < ratio,
                ratio * q + m <= native * ratio,
                native * ratio < ratio * q + m + ratio,
        ;
    }
    if value == 0 {
        lemma_small_mod(0, ratio);
        assert(native == 0);
    }
}

/// An exact conversion gives the native amount whose EVM value is exactly
/// `value`, or `BalanceConversionFailed` where that exceeds the largest balance;
/// where no whole native amount has that value it fails with
/// `DecimalPrecisionLoss`.
pub proof fn lemma_exact_is_division(value: nat, ratio: nat, max_balance: u128, native: nat)
    requires
        ratio > 0,
    ensures
        native * ratio == value && native <= max_balance ==> evm_to_native(
            value,
            ConversionPrecision::Exact,
            ratio,
            max_balance as nat,
        ) == Ok::<u128, ConversionError>(native as u128),
        native * ratio == value && native > max_balance ==> evm_to_native(
            value,
            ConversionPrecision::Exact,
            ratio,
            max_balance as nat,
        ) == Err::<u128, ConversionError>(ConversionError::BalanceConversionFailed),
        value % ratio != 0 ==> evm_to_native(
            value,
            ConversionPrecision::Exact,
            ratio,
            max_balance as nat,
        ) == Err::<u128, ConversionError>(ConversionError::DecimalPrecisionLoss),
{
    lemma_small_mod(0, ratio);
    if native * ratio == value {
        lemma_mod_multiples_basic(native as int, ratio as int);
        lemma_div_multiples_vanish(native as int, ratio as int);
        lemma_mul_is_commutative(native as int, ratio as int);
        assert(value % ratio == 0);
        assert(value / ratio == native);
        if value == 0 {
            assert(native == 0) by (nonlinear_arith)
                requires
                    native * ratio == 0,
                    ratio > 0,
            ;
        }
    }
}

/// Only an exact conversion loses precision, and only of an amount that is
/// not a whole number of native units.
pub proof fn lemma_precision_loss_only_exact(
    value: nat,
    precision: ConversionPrecision,
    ratio: nat,
    max_balance: u128,
)
    ensures
        evm_to_native(value, precision, ratio, max_balance as nat) == Err::<u128, ConversionError>(
            ConversionError::DecimalPrecisionLoss,
        ) ==> precision == ConversionPrecision::Exact && value != 0 && value % ratio != 0,
{
}

/// Converting a deposit limit keeps its kind: a converted limit is `Unchecked`
/// exactly when the given one is, and a converted balance is worth exactly the
/// given balance. A balance converts whenever it is a whole number of native
/// units no larger than the largest balance.
pub proof fn lemma_deposit_limit_keeps_kind(
    limit: DepositLimit<U256>,
    ratio: nat,
    max_balance: u128,
)
    requires
        ratio > 0,
    ensures
        limit is Unchecked ==> deposit_limit_to_native(limit, ratio, max_balance as nat) == Ok::<
            DepositLimit<u128>,
            ConversionError,
        >(DepositLimit::Unchecked),
        deposit_limit_to_native(limit, ratio, max_balance as nat) is Ok ==> (deposit_limit_to_native(
            limit,
            ratio,
            max_balance as nat,
        )->Ok_0 is Unchecked <==> limit is Unchecked),
        limit is Balance && deposit_limit_to_native(limit, ratio, max_balance as nat) is Ok
            ==> deposit_limit_to_native(limit, ratio, max_balance as nat)->Ok_0->Balance_0 * ratio
            == limit->Balance_0@,
        limit is Balance ==> (deposit_limit_to_native(limit, ratio, max_balance as nat) is Ok <==> (
        limit->Balance_0@ % ratio == 0 && limit->Balance_0@ / ratio <= max_balance)),
{
    if limit is Balance {
        let v = limit->Balance_0@;
        lemma_fundamental_div_mod(v as int, ratio as int);
        if v == 0 {
            lemma_small_mod(0, ratio);
        }
        if v % ratio == 0 {
            lemma_mul_is_commutative((v / ratio) as int, ratio as int);
        }
    }
}

/// Converting a native amount to EVM units and back gives the same amount,
/// exactly or rounding up, whenever the ratio is not zero and the amount is a
/// balance of the native type.
pub proof fn lemma_native_evm_round_trip(
    value: u128,
    precision: ConversionPrecision,
    ratio: u32,
    max_balance: u128,
)
    requires
        ratio > 0,
        value <= max_balance,
    ensures
        evm_to_native(
            native_to_evm(value as nat, ratio as nat),
            precision,
            ratio as nat,
            max_balance as nat,
        ) == Ok::<u128, ConversionError>(value),
{
    lemma_native_product_fits(value, ratio);
    let v = value as nat * ratio as nat;
    lemma_mod_multiples_basic(value as int, ratio as int);
    lemma_div_multiples_vanish(value as int, ratio as int);
    lemma_mul_is_commutative(value as int, ratio as int);
    assert(native_to_evm(value as nat, ratio as nat) == v);
    assert(v % (ratio as nat) == 0);
    assert(v / (ratio as nat) == value);
}

/// A whole number of native units converts the same way exactly and rounding
/// up; any other non-zero amount has no exact conversion.
pub proof fn lemma_exact_agrees_with_round_up(value: nat, ratio: nat, max_balance: u128)
    requires
        ratio > 0,
    ensures
        value % ratio == 0 ==> evm_to_native(value, ConversionPrecision::Exact, ratio, max_balance as nat)
            == evm_to_native(value, ConversionPrecision::RoundUp, ratio, max_balance as nat),
        value % ratio != 0 ==> evm_to_native(value, ConversionPrecision::Exact, ratio, max_balance as nat)
            == Err::<
            u128,
            ConversionError,
        >(ConversionError::DecimalPrecisionLoss),
{
    if value == 0 {
        lemma_small_mod(0, ratio);
    }
}

/// Rounding up never loses value: the native amount covers the EVM amount and
/// exceeds it by less than one native unit.
pub proof fn lemma_round_up_bounds(value: nat, ratio: nat, max_balance: u128)
    requires
        ratio > 0,
        evm_to_native(value, ConversionPrecision::RoundUp, ratio, max_balance as nat) is Ok,
    ensures
        ({
            let native = evm_to_native(
                value,
                ConversionPrecision::RoundUp,
                ratio,
                max_balance as nat,
            )->Ok_0 as nat;
            value <= native * ratio && native * ratio < value + ratio
        }),
{
    let native = evm_to_native(value, ConversionPrecision::RoundUp, ratio, max_balance as nat)->Ok_0 as nat;
    lemma_fundamental_div_mod(value as int, ratio as int);
    lemma_mod_bound(value as int, ratio as int);
    let q = value / ratio;
    let m = value % ratio;
    assert(value == ratio * q + m);
    assert(m < ratio);
    if value == 0 {
        assert(native == 0);
        lemma_mul_basics(ratio as int);
    } else if m == 0 {
        assert(native == q);
        lemma_mul_is_commutative(q as int, ratio as int);
    } else {
        assert(native == q + 1);
        assert(native * ratio == ratio * q + ratio) by (nonlinear_arith)
            requires
                native == q + 1,
        ;
    }
}

} // verus!
