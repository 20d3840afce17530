use ink_sandbox::{
    call_arguments, upload_deposit_limit, upload_result_to_evm, CodeUploadReturnValue, convert_evm_to_native, convert_native_to_evm, storage_deposit_limit_fn,
    ConversionError, ConversionPrecision, DepositLimit, U256,
};

const RATIO: u32 = 1_000_000;
const MAX: u128 = u128::MAX;

fn evm(value: u128) -> U256 {
    U256([value as u64, (value >> 64) as u64, 0, 0])
}

#[test]
fn native_to_evm_multiplies_by_ratio() {
    let r = convert_native_to_evm(5, RATIO);
    assert_eq!(r.0, [5_000_000, 0, 0, 0]);
}

#[test]
fn native_to_evm_of_zero_is_zero() {
    assert_eq!(convert_native_to_evm(0, RATIO).0, [0, 0, 0, 0]);
    assert_eq!(convert_native_to_evm(7, 0).0, [0, 0, 0, 0]);
}

#[test]
fn native_to_evm_spans_words() {
    // (2^128 - 1) * (2^32 - 1) does not fit in 128 bits.
    let r = convert_native_to_evm(u128::MAX, u32::MAX);
    let expected = sp_core::U256::from(u128::MAX) * sp_core::U256::from(u32::MAX);
    assert_eq!(r.0, expected.0);
    assert_ne!(r.0[2], 0);
}

#[test]
fn native_to_evm_fills_two_words() {
    let v = convert_native_to_evm((7u128 << 64) | 9, 1);
    assert_eq!(v.0, [9, 7, 0, 0]);
}

#[test]
fn evm_to_native_zero_whatever_the_ratio() {
    assert_eq!(
        convert_evm_to_native(U256::zero(), ConversionPrecision::Exact, 0, MAX),
        Ok(0)
    );
    assert_eq!(
        convert_evm_to_native(U256::zero(), ConversionPrecision::RoundUp, RATIO, MAX),
        Ok(0)
    );
}

#[test]
fn evm_to_native_exact_division() {
    assert_eq!(
        convert_evm_to_native(evm(42_000_000), ConversionPrecision::Exact, RATIO, MAX),
        Ok(42)
    );
    assert_eq!(
        convert_evm_to_native(evm(42_000_000), ConversionPrecision::RoundUp, RATIO, MAX),
        Ok(42)
    );
}

#[test]
fn evm_to_native_exact_loses_precision() {
    assert_eq!(
        convert_evm_to_native(evm(42_000_001), ConversionPrecision::Exact, RATIO, MAX),
        Err(ConversionError::DecimalPrecisionLoss)
    );
    assert_eq!(
        convert_evm_to_native(evm(1), ConversionPrecision::Exact, RATIO, MAX),
        Err(ConversionError::DecimalPrecisionLoss)
    );
}

#[test]
fn evm_to_native_round_up() {
    assert_eq!(
        convert_evm_to_native(evm(42_000_001), ConversionPrecision::RoundUp, RATIO, MAX),
        Ok(43)
    );
    assert_eq!(
        convert_evm_to_native(evm(1), ConversionPrecision::RoundUp, RATIO, MAX),
        Ok(1)
    );
    assert_eq!(
        convert_evm_to_native(evm(10), ConversionPrecision::RoundUp, 3, MAX),
        Ok(4)
    );
}

#[test]
fn evm_to_native_balance_overflow() {
    // 2^128 with ratio 1 does not fit in a u128.
    let v = U256([0, 0, 1, 0]);
    assert_eq!(
        convert_evm_to_native(v, ConversionPrecision::Exact, 1, MAX),
        Err(ConversionError::BalanceConversionFailed)
    );
    // The largest u128 with ratio 1 fits.
    assert_eq!(
        convert_evm_to_native(evm(u128::MAX), ConversionPrecision::Exact, 1, MAX),
        Ok(u128::MAX)
    );
    // Rounding (2^128 - 1) * 2 + 1 up over 2 gives 2^128, which does not fit.
    let w = convert_native_to_evm(u128::MAX, 2);
    let odd = U256([w.0[0] | 1, w.0[1], w.0[2], w.0[3]]);
    assert_eq!(
        convert_evm_to_native(odd, ConversionPrecision::RoundUp, 2, MAX),
        Err(ConversionError::BalanceConversionFailed)
    );
}

#[test]
fn evm_to_native_of_largest_amount() {
    let max = U256([u64::MAX; 4]);
    assert_eq!(
        convert_evm_to_native(max, ConversionPrecision::RoundUp, u32::MAX, MAX),
        Err(ConversionError::BalanceConversionFailed)
    );
    assert_eq!(
        convert_evm_to_native(max, ConversionPrecision::Exact, 2, MAX),
        Err(ConversionError::DecimalPrecisionLoss)
    );
}

#[test]
fn native_evm_round_trip() {
    for value in [0u128, 1, 42, 123_456_789, u128::MAX] {
        for ratio in [1u32, 3, RATIO, u32::MAX] {
            let e = convert_native_to_evm(value, ratio);
            assert_eq!(convert_evm_to_native(e, ConversionPrecision::Exact, ratio, MAX), Ok(value));
            assert_eq!(
                convert_evm_to_native(e, ConversionPrecision::RoundUp, ratio, MAX),
                Ok(value)
            );
        }
    }
}

#[test]
fn round_up_covers_amount() {
    let value = 42_000_001u128;
    let native = convert_evm_to_native(evm(value), ConversionPrecision::RoundUp, RATIO, MAX).unwrap();
    let back = convert_native_to_evm(native, RATIO);
    let back = u128::from(back.0[0]) | (u128::from(back.0[1]) << 64);
    assert!(value <= back);
    assert!(back < value + u128::from(RATIO));
}

#[test]
fn deposit_limit_unchecked_stays() {
    assert_eq!(
        storage_deposit_limit_fn(DepositLimit::Unchecked, RATIO, MAX),
        Ok(DepositLimit::Unchecked)
    );
    assert_eq!(
        storage_deposit_limit_fn(DepositLimit::Unchecked, 0, MAX),
        Ok(DepositLimit::Unchecked)
    );
}

#[test]
fn deposit_limit_balance_converts_exactly() {
    assert_eq!(
        storage_deposit_limit_fn(DepositLimit::Balance(evm(100_000_000_000_000)), RATIO, MAX),
        Ok(DepositLimit::Balance(100_000_000))
    );
    assert_eq!(
        storage_deposit_limit_fn(DepositLimit::Balance(evm(100_000_000_000_001)), RATIO, MAX),
        Err(ConversionError::DecimalPrecisionLoss)
    );
    assert_eq!(
        storage_deposit_limit_fn(DepositLimit::Balance(U256([0, 0, 1, 0])), 1, MAX),
        Err(ConversionError::BalanceConversionFailed)
    );
}

#[test]
fn call_arguments_convert_both() {
    let (value, limit) = call_arguments(
        evm(3_000_000),
        DepositLimit::Balance(evm(100_000_000_000_000)),
        RATIO, MAX);
    assert_eq!(value, 3);
    assert_eq!(limit, DepositLimit::Balance(100_000_000));
    let (value, limit) = call_arguments(U256::zero(), DepositLimit::Unchecked, RATIO, MAX);
    assert_eq!(value, 0);
    assert_eq!(limit, DepositLimit::Unchecked);
}

#[test]
fn narrow_balance_type_bounds_conversion() {
    // A runtime whose balance is a u64 cannot hold 2^64.
    let two_pow_64 = U256([0, 1, 0, 0]);
    assert_eq!(
        convert_evm_to_native(two_pow_64, ConversionPrecision::Exact, 1, u128::from(u64::MAX)),
        Err(ConversionError::BalanceConversionFailed)
    );
    assert_eq!(
        convert_evm_to_native(two_pow_64, ConversionPrecision::Exact, 2, u128::from(u64::MAX)),
        Ok(1u128 << 63)
    );
    assert_eq!(
        convert_evm_to_native(evm(u128::from(u64::MAX)), ConversionPrecision::Exact, 1, u128::from(u64::MAX)),
        Ok(u128::from(u64::MAX))
    );
    assert_eq!(
        storage_deposit_limit_fn(DepositLimit::Balance(two_pow_64), 1, u128::from(u64::MAX)),
        Err(ConversionError::BalanceConversionFailed)
    );
}

#[test]
fn upload_limit_converts_exactly() {
    assert_eq!(upload_deposit_limit(evm(100_000_000_000_000), RATIO, MAX), 100_000_000);
    assert_eq!(upload_deposit_limit(U256::zero(), 0, MAX), 0);
}

#[test]
fn upload_result_deposit_in_evm_units() {
    let answer: Result<CodeUploadReturnValue<u128>, &str> =
        Ok(CodeUploadReturnValue { code_hash: [7u8; 32], deposit: 25 });
    let seen = upload_result_to_evm(answer, RATIO).unwrap();
    assert_eq!(seen.code_hash, [7u8; 32]);
    assert_eq!(seen.deposit.0, [25_000_000, 0, 0, 0]);
    let refused: Result<CodeUploadReturnValue<u128>, &str> = Err("CodeRejected");
    assert_eq!(upload_result_to_evm(refused, RATIO).err(), Some("CodeRejected"));
}
