//! Balance conversions and debug-buffer decoding used by the contract sandbox
//! when it talks to `pallet-revive`.

pub mod balance;
pub mod debug_buffer;
pub mod u256;

pub use u256::U256;
pub use debug_buffer::decode_debug_buffer;
pub use balance::{
    call_arguments, convert_evm_to_native, convert_native_to_evm, storage_deposit_limit_fn,
    upload_deposit_limit, upload_result_to_evm, CodeUploadReturnValue, ConversionError,
    ConversionPrecision, DepositLimit,
};
