//! Syscalls that programs in a BPF virtual machine call.
pub mod allocator;
pub mod context;
pub mod crypto;
pub mod error;
pub mod guest;
pub mod instruction;
pub mod invoke;
pub mod invoke_signed;
pub mod log;
pub mod memory;
pub mod native_token;
pub mod program_address;
pub mod pubkey;
pub mod register;
pub mod text;
