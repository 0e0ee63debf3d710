//! Rendering of PGHR13 verification keys into verifier contract source code
//! for two targets: Solidity for EVM chains and Java for the Aion virtual
//! machine.
pub mod avm;
pub mod key;
pub mod pghr13;
pub mod scalar;
pub mod solidity;
pub mod text;

pub use avm::{avm_point, push_avm_ic_body, render_avm_contract};
pub use key::{parse_count_text, read_key_document, split_key_line, trim_text, KeyDocument, KeyError};
pub use pghr13::{SolidityLibraries, PGHR13};
pub use solidity::{push_solidity_ic_body, render_solidity_contract};
pub use text::push_decimal;
