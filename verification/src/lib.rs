pub mod block;
pub mod blockchain;
pub mod cli;
pub mod digest;
pub mod encoding;
pub mod errors;
pub mod transaction;
pub mod utxo;
pub mod wallet;
