//! A vault minter: a program-derived authority mints a quota token in
//! exchange for value deposited by investors, over a verified model of the
//! ledger state that the program acts on.
pub mod address;
pub mod derivation;
pub mod table;
pub mod ledger;
pub mod vault;
pub mod laws;
