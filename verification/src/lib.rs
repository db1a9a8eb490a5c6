use vstd::prelude::*;

pub mod text;
pub mod lines;
pub mod sanitize;
pub mod vault_api;
pub mod storage;
pub mod bookmarks;
pub mod otpauth;
pub mod query_law;
pub mod order;
pub mod theme;
pub mod ui;
pub mod keys;
pub mod menus;
pub mod screens;
pub mod photos;
pub mod passkeys;
pub mod scan;
pub mod qr;


verus! {

} // verus!
