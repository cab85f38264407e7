//! Parsing and bookkeeping for Sei blockchain transactions: NFT trades,
//! token swaps, per-wallet histories and the statistics built on them.
#![allow(non_camel_case_types)]
#![allow(non_snake_case)]

pub mod text;
pub mod model;
pub mod select;
pub mod nft_parse;
pub mod token_swap;
pub mod time;
pub mod store;
pub mod stats;
pub mod assoc;
pub mod holdings;
pub mod trade_info;
pub mod income;
pub mod tokens;
pub mod routing;
pub mod history;
pub mod scan;
