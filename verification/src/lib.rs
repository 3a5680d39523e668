pub mod chars;
pub mod codec;
pub mod checkout;
pub mod commits;
pub mod constants;
pub mod entries;
pub mod error;
pub mod hasher;
pub mod json;
pub mod model;
pub mod numfmt;
pub mod paths;
pub mod refs;
pub mod schemas;
pub mod staging;
pub mod stats;
pub mod strmap;
pub mod urls;
