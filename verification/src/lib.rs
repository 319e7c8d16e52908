pub mod calendar;
pub mod cipher;
pub mod config;
pub mod decimal;
pub mod hexstr;
pub mod ident;
pub mod json;
pub mod lookup;
pub mod models;
pub mod text;
pub mod transfer;
pub mod urlenc;
pub mod validate;
