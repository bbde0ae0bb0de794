//! A concurrent amusement park: its configuration, its customers, its games
//! and the administrators that charge for them, with money kept in cents.

pub mod amount;
pub mod config;
pub mod customer;
pub mod game;
pub mod game_administrator;
pub mod ledger;
pub mod park;
pub mod ticket;
pub mod yaml;
