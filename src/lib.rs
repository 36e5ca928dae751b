//! Service-layer logic of the learning-game backend: ranked leaderboards with a
//! fixed capacity, a sliding-window presence counter, coupon redemption and
//! review aggregation, over an in-process store.

pub mod error;
pub mod keyed;
pub mod record;
pub mod leaderboard;
pub mod presence;
pub mod coupon;
pub mod review;
pub mod profile;
pub mod storage;
pub mod services;
pub mod dto;
pub mod api;
pub mod migration;
pub mod clock;
