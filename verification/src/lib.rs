//! Metrics of a load test: how they are collected, merged and laid out as text.

pub mod attack;
pub mod codes;
pub mod columns;
pub mod consistency;
pub mod counts;
pub mod display;
pub mod entries;
pub mod error;
pub mod figures;
pub mod goose;
pub mod layout;
pub mod metrics;
pub mod name_map;
pub mod order;
pub mod pages;
pub mod ranks;
pub mod receive;
pub mod recording;
pub mod report;
pub mod request;
pub mod sheets;
pub mod sorted_map;
pub mod sums;
pub mod task;
pub mod text;
pub mod times;
pub mod timing;
pub mod writing;
