//! Logic of a live order-book trading terminal.

pub mod account;
pub mod arith;
pub mod bars;
pub mod charts;
pub mod desk;
pub mod dock;
pub mod exchange;
pub mod execution;
pub mod geometry;
pub mod heatmap;
pub mod json;
pub mod ladder;
pub mod layouts;
pub mod lens;
pub mod panel;
pub mod perf;
pub mod picker;
pub mod pipeline;
pub mod pointer;
pub mod report;
pub mod session;
pub mod signal;
pub mod signing;
pub mod slices;
pub mod snapshot;
pub mod strategy;
pub mod strategy_config;
pub mod tape;
pub mod terminal;
pub mod text;
pub mod workspace;
