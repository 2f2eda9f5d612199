//! Market-data ingestion and alerting logic for a Cloudflare Worker:
//! decimal text, a JSON value model, price bars from two market-data
//! providers, alert cooldowns, the JSON API routing and the scheduled engine.

pub mod decimal;
pub mod float_text;
pub mod json;
pub mod bars;
pub mod alpha_vantage;
pub mod finnhub;
pub mod feeds;
pub mod cooldown;
pub mod alerts;
pub mod api;
pub mod engine;
