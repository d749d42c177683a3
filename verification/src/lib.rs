//! Verified logic of three small home-lab tools: an SMS terminal client,
//! a DNS-over-HTTPS proxy and a container-metrics exporter.
pub mod text;
pub mod sms;
pub mod editor;
pub mod conversations;
pub mod app;
pub mod view;
pub mod doh;
pub mod metrics;
