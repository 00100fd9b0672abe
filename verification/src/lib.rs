//! Certificate renewal logic for ACME DNS-01 challenges answered through the
//! West.cn DNS API: names and zones, the DNS API's requests and answers, the
//! renewal decision, certificate signing requests and the order flow's steps.

pub mod acme;
pub mod cert;
pub mod config;
pub mod csr;
pub mod dns;
pub mod domain;
pub mod renewal;
pub mod text;

pub use cert::Cert;
pub use domain::{valid, zone_info};
