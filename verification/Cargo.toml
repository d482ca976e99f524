[package]
name = "token_ledger"
version = "0.1.0"
edition = "2021"
publish = false

[dependencies]
candid = "=0.8.4"
ic-cdk = "=0.6.10"
ic-cdk-macros = "=0.6.10"
ic-cron = "=0.7.1"
ic-event-hub-macros = "=0.3.1"
serde = "=1.0.229"
