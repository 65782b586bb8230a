[package]
name = "nft_bid_market"
version = "0.1.0"
edition = "2021"
publish = false
