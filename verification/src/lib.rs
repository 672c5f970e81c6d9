//! An artificial-chemistry reactor over untyped lambda terms.
//!
//! A [`soup::Soup`] owns a population of closed lambda terms. Each reaction
//! draws two of them, applies every reaction rule to the pair, reduces the
//! result under a step cap and a size cap, filters it, and feeds what survives
//! back into the population. The drivers repeat reactions and observe the soup
//! on a fixed cadence; the measurements count and rank what the soup holds.

pub mod term;

pub mod reaction;

pub mod rng;

pub mod config;

pub mod soup;

pub mod analysis;

pub mod generators;

pub mod experiments;
