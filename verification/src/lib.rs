//! A self-feeding message pipeline with adversarial validation.
//!
//! # Zero Trust
//!
//! No agent response is trusted. Ever. Every message, including handler
//! responses that get re-injected, enters as raw untrusted bytes and goes
//! through the full validation gauntlet. The pipeline IS the trust boundary.
//!
//! ```text
//! [Raw Bytes] → parse → validate → route → enforce(peers) → dispatch(handler)
//!      ↑                                                          |
//!      └────── serialize to raw bytes (UNTRUSTED) ────────────────┘
//! ```
//!
//! # Layout
//!
//! The types of the wire are in [`wire`], [`address`] and [`provenance`]; [`grammar`] says
//! which markup stands for which envelope and proves that what is written is read back,
//! [`survival`] that nothing else is, and [`layout`] how it may be laid out; [`codec`] is
//! the code that writes and reads. The gates that a message passes are [`validation`],
//! [`routing`] and [`thread`], put together in [`pipeline`];
//! [`middleware`] decides what a dispatch calls next. [`federation`] seals messages
//! between nodes and [`switchboard`] puts them into a pipeline. [`markup`] is the boundary
//! to the XML reader and writer, [`text`], [`numbers`] and [`strmap`] are shared helpers.

pub mod address;
pub mod codec;
pub mod config;
pub mod envelope;
pub mod error;
pub mod federation;
pub mod grammar;
pub mod handler;
pub mod layout;
pub mod markup;
pub mod middleware;
pub mod numbers;
pub mod pipeline;
pub mod prelude;
pub mod provenance;
pub mod registry;
pub mod routing;
pub mod strmap;
pub mod survival;
pub mod switchboard;
pub mod text;
pub mod thread;
pub mod validation;
pub mod wire;
