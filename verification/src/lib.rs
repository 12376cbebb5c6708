//! Messaging patterns over many streams at once.
//!
//! * [`push`] sends each message to one of the streams, in turn.
//! * [`publish`] sends each message to all streams.
//! * [`req`] sends each request to one of the streams, in turn, and waits for the reply.
//! * [`rep`] answers the requests that come from the streams.
//! * [`sub`] and [`pull`] receive the messages of all streams.
//!
//! Each of these makes a machine that is polled. Streams join while it runs, by way of a
//! channel, and those that are gone are reported to another one.
pub mod calls;
pub mod cause_laws;
pub mod chain_laws;
pub mod channel;
pub mod close_laws;
pub mod exchange_laws;
pub mod fuzz_laws;
pub mod fuzzer;
pub mod line_laws;
pub mod merge;
pub mod order_laws;
pub mod owned_close;
pub mod promise;
pub mod pub_cause_laws;
pub mod pub_exchange_laws;
pub mod pub_impl;
pub mod pub_laws;
pub mod pub_order_laws;
pub mod pub_report_laws;
pub mod publish_laws;
pub mod pull_impl;
pub mod push_cause_laws;
pub mod push_exchange_laws;
pub mod push_impl;
pub mod push_laws;
pub mod push_stream;
pub mod rep_exchange_laws;
pub mod rep_impl;
pub mod rep_laws;
pub mod report_laws;
pub mod req_cause_laws;
pub mod req_exchange_laws;
pub mod req_impl;
pub mod req_laws;
pub mod req_report_laws;
pub mod stream;
pub mod sub_impl;
pub mod sub_laws;
pub mod task;
pub mod turn_laws;

pub use async_channel::{Receiver, Sender};

pub use crate::pub_impl::publish;
pub use crate::pull_impl::pull;
pub use crate::push_impl::push;
pub use crate::rep_impl::rep;
pub use crate::req_impl::req;
pub use crate::stream::{PatternStream, ResultStream};
pub use crate::sub_impl::sub;
