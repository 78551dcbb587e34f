//! Client-side logic for the Beijing real-time bus service: the aibang
//! stream cipher that protects the service's fields, the decimal text
//! conventions of its XML payloads, and the state machines that turn the
//! payloads' XML events into bus lines, stations and id/version lists.
pub mod api;
pub mod bus;
pub mod text;
pub mod cipher;
pub mod poll;
pub mod request;
