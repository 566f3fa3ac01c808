//! An HTTP/1.1 server library that serves npm-expansion trivia as JSON: request
//! parsing, content negotiation, routing, response writing and the expansion and
//! history models behind them.
use vstd::prelude::*;

pub mod accept_header_handler;
pub mod default_controller;
pub mod expansions_getter;
pub mod expansions_model;
pub mod expansions_updater;
pub mod history_model;
pub mod http_response;
pub mod mime_type;
pub mod npm_controller;
pub mod npm_expansion_error;
pub mod quality;
pub mod request;
pub mod router;
pub mod stream_handler;
pub mod text;

verus! {

/// Adds two numbers.
pub fn add(left: usize, right: usize) -> (r: usize)
    requires
        left + right <= usize::MAX,
    ensures
        r == left + right,
{
    left + right
}

} // verus!
