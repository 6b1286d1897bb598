//! A super fast 42 API connector
//!
//! Makes it easy to fetch data from the 42 API: rate limited, and able to fetch all the pages of an
//! endpoint. This crate decides what is sent and what is made of the responses, on plain values; what
//! it decides is stated in contracts and proved. Sending, waiting and the clock belong to the program
//! around it.
//!
//! - [`option`]: HTTP options and the query strings that they make.
//! - [`client`]: the client's settings and the requests that it makes.
//! - [`call`]: one call, from the token that it needs to the response that it comes to.
//! - [`pages`]: endpoints that answer page by page.
//! - [`request`], [`headers`], [`secret`], [`decimal`]: what those are made of.

pub mod call;
pub mod client;
pub mod decimal;
pub mod headers;
pub mod option;
pub mod pages;
pub mod request;
pub mod secret;

pub use call::{Action, ApiCall, Event, PendingCall, Step};
pub use client::{AccessToken, ApiCredentials, Fast42, RateLimit, ServicePlan};
pub use option::{
    format_options, format_options_from_map, get_options_string_and_page_size,
    page_size_is_ignored, HttpOption,
};
pub use pages::{
    after_first_page, collect_pages, first_page_total, parse_total, read_total, total_header,
    FirstPageError, PagedEndpoint, TotalError,
};
pub use request::{Body, HttpRequest, Method};
pub use secret::SecretString;
