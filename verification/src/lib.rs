//! Release tracking for a film watchlist: identity resolution, per-country
//! release data with fallback tiers, and a freshness-bounded cache.
//!
//! The library decides; it neither reads a page nor asks a provider nor
//! touches a database. A run is a sequence of states ([`pipeline`], with
//! what holds of it in [`pipeline_laws`]), built
//! of steps on plain values ([`processor`]): the resolution of a film to a
//! catalog identity ([`resolver`]), what is made of the provider's answers
//! ([`tmdb`]), the country fallback ([`fallback`]), the cache with its
//! freshness rule ([`cache`], with what holds of it in [`cache_laws`]) and
//! the order of the final list ([`ranking`]); how much work may be in flight
//! at once is kept by [`fanout`]. [`scraper`], [`routes`],
//! [`error`] and [`db`] hold what is decided at the edges: what a page says,
//! what a request must look like, what the user is told, and which
//! statements a schema script consists of. [`models`], [`date`], [`text`],
//! [`releases`] and [`order`] are the data and the mathematics below.

pub mod cache;
pub mod cache_laws;
pub mod date;
pub mod db;
pub mod error;
pub mod fallback;
pub mod fanout;
pub mod models;
pub mod order;
pub mod pipeline;
pub mod pipeline_laws;
pub mod processor;
pub mod ranking;
pub mod releases;
pub mod resolver;
pub mod routes;
pub mod scraper;
pub mod text;
pub mod tmdb;
