//! Verified core of a movie catalog service.
//!
//! The catalog holds directors, actors, genres, movies and the two
//! many-to-many association tables linking movies to actors and genres.
//! The library provides the write-side validation (movie creation with
//! foreign-key checks) and the aggregate read path: cross-entity substring
//! search, pagination, and assembly of nested movie records.

pub mod aggregate;
pub mod laws;
pub mod models;
pub mod text;
pub mod write;
