//! Client-side core of a DeArrow branding lookup: the parser that turns a
//! YouTube link or a bare identifier into a video identifier, and the data
//! that travels to and from the branding service.
//!
//! - [`dearrow_api`]: `VideoId` and its parser, `BrandingRequest`, the
//!   records of `BrandingResponse`, and `DeArrowApiError`.
//! - [`identifier`]: what the parser finds, as a function of the input, and
//!   what follows from it for identifiers, links and everything else.
//! - [`segments`]: text split at `/`.
//! - [`text`]: comparing and cutting text by its bytes.
//!
//! Text is handled as its UTF-8 bytes throughout. For ASCII input, which is
//! what video identifiers and their links consist of, a byte is a character.

pub mod text;
pub mod segments;
pub mod identifier;
pub mod dearrow_api;
