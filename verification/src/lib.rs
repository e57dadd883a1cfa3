//! A minimal HTTP/1.1 message model: a verified request parser that turns raw
//! request text into a structured value, and a verified response builder that
//! serializes a structured value into wire-format text.

pub mod headers;
pub mod httprequest;
pub mod httpresponse;
pub mod text;
