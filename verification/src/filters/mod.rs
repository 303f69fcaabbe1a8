//! Jekyll filters, each stated over plain values.
pub mod cgi_escape;
pub mod words;
pub mod collections;
pub mod grouping;
pub mod numbers;
pub mod urls;
pub mod dates;
pub mod markdownify;
pub mod jsonify;
