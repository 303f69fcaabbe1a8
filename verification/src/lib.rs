//! Liquid template preprocessing and Jekyll filter logic.
#![allow(unused_imports)]

pub mod text;
pub mod spans;
pub mod tagbody;
pub mod capture;
pub mod nil_contains;
pub mod quotes;
pub mod numfmt;
pub mod if_filters;
pub mod assigns;
pub mod braces;
pub mod outputs;
pub mod protect;
pub mod link;
pub mod value;
pub mod bytes;
pub mod filters;
pub mod errors;
pub mod includes;
pub mod tags;
pub mod outside;
pub mod pipeline;
pub mod filter_names;
pub mod context;
pub mod lenient;
