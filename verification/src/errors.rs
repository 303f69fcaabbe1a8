//! Errors of template work.
use vstd::prelude::*;
use crate::text::{chars_to_string, push_all, str_to_chars};

verus! {

/// Errors that can occur during template operations.
pub enum TemplateError {
    /// Template failed to parse.
    ParseError(String),
    /// Template failed to render.
    RenderError(String),
    /// YAML-to-Liquid value conversion failed.
    ConversionError(String),
    /// Reading a layout or include file failed; holds the I/O error's text.
    IoError(String),
    /// Layout not found.
    LayoutNotFound(String),
}

/// The text an error reports: a fixed prefix, then its detail.
pub open spec fn error_message(e: TemplateError) -> Seq<char> {
    match e {
        TemplateError::ParseError(d) => "template parse error: "@ + d@,
        TemplateError::RenderError(d) => "template render error: "@ + d@,
        TemplateError::ConversionError(d) => "conversion error: "@ + d@,
        TemplateError::IoError(d) => "I/O error: "@ + d@,
        TemplateError::LayoutNotFound(d) => "layout not found: "@ + d@,
    }
}

impl TemplateError {
    /// The text the error reports.
    pub fn message(&self) -> (r: String)
        ensures
            r@ == error_message(*self),
    {
        let (prefix, detail) = match self {
            TemplateError::ParseError(d) => (str_to_chars("template parse error: "), d),
            TemplateError::RenderError(d) => (str_to_chars("template render error: "), d),
            TemplateError::ConversionError(d) => (str_to_chars("conversion error: "), d),
            TemplateError::IoError(d) => (str_to_chars("I/O error: "), d),
            TemplateError::LayoutNotFound(d) => (str_to_chars("layout not found: "), d),
        };
        let mut out = prefix;
        push_all(&mut out, &str_to_chars(detail.as_str()));
        chars_to_string(&out)
    }
}

} // verus!
