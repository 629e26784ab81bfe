//! Parsing of HTTP/1.x request text into typed requests and headers.
//!
//! `HttpRequest::new` splits a request into lines, reads the method and
//! target from the first one and parses the others with `HttpHeader::new`;
//! header lines that do not parse are left out. Each is specified exactly
//! by a spec function over the characters of its input (`request_of`,
//! `header_of`).

mod error;
mod header;
mod request;
pub mod text;

pub use error::ParseError;
pub use header::{
    HeaderNameView, HeaderView, HttpHeader, HttpHeaderName, header_name_of, header_of,
    lemma_custom_name_kept, lemma_header_line_value, lemma_header_name_case_insensitive,
    lemma_header_split, lemma_known_header_line, lemma_no_colon,
};
pub use request::{
    HttpMethod, HttpRequest, MethodView, RequestView, after_first_token, first_token, headers_of,
    lemma_extension_kept, lemma_method_case_insensitive, lemma_single_token_request, method_of,
    request_of,
};
