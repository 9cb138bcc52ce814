//! Harbor: the verified core of a small web browser.
//!
//! The modules hold the parsing logic of the browser: the code-point
//! classification and input streams shared by the parsers (`infra`), the
//! WHATWG URL parser with its host, IPv4 and IPv6 parsers (`http::url`), the
//! simple `scheme://host:port/path` splitter (`http`), the HTTP/1.x request
//! encoder and incremental response decoder (`http_client`), and the tokens,
//! tags and input streams of the HTML5 tokenizer (`html5`).
#![allow(unused_imports)]
#![allow(non_camel_case_types)]
#![allow(dead_code)]

pub mod text;
pub mod infra;
pub mod http;
pub mod http_client;
pub mod html5;
