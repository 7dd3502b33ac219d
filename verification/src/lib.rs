//! A small file-transfer server: a command console that starts and queries
//! the server, and an HTTP/1.1 responder that serves the files of one
//! directory and an index page that links to them.

pub mod cli;
pub mod file_tree;
pub mod html_parse;
pub mod http_parse;
pub mod response;
pub mod run;
pub mod serve;
pub mod text;
pub mod transfer;

pub use cli::{Cli, Commands};
pub use file_tree::FileTree;
pub use html_parse::join_index;
pub use http_parse::{handle_request, response, DeserializeRequset, SerializeResponse};
pub use run::run;
pub use serve::Serve;
pub use transfer::Transfer;
