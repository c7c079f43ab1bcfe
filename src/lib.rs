//! Resolution of GitLab CI configuration documents: jobs that extend other
//! jobs, configurations layered on the files they import, and the variables
//! that result from both kinds of inheritance.
//!
//! Documents arrive already read into [`Node`] trees, keyed by file name;
//! [`parse`] assembles the configuration of one of them.
pub mod text;
pub mod doc;
pub mod vars;
pub mod extract;
pub mod job;
pub mod config;
pub mod resolve;
pub mod paths;
pub mod imports;
pub mod assemble;
pub mod laws;

pub use assemble::{parse, ParseError};
pub use config::{GitlabCIConfig, JobTable};
pub use doc::Node;
pub use job::Job;
pub use vars::Variables;
