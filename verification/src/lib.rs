//! A proxy's verified core: reading stored HTTP requests back, writing
//! them for storage, building probe requests for a command-injection scan,
//! paging through the request history and reading console commands.
pub mod text;
pub mod numbers;
pub mod request;
pub mod cli;
pub mod proxy;
pub mod scan;
pub mod store;
