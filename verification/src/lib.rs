//! LDAP v3 client core: message model, filter parsing, paged-results control,
//! frame codec and the decision logic of the connection and operation layers.
//!
//! Nothing here touches a socket. The caller moves the bytes and the
//! messages, and asks this library what they mean and what to send.

pub mod channel;
pub mod client;
pub mod codec;
pub mod conn;
pub mod controls;
pub mod error;
pub mod filter;
pub mod gssapi;
pub mod model;
pub mod oid;
pub mod options;
pub mod paging;
pub mod request;

pub use client::{LdapClient, LdapClientBuilder, Pages, SearchEntries, SearchStep};
pub use model::{
    Attribute, Attributes, ResultCode, SearchEntry, SearchRequestDerefAliases, SearchRequestScope,
};
pub use options::{TlsKind, TlsOptions};
pub use request::{ModifyRequest, ModifyRequestBuilder, SearchRequest, SearchRequestBuilder};
