//! The logic of a Couchbase client's core: index routing and the indexer's
//! wire protocol, cluster config parsing, connection bookkeeping, and the
//! key-value request plumbing. Every item is verified; sockets, timers and
//! parsing into schema types live in the program around it.
#![allow(unused_imports)]

use vstd::prelude::*;

pub mod address;
pub mod agent;
pub mod agent_ops;
pub mod authenticator;
pub mod buffer;
pub mod collection_resolver_cached;
pub mod componentconfigs;
pub mod configparser;
pub mod crudcomponent;
pub mod crudoptions;
pub mod duration;
pub mod error;
pub mod failure;
pub mod httpx;
pub mod indexcomponent;
pub mod indexerclient_provider;
pub mod indexerx;
pub mod indexrouter;
pub mod kvrequest;
pub mod kvresult;
pub mod licence;
pub mod memdx;
pub mod mutationtoken;
pub mod parsedconfig;
pub mod retry;
pub mod service_type;
pub mod sorting;
pub mod string_map;
pub mod text;
