//! Marshalling layer for an embedded database engine exposed to a host
//! runtime: option, capability and credential parsing, resource and patch
//! interpretation, request-frame encoding and decoding, RPC dispatch
//! planning, response normalization and export assembly, each with a
//! verified contract. The engine itself — query execution, storage,
//! transactions — sits behind this layer and is not part of it.

pub mod array_response;
pub mod capabilities;
pub mod connect;
pub mod credentials;
pub mod endpoint;
pub mod error;
pub mod export;
pub mod frame;
pub mod patch;
pub mod resource;
pub mod rpc;
pub mod value;
