//! Endpoint resolution and application for an HTTP client request pipeline.
//!
//! A resolver turns per-operation parameters into an [`Endpoint`] (a base URL
//! plus mandatory headers); [`apply_endpoint`] then merges that endpoint into a
//! request that has not been sent yet, either completely or not at all.
pub mod outside;
pub mod endpoint;
pub mod resolver;

pub use endpoint::{
    apply_endpoint, apply_resolved, orchestrate_endpoint, Endpoint, EndpointError, HeaderSyntaxError, HttpRequest,
};
pub use resolver::{
    DefaultEndpointResolver, EndpointResolver, ResolveEndpoint, StaticUriEndpointResolver,
    StaticUriEndpointResolverParams,
};
