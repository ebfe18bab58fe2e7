//! Tile and font resolution gateway: the request-dispatch core of a vector
//! tile server. Routes are matched against a fixed template table; tile,
//! font, static-asset and drilldown requests are resolved to typed responses
//! with exact content-negotiation and cache-control semantics.

pub mod bytes;
pub mod drilldown;
pub mod fonts;
pub mod gateway;
pub mod http;
pub mod router;
pub mod statics;
pub mod tiles;
