//! Response model: the typed result every resolver produces. A `Response`
//! carries the status, the negotiated media type, the content-encoding and
//! cache directives, and the body bytes; the transport layer only has to
//! write it out.

use vstd::prelude::*;

verus! {

/// Media type of a response body.
#[derive(Debug)]
pub enum MediaType {
    /// `application/x-protobuf`: binary tiles and glyph payloads.
    Protobuf,
    /// `application/json`: metadata, TileJSON, style and drilldown documents.
    Json,
    /// A content type taken verbatim from a static-asset table.
    Custom(Vec<u8>),
}

/// Mathematical model of a `MediaType`.
pub enum MediaModel {
    Protobuf,
    Json,
    Custom(Seq<u8>),
}

impl View for MediaType {
    type V = MediaModel;

    open spec fn view(&self) -> MediaModel {
        match self {
            MediaType::Protobuf => MediaModel::Protobuf,
            MediaType::Json => MediaModel::Json,
            MediaType::Custom(bytes) => MediaModel::Custom(bytes@),
        }
    }
}

/// One HTTP response, fully determined by the resolver that produced it.
pub struct Response {
    /// HTTP status code.
    pub status: u16,
    /// Media type of the body; `None` for bodiless responses.
    pub media: Option<MediaType>,
    /// Whether the response carries `Content-Encoding: gzip`.
    pub gzip_encoding: bool,
    /// Whether the transport may still apply its own compression. Cleared
    /// whenever `gzip_encoding` is set: encoding twice corrupts the payload
    /// for clients that decode once.
    pub transport_compression: bool,
    /// `Cache-Control: max-age=<seconds>`, when present.
    pub max_age: Option<u64>,
    /// Whether the response carries `Access-Control-Allow-Origin: *`.
    pub cors_any_origin: bool,
    /// Body bytes, possibly empty.
    pub body: Vec<u8>,
}

/// Mathematical model of a `Response`.
pub struct RespModel {
    pub status: u16,
    pub media: Option<MediaModel>,
    pub gzip_encoding: bool,
    pub transport_compression: bool,
    pub max_age: Option<u64>,
    pub cors_any_origin: bool,
    pub body: Seq<u8>,
}

impl View for Response {
    type V = RespModel;

    open spec fn view(&self) -> RespModel {
        RespModel {
            status: self.status,
            media: match self.media {
                Some(m) => Some(m@),
                None => None,
            },
            gzip_encoding: self.gzip_encoding,
            transport_compression: self.transport_compression,
            max_age: self.max_age,
            cors_any_origin: self.cors_any_origin,
            body: self.body@,
        }
    }
}

/// Model of the empty-bodied response with the given status: no media type,
/// no cache directive, no special encoding.
pub open spec fn spec_empty_response(status: u16) -> RespModel {
    RespModel {
        status: status,
        media: None,
        gzip_encoding: false,
        transport_compression: true,
        max_age: None,
        cors_any_origin: false,
        body: Seq::empty(),
    }
}

/// The empty-bodied response with the given status.
pub fn empty_response(status: u16) -> (r: Response)
    ensures
        r@ == spec_empty_response(status),
{
    let r = Response {
        status: status,
        media: None,
        gzip_encoding: false,
        transport_compression: true,
        max_age: None,
        cors_any_origin: false,
        body: Vec::new(),
    };
    proof {
        assert(r@ =~= spec_empty_response(status));
    }
    r
}

} // verus!
