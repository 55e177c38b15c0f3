//! The node's gRPC endpoint.
use tonic::transport::Endpoint;
use vstd::prelude::*;
use vstd::string::*;

use crate::text::contains;
#[allow(unused_imports)]
use crate::text::occurs;

verus! {

/// An endpoint of `tonic`.
#[verifier::external_type_specification]
#[verifier::external_body]
pub struct ExEndpoint(tonic::transport::Endpoint);

/// The transport error of `tonic`.
#[verifier::external_type_specification]
#[verifier::external_body]
pub struct ExTransportError(tonic::transport::Error);

/// The endpoint that `tonic` makes of a URI, if it takes the URI.
pub uninterp spec fn endpoint_for(uri: Seq<char>) -> Option<Endpoint>;

/// Calls `Endpoint::new` on a URI. What comes back depends on the URI alone: an endpoint if the
/// text can be parsed, and an error if not.
#[verifier::external_body]
fn new_endpoint(uri: String) -> (r: Result<Endpoint, tonic::transport::Error>)
    ensures
        match r {
            Ok(endpoint) => endpoint_for(uri@) == Some(endpoint),
            Err(_) => endpoint_for(uri@) is None,
        },
{
    Endpoint::new(uri)
}

/// Whether `Endpoint::new` failed with this error for a URI.
pub closed spec fn endpoint_refused(uri: Seq<char>, e: tonic::transport::Error) -> bool {
    exists|text: String|
        text@ == uri && #[trigger] call_ensures(
            new_endpoint,
            (text,),
            Err::<Endpoint, tonic::transport::Error>(e),
        )
}

/// Makes an endpoint of a URI. The answer is one that the making has for this URI.
fn make<F: Fn(String) -> Result<Endpoint, tonic::transport::Error>>(making: F, uri: String) -> (r:
    Result<Endpoint, tonic::transport::Error>)
    requires
        call_requires(making, (uri,)),
    ensures
        call_ensures(making, (uri,), r),
{
    making(uri)
}

/// Why there is no endpoint.
#[derive(Debug)]
pub enum EndpointError {
    /// The address is not one.
    Invalid(tonic::transport::Error),
}

/// The URI of a node's address: the address itself if it has a scheme, and a gRPC URI if not.
pub open spec fn uri_of(addr: Seq<char>) -> Seq<char> {
    if occurs("://"@, addr) {
        addr
    } else {
        "grpc://"@ + addr
    }
}

/// The URI of a node's address.
pub fn endpoint_uri(grpc_addr: &str) -> (uri: String)
    ensures
        uri@ == uri_of(grpc_addr@),
{
    if contains(grpc_addr, "://") {
        grpc_addr.to_owned()
    } else {
        let mut uri: String = "grpc://".to_owned();
        uri.append(grpc_addr);
        uri
    }
}

/// The endpoint of a node.
pub fn open_endpoint(grpc_addr: &str) -> (r: Result<Endpoint, EndpointError>)
    ensures
        match r {
            Ok(endpoint) => endpoint_for(uri_of(grpc_addr@)) == Some(endpoint),
            Err(EndpointError::Invalid(e)) => {
                &&& endpoint_for(uri_of(grpc_addr@)) is None
                &&& endpoint_refused(uri_of(grpc_addr@), e)
            },
        },
{
    match make(new_endpoint, endpoint_uri(grpc_addr)) {
        Ok(endpoint) => Ok(endpoint),
        Err(e) => Err(EndpointError::Invalid(e)),
    }
}

/// Every URI that is made of an address has a scheme, and making one of it again changes nothing.
/// It ends in the address, and nothing but the scheme `grpc` stands before it, and that only where
/// the address has none.
pub proof fn law_uri_has_scheme(addr: Seq<char>)
    ensures
        occurs("://"@, uri_of(addr)),
        uri_of(uri_of(addr)) == uri_of(addr),
        uri_of(addr).len() == addr.len() || uri_of(addr).len() == addr.len() + 7,
        uri_of(addr).skip(uri_of(addr).len() - addr.len()) == addr,
        uri_of(addr).len() == addr.len() <==> occurs("://"@, addr),
        uri_of(addr).len() > addr.len() ==> uri_of(addr).take(7) == "grpc://"@,
{
    reveal_strlit("grpc://");
    assert(uri_of(addr).skip(uri_of(addr).len() - addr.len()) =~= addr);
    if !occurs("://"@, addr) {
        reveal_strlit("://");
        assert(uri_of(addr).take(7) =~= "grpc://"@);
        assert(uri_of(addr).subrange(4int, 4int + "://"@.len()) =~= "://"@);
    }
}

} // verus!
