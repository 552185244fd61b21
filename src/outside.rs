//! The calls this library makes into the `http` and smithy runtime crates,
//! with the contracts it relies on.
use vstd::prelude::*;
use vstd::utf8::encode_utf8;
use aws_smithy_runtime_api::client::endpoint::error::InvalidEndpointError;

verus! {

#[verifier::external_type_specification]
#[verifier::external_body]
pub struct ExUri(http::Uri);

#[verifier::external_type_specification]
#[verifier::external_body]
pub struct ExInvalidUri(http::uri::InvalidUri);

#[verifier::external_type_specification]
#[verifier::external_body]
pub struct ExHeaderName(http::header::HeaderName);

#[verifier::external_type_specification]
#[verifier::external_body]
pub struct ExHeaderValue(http::header::HeaderValue);

#[verifier::external_type_specification]
#[verifier::external_body]
pub struct ExInvalidHeaderName(http::header::InvalidHeaderName);

#[verifier::external_type_specification]
#[verifier::external_body]
pub struct ExInvalidHeaderValue(http::header::InvalidHeaderValue);

#[verifier::external_type_specification]
#[verifier::external_body]
pub struct ExMaxSizeReached(http::header::MaxSizeReached);

#[verifier::external_type_specification]
#[verifier::external_body]
#[verifier::reject_recursive_types(T)]
pub struct ExHeaderMap<T>(http::header::HeaderMap<T>);

#[verifier::external_type_specification]
#[verifier::external_body]
pub struct ExInvalidEndpointError(
    aws_smithy_runtime_api::client::endpoint::error::InvalidEndpointError,
);

#[verifier::external_type_specification]
#[verifier::external_body]
pub struct ExResolveEndpointError(aws_smithy_http::endpoint::ResolveEndpointError);

#[verifier::external_type_specification]
#[verifier::external_body]
pub struct ExEndpointResolverParams(aws_smithy_runtime_api::client::endpoint::EndpointResolverParams);

/// Relies on `EndpointResolverParams::new`, which boxes the parameters.
#[verifier::external_body]
pub(crate) fn erase_params<T: core::fmt::Debug + Send + Sync + 'static>(
    params: T,
) -> (r: aws_smithy_runtime_api::client::endpoint::EndpointResolverParams)
{
    aws_smithy_runtime_api::client::endpoint::EndpointResolverParams::new(params)
}

/// Relies on `EndpointResolverParams::get`, which yields the parameters only
/// where they are of type `T`.
#[verifier::external_body]
pub(crate) fn params_of_type<T: core::fmt::Debug + Send + Sync + 'static>(
    params: &aws_smithy_runtime_api::client::endpoint::EndpointResolverParams,
) -> (r: Option<&T>)
{
    params.get::<T>()
}

/// Whether `http::Uri::from_str` accepts the text.
pub uninterp spec fn uri_parses(s: Seq<char>) -> bool;

/// Relies on `http::Uri::from_str`: parses a URI, failing exactly on the texts
/// it rejects.
#[verifier::external_body]
pub(crate) fn parse_uri(s: &str) -> (r: Result<http::Uri, http::uri::InvalidUri>)
    ensures
        r is Ok <==> uri_parses(s@),
{
    <http::Uri as std::str::FromStr>::from_str(s)
}

/// The text of the URI that `aws_smithy_http::endpoint::apply_endpoint` makes
/// when it merges the endpoint URI `endpoint` (with the endpoint prefix
/// `prefix`, if any) into the request URI `request`, as `Uri`'s `Display`
/// writes it; `None` where the merge fails.
pub uninterp spec fn merged_uri(
    request: Seq<char>,
    endpoint: Seq<char>,
    prefix: Option<Seq<char>>,
) -> Option<Seq<char>>;

/// The text of an optional prefix.
pub open spec fn prefix_view(prefix: Option<&str>) -> Option<Seq<char>> {
    match prefix {
        Some(p) => Some(p@),
        None => None,
    }
}

/// Relies on `aws_smithy_http::endpoint::apply_endpoint`. The two URIs are read
/// by `Uri::from_str` and the prefix by `EndpointPrefix::new` (their errors
/// become `InvalidEndpointError`s); the merged URI comes back as `Uri`'s
/// `Display` writes it.
#[verifier::external_body]
pub(crate) fn merge_endpoint_uri(
    request: &str,
    endpoint: &str,
    prefix: Option<&str>,
) -> (r: Result<String, aws_smithy_runtime_api::client::endpoint::error::InvalidEndpointError>)
    ensures
        r is Ok <==> merged_uri(request@, endpoint@, prefix_view(prefix)) is Some,
        r is Ok ==> r->Ok_0@ == merged_uri(request@, endpoint@, prefix_view(prefix))->Some_0,
{
    let mut uri = request.parse::<http::Uri>().map_err(InvalidEndpointError::failed_to_construct_uri)?;
    let endpoint =
        endpoint.parse::<http::Uri>().map_err(InvalidEndpointError::failed_to_construct_uri)?;
    let prefix = match prefix {
        Some(p) => Some(aws_smithy_runtime_api::client::endpoint::EndpointPrefix::new(p)?),
        None => None,
    };
    aws_smithy_http::endpoint::apply_endpoint(&mut uri, &endpoint, prefix.as_ref())?;
    Ok(uri.to_string())
}

/// The text of the header name that `HeaderName::from_str` makes of `s`
/// (lower case), or `None` where it refuses `s`.
pub uninterp spec fn parsed_header_name(s: Seq<char>) -> Option<Seq<char>>;

/// What a header map holds: for each name (as `HeaderName::as_str` gives it)
/// that has values, its values' bytes in the order they were added.
pub uninterp spec fn header_entries(m: http::header::HeaderMap) -> Map<Seq<char>, Seq<Seq<u8>>>;

/// A byte that `HeaderValue::from_str` accepts: visible ASCII, a tab, or any
/// byte from 128 up.
pub open spec fn is_header_value_byte(b: u8) -> bool {
    (b >= 32 && b != 127) || b == 9
}

/// Whether `HeaderValue::from_str` accepts the text: each of its UTF-8 bytes
/// is accepted.
pub open spec fn is_header_value(s: Seq<char>) -> bool {
    forall|i: int| 0 <= i < encode_utf8(s).len() ==> is_header_value_byte(#[trigger] encode_utf8(s)[i])
}

/// A header name that parsed, with its text. Only `parse_header_name` makes one.
pub struct ValidName {
    name: http::header::HeaderName,
    text: Ghost<Seq<char>>,
}

impl ValidName {
    pub closed spec fn text(self) -> Seq<char> {
        self.text@
    }
}

/// A header value that parsed, with its bytes. Only `parse_header_value` makes one.
pub struct ValidValue {
    value: http::header::HeaderValue,
    bytes: Ghost<Seq<u8>>,
}

impl ValidValue {
    pub closed spec fn bytes(self) -> Seq<u8> {
        self.bytes@
    }
}

/// Relies on `HeaderName::from_str`: it accepts `s` exactly when it yields a
/// name, whose text is then `parsed_header_name(s)`.
#[verifier::external_body]
pub(crate) fn parse_header_name(s: &str) -> (r: Result<ValidName, http::header::InvalidHeaderName>)
    ensures
        r is Ok <==> parsed_header_name(s@) is Some,
        r is Ok ==> parsed_header_name(s@) == Some(r->Ok_0.text()),
{
    let name = <http::header::HeaderName as std::str::FromStr>::from_str(s)?;
    Ok(ValidName { name, text: Ghost(parsed_header_name(s@)->Some_0) })
}

/// Relies on `HeaderValue::from_str`: it accepts `s` exactly when every byte
/// is valid, and keeps those bytes as they are.
#[verifier::external_body]
pub(crate) fn parse_header_value(s: &str) -> (r: Result<ValidValue, http::header::InvalidHeaderValue>)
    ensures
        r is Ok <==> is_header_value(s@),
        r is Ok ==> r->Ok_0.bytes() == encode_utf8(s@),
{
    let value = http::header::HeaderValue::from_str(s)?;
    Ok(ValidValue { value, bytes: Ghost(encode_utf8(s@)) })
}

/// Relies on `HeaderMap`'s derived `Clone`: the copy holds the same entries,
/// of which there are finitely many.
#[verifier::external_body]
pub(crate) fn clone_headers(m: &http::header::HeaderMap) -> (r: http::header::HeaderMap)
    ensures
        header_entries(r) == header_entries(*m),
        header_entries(r).dom().finite(),
{
    m.clone()
}

/// Relies on `HeaderMap::remove`: every value under the name goes.
#[verifier::external_body]
pub(crate) fn remove_header(m: &mut http::header::HeaderMap, name: &ValidName)
    ensures
        header_entries(*final(m)) == header_entries(*old(m)).remove(name.text()),
{
    m.remove(&name.name);
}

/// Relies on `HeaderMap::try_append`: the value goes after those already under
/// the name; where the map is full it fails before adding anything. Below
/// 6554 names it cannot be full: growing the table then stays within its
/// limit of 32768 slots.
#[verifier::external_body]
pub(crate) fn append_header(
    m: &mut http::header::HeaderMap,
    name: &ValidName,
    value: &ValidValue,
) -> (r: Result<(), http::header::MaxSizeReached>)
    ensures
        r is Ok ==> header_entries(*final(m)) == header_entries(*old(m)).insert(
            name.text(),
            if header_entries(*old(m)).contains_key(name.text()) {
                header_entries(*old(m))[name.text()]
            } else {
                Seq::empty()
            }.push(value.bytes()),
        ),
        r is Err ==> header_entries(*final(m)) == header_entries(*old(m)),
        header_entries(*old(m)).dom().finite() && header_entries(*old(m)).dom().len() < 6554 ==> r is Ok,
{
    m.try_append(&name.name, value.value.clone()).map(|_| ())
}

} // verus!
