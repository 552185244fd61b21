//! Merging a resolved endpoint into an outgoing request.
use vstd::prelude::*;
use vstd::utf8::encode_utf8;
use crate::outside::{
    append_header, clone_headers, ValidName, ValidValue, header_entries, is_header_value, parse_header_name,
    merge_endpoint_uri, merged_uri, prefix_view, parse_header_value, parse_uri, parsed_header_name, remove_header, uri_parses,
};
use aws_smithy_runtime_api::client::endpoint::error::InvalidEndpointError;
use http::header::{HeaderMap, InvalidHeaderName, InvalidHeaderValue, MaxSizeReached};
use http::uri::InvalidUri;
use aws_smithy_runtime_api::client::endpoint::EndpointResolverParams;
use crate::resolver::EndpointResolver;

verus! {

/// A resolved endpoint: the base URL a request goes to, and the headers it
/// must carry, each name with its values in order. Where a name is given more
/// than once (in any casing), its last declaration is the one that counts.
#[derive(Clone, Debug)]
pub struct Endpoint {
    pub url: String,
    pub headers: Vec<(String, Vec<String>)>,
}

/// The parts of an outgoing request that endpoint application rewrites.
#[derive(Debug)]
pub struct HttpRequest {
    /// The request URI, as `http::Uri`'s `Display` writes it.
    pub uri: String,
    pub headers: HeaderMap,
}

/// Which part of an endpoint header failed the header syntax.
#[derive(Debug)]
pub enum HeaderSyntaxError {
    Name(InvalidHeaderName),
    Value(InvalidHeaderValue),
}

/// Why an endpoint could not be resolved or applied.
#[derive(Debug)]
pub enum EndpointError {
    /// The resolver's parameter type was not in the parameters it was given.
    MissingParameters,
    /// The wrapped resolution strategy failed.
    ResolutionFailure(aws_smithy_http::endpoint::ResolveEndpointError),
    /// The endpoint's URL does not parse as a URI.
    MalformedEndpointUri(InvalidUri),
    /// The endpoint's URI could not be merged into the request's URI.
    ApplicationFailure { endpoint: String, request: String, cause: InvalidEndpointError },
    /// An endpoint header name or value is not valid header syntax.
    InvalidHeaderSyntax(HeaderSyntaxError),
    /// The request's header map has no room for the endpoint's headers.
    TooManyHeaders(MaxSizeReached),
}

/// The key under which a header named `s` is stored.
pub open spec fn header_key(s: Seq<char>) -> Seq<char> {
    parsed_header_name(s)->Some_0
}

/// The bytes of each of the values.
pub open spec fn value_bytes(vs: Seq<String>) -> Seq<Seq<u8>> {
    Seq::new(vs.len(), |i: int| encode_utf8(vs[i]@))
}

/// `m` with the values under `k` replaced by `vals`; no values means no entry.
pub open spec fn set_values(
    m: Map<Seq<char>, Seq<Seq<u8>>>,
    k: Seq<char>,
    vals: Seq<Seq<u8>>,
) -> Map<Seq<char>, Seq<Seq<u8>>> {
    if vals.len() == 0 {
        m.remove(k)
    } else {
        m.insert(k, vals)
    }
}

/// Each endpoint header as the key it is stored under and its values' bytes.
pub open spec fn header_model(hs: Seq<(String, Vec<String>)>) -> Seq<(Seq<char>, Seq<Seq<u8>>)> {
    Seq::new(hs.len(), |i: int| (header_key(hs[i].0@), value_bytes(hs[i].1@)))
}

/// The header entries after the headers `hs` are laid over `m` in order: each
/// name's earlier values are all replaced by the new ones.
pub open spec fn overlay(
    m: Map<Seq<char>, Seq<Seq<u8>>>,
    hs: Seq<(Seq<char>, Seq<Seq<u8>>)>,
) -> Map<Seq<char>, Seq<Seq<u8>>>
    decreases hs.len(),
{
    if hs.len() == 0 {
        m
    } else {
        set_values(overlay(m, hs.drop_last()), hs.last().0, hs.last().1)
    }
}

/// Whether `k` is one of the names in `hs`.
pub open spec fn names_key(hs: Seq<(Seq<char>, Seq<Seq<u8>>)>, k: Seq<char>) -> bool {
    exists|i: int| 0 <= i < hs.len() && #[trigger] hs[i].0 == k
}

/// Two header sets that agree on every name outside `ks` and outside the
/// names of `hs` agree outside `ks` once `hs` is laid over both.
proof fn lemma_overlay_agrees(
    m1: Map<Seq<char>, Seq<Seq<u8>>>,
    m2: Map<Seq<char>, Seq<Seq<u8>>>,
    hs: Seq<(Seq<char>, Seq<Seq<u8>>)>,
    ks: Set<Seq<char>>,
)
    requires
        forall|k: Seq<char>| !ks.contains(k) && !names_key(hs, k)
            ==> (m1.contains_key(k) == m2.contains_key(k) && (m1.contains_key(k) ==> m1[k] == m2[k])),
    ensures
        forall|k: Seq<char>| !ks.contains(k)
            ==> (#[trigger] overlay(m1, hs).contains_key(k) == overlay(m2, hs).contains_key(k)
                && (overlay(m1, hs).contains_key(k) ==> overlay(m1, hs)[k] == overlay(m2, hs)[k])),
    decreases hs.len(),
{
    if hs.len() > 0 {
        let init = hs.drop_last();
        let last = hs.last();
        let ks2 = ks.insert(last.0);
        assert forall|k: Seq<char>| !ks2.contains(k) && !names_key(init, k)
            implies (m1.contains_key(k) == m2.contains_key(k) && (m1.contains_key(k) ==> m1[k] == m2[k])) by {
            if names_key(hs, k) {
                let i = choose|i: int| 0 <= i < hs.len() && #[trigger] hs[i].0 == k;
                if i < hs.len() - 1 {
                    assert(init[i].0 == k);
                }
            }
        }
        lemma_overlay_agrees(m1, m2, init, ks2);
        assert forall|k: Seq<char>| !ks.contains(k) implies (#[trigger] overlay(m1, hs).contains_key(k)
            == overlay(m2, hs).contains_key(k) && (overlay(m1, hs).contains_key(k) ==> overlay(m1, hs)[k]
            == overlay(m2, hs)[k])) by {
            assert(overlay(m1, hs) == set_values(overlay(m1, init), last.0, last.1));
            assert(overlay(m2, hs) == set_values(overlay(m2, init), last.0, last.1));
            if k != last.0 {
                assert(!ks2.contains(k));
                assert(overlay(m1, init).contains_key(k) == overlay(m2, init).contains_key(k));
            }
        }
    } else {
        assert forall|k: Seq<char>| !ks.contains(k) implies (#[trigger] overlay(m1, hs).contains_key(k)
            == overlay(m2, hs).contains_key(k) && (overlay(m1, hs).contains_key(k) ==> overlay(m1, hs)[k]
            == overlay(m2, hs)[k])) by {
            assert(!names_key(hs, k));
        }
    }
}

/// Laying `hs` over `m` changes no name outside the names of `hs`.
proof fn lemma_overlay_keeps_others(m: Map<Seq<char>, Seq<Seq<u8>>>, hs: Seq<(Seq<char>, Seq<Seq<u8>>)>)
    ensures
        forall|k: Seq<char>| !names_key(hs, k)
            ==> (#[trigger] overlay(m, hs).contains_key(k) == m.contains_key(k)
                && (m.contains_key(k) ==> overlay(m, hs)[k] == m[k])),
    decreases hs.len(),
{
    if hs.len() > 0 {
        let init = hs.drop_last();
        lemma_overlay_keeps_others(m, init);
        assert forall|k: Seq<char>| !names_key(hs, k) implies !names_key(init, k) && k != hs.last().0 by {
            if names_key(init, k) {
                let i = choose|i: int| 0 <= i < init.len() && #[trigger] init[i].0 == k;
                assert(hs[i].0 == k);
            }
            assert(hs[hs.len() - 1].0 == hs.last().0);
        }
        assert forall|k: Seq<char>| !names_key(hs, k) implies (#[trigger] overlay(m, hs).contains_key(k)
            == m.contains_key(k) && (m.contains_key(k) ==> overlay(m, hs)[k] == m[k])) by {
            assert(overlay(m, hs) == set_values(overlay(m, init), hs.last().0, hs.last().1));
            assert(!names_key(init, k) && k != hs.last().0);
            assert(overlay(m, init).contains_key(k) == m.contains_key(k));
        }
    }
}

/// Applying the same endpoint headers twice leaves the same header set as
/// applying them once: no values pile up under a name.
pub proof fn lemma_overlay_idempotent(m: Map<Seq<char>, Seq<Seq<u8>>>, hs: Seq<(Seq<char>, Seq<Seq<u8>>)>)
    ensures
        overlay(overlay(m, hs), hs) == overlay(m, hs),
{
    let once = overlay(m, hs);
    lemma_overlay_keeps_others(m, hs);
    lemma_overlay_agrees(once, m, hs, Set::empty());
    assert(overlay(once, hs) =~= overlay(m, hs));
}

/// After `hs` is laid over `m`, a name holds exactly the values of its last
/// declaration in `hs`: none of the values it had before survive.
pub proof fn lemma_overlay_last_wins(
    m: Map<Seq<char>, Seq<Seq<u8>>>,
    hs: Seq<(Seq<char>, Seq<Seq<u8>>)>,
    i: int,
)
    requires
        0 <= i < hs.len(),
        forall|j: int| i < j < hs.len() ==> #[trigger] hs[j].0 != hs[i].0,
    ensures
        hs[i].1.len() == 0 ==> !overlay(m, hs).contains_key(hs[i].0),
        hs[i].1.len() > 0 ==> overlay(m, hs).contains_key(hs[i].0) && overlay(m, hs)[hs[i].0] == hs[i].1,
    decreases hs.len(),
{
    let init = hs.drop_last();
    if i < hs.len() - 1 {
        assert forall|j: int| i < j < init.len() implies #[trigger] init[j].0 != init[i].0 by {
            assert(init[j] == hs[j]);
        }
        lemma_overlay_last_wins(m, init, i);
        assert(hs[hs.len() - 1].0 != hs[i].0);
        assert(init[i] == hs[i]);
    }
}

/// Applying one endpoint to a request's headers twice leaves what applying it
/// once leaves.
pub proof fn lemma_apply_twice(headers: HeaderMap, endpoint: Endpoint)
    ensures
        overlay(overlay(header_entries(headers), header_model(endpoint.headers@)), header_model(endpoint.headers@))
            == overlay(header_entries(headers), header_model(endpoint.headers@)),
{
    lemma_overlay_idempotent(header_entries(headers), header_model(endpoint.headers@));
}

/// Every name and value of `hs` is valid header syntax.
pub open spec fn headers_valid(hs: Seq<(String, Vec<String>)>) -> bool {
    forall|i: int|
        0 <= i < hs.len() ==> {
            &&& parsed_header_name(#[trigger] hs[i].0@) is Some
            &&& forall|j: int| 0 <= j < hs[i].1@.len() ==> is_header_value(#[trigger] hs[i].1@[j]@)
        }
}

/// The first endpoint header that is not valid syntax has a bad name.
pub open spec fn first_bad_is_name(hs: Seq<(String, Vec<String>)>) -> bool {
    exists|i: int|
        0 <= i < hs.len() && headers_valid(#[trigger] hs.take(i)) && parsed_header_name(hs[i].0@) is None
}

/// The first endpoint header that is not valid syntax has a good name and a
/// bad value.
pub open spec fn first_bad_is_value(hs: Seq<(String, Vec<String>)>) -> bool {
    exists|i: int|
        0 <= i < hs.len() && headers_valid(#[trigger] hs.take(i)) && parsed_header_name(hs[i].0@) is Some
            && exists|j: int| 0 <= j < hs[i].1@.len() && !is_header_value(#[trigger] hs[i].1@[j]@)
}

/// The parsed headers, as keys and values' bytes.
spec fn parsed_model(ps: Seq<(ValidName, Vec<ValidValue>)>) -> Seq<(Seq<char>, Seq<Seq<u8>>)> {
    Seq::new(ps.len(), |i: int| (ps[i].0.text(), Seq::new(ps[i].1@.len(), |j: int| ps[i].1@[j].bytes())))
}

/// Parses the values of one header.
fn parse_values(vs: &Vec<String>) -> (r: Result<Vec<ValidValue>, InvalidHeaderValue>)
    ensures
        r is Ok <==> forall|j: int| 0 <= j < vs@.len() ==> is_header_value(#[trigger] vs@[j]@),
        r is Ok ==> Seq::new(r->Ok_0@.len(), |j: int| r->Ok_0@[j].bytes()) == value_bytes(vs@),
{
    let mut out: Vec<ValidValue> = Vec::new();
    let mut j: usize = 0;
    while j < vs.len()
        invariant
            j <= vs@.len(),
            out@.len() == j,
            forall|k: int| 0 <= k < j ==> is_header_value(#[trigger] vs@[k]@),
            forall|k: int| 0 <= k < j ==> #[trigger] out@[k].bytes() == encode_utf8(vs@[k]@),
        decreases vs@.len() - j,
    {
        match parse_header_value(vs[j].as_str()) {
            Ok(v) => out.push(v),
            Err(e) => {
                return Err(e);
            },
        }
        j = j + 1;
    }
    proof {
        assert(Seq::new(out@.len(), |k: int| out@[k].bytes()) =~= value_bytes(vs@));
    }
    Ok(out)
}

/// Parses every endpoint header name and value, stopping at the first that
/// is not valid header syntax.
fn parse_headers(hs: &Vec<(String, Vec<String>)>) -> (r: Result<Vec<(ValidName, Vec<ValidValue>)>, HeaderSyntaxError>)
    ensures
        r is Ok <==> headers_valid(hs@),
        r is Ok ==> parsed_model(r->Ok_0@) == header_model(hs@),
        r matches Err(HeaderSyntaxError::Name(_)) ==> first_bad_is_name(hs@),
        r matches Err(HeaderSyntaxError::Value(_)) ==> first_bad_is_value(hs@),
{
    let mut out: Vec<(ValidName, Vec<ValidValue>)> = Vec::new();
    let mut i: usize = 0;
    while i < hs.len()
        invariant
            i <= hs@.len(),
            out@.len() == i,
            headers_valid(hs@.take(i as int)),
            forall|k: int| 0 <= k < i ==> #[trigger] parsed_model(out@)[k] == header_model(hs@)[k],
        decreases hs@.len() - i,
    {
        let name = match parse_header_name(hs[i].0.as_str()) {
            Ok(n) => n,
            Err(e) => {
                proof {
                    assert(!headers_valid(hs@)) by {
                        assert(parsed_header_name(hs@[i as int].0@) is None);
                    }
                    assert(headers_valid(hs@.take(i as int)));
                }
                return Err(HeaderSyntaxError::Name(e));
            },
        };
        let values = match parse_values(&hs[i].1) {
            Ok(v) => v,
            Err(e) => {
                proof {
                    assert(!headers_valid(hs@)) by {
                        let j = choose|j: int| 0 <= j < hs@[i as int].1@.len() && !is_header_value(#[trigger] hs@[i as int].1@[j]@);
                        assert(!is_header_value(hs@[i as int].1@[j]@));
                    }
                    assert(headers_valid(hs@.take(i as int)));
                    assert(parsed_header_name(hs@[i as int].0@) is Some);
                }
                return Err(HeaderSyntaxError::Value(e));
            },
        };
        let ghost prev = out@;
        out.push((name, values));
        proof {
            assert forall|k: int| 0 <= k < i + 1 implies #[trigger] parsed_model(out@)[k] == header_model(hs@)[k] by {
                if k < i {
                    assert(out@[k] == prev[k]);
                    assert(parsed_model(prev)[k] == parsed_model(out@)[k]);
                }
            }
            assert forall|k: int| 0 <= k < i + 1 implies {
                &&& parsed_header_name(#[trigger] hs@.take(i as int + 1)[k].0@) is Some
                &&& forall|j: int| 0 <= j < hs@.take(i as int + 1)[k].1@.len() ==> is_header_value(#[trigger] hs@.take(i as int + 1)[k].1@[j]@)
            } by {
                if k < i {
                    assert(hs@.take(i as int + 1)[k] == hs@.take(i as int)[k]);
                }
            }
        }
        i = i + 1;
    }
    proof {
        assert(hs@.take(i as int) =~= hs@);
        assert(parsed_model(out@) =~= header_model(hs@));
    }
    Ok(out)
}

/// Replacing the values under one name adds at most that one name.
proof fn lemma_set_values_len(m: Map<Seq<char>, Seq<Seq<u8>>>, k: Seq<char>, vals: Seq<Seq<u8>>)
    requires
        m.dom().finite(),
    ensures
        set_values(m, k, vals).dom().finite(),
        set_values(m, k, vals).dom().len() <= m.dom().len() + 1,
{
    if vals.len() == 0 {
        assert(m.remove(k).dom() =~= m.dom().remove(k));
    } else {
        assert(m.insert(k, vals).dom() =~= m.dom().insert(k));
    }
}

/// Lays the parsed headers over a copy of `headers`, returning the copy.
fn overlay_parsed(headers: &HeaderMap, ps: &Vec<(ValidName, Vec<ValidValue>)>) -> (r: Result<HeaderMap, MaxSizeReached>)
    ensures
        r is Ok ==> header_entries(r->Ok_0) == overlay(header_entries(*headers), parsed_model(ps@)),
        header_entries(*headers).dom().len() + ps@.len() < 6554 ==> r is Ok,
{
    let mut out = clone_headers(headers);
    let mut i: usize = 0;
    while i < ps.len()
        invariant
            i <= ps@.len(),
            header_entries(out) == overlay(header_entries(*headers), parsed_model(ps@).take(i as int)),
            header_entries(out).dom().finite(),
            header_entries(out).dom().len() <= header_entries(*headers).dom().len() + i,
        decreases ps@.len() - i,
    {
        let name = &ps[i].0;
        let values = &ps[i].1;
        proof {
            assert(parsed_model(ps@).take(i as int + 1).drop_last() =~= parsed_model(ps@).take(i as int));
        }
        let ghost before = header_entries(out);
        let ghost want = Seq::new(values@.len(), |j: int| values@[j].bytes());
        remove_header(&mut out, name);
        let mut j: usize = 0;
        while j < values.len()
            invariant
                0 <= i < ps@.len(),
                *name == ps@[i as int].0,
                *values == ps@[i as int].1,
                want == Seq::new(values@.len(), |j: int| values@[j].bytes()),
                j <= values@.len(),
                header_entries(out) == set_values(before, name.text(), want.take(j as int)),
                before.dom().finite(),
                before.dom().len() <= header_entries(*headers).dom().len() + i,
                i < ps@.len(),
            decreases values@.len() - j,
        {
            proof {
                lemma_set_values_len(before, name.text(), want.take(j as int));
            }
            let ghost mid = header_entries(out);
            match append_header(&mut out, name, &values[j]) {
                Ok(()) => {},
                Err(e) => {
                    return Err(e);
                },
            }
            proof {
                let k = name.text();
                assert(want.take(j as int + 1) =~= want.take(j as int).push(want[j as int]));
                if j == 0 {
                    assert(!mid.contains_key(k));
                    assert(want.take(0) =~= Seq::<Seq<u8>>::empty());
                    assert(header_entries(out) =~= set_values(before, k, want.take(1)));
                } else {
                    assert(mid.contains_key(k));
                    assert(header_entries(out) =~= set_values(before, k, want.take(j as int + 1)));
                }
            }
            j = j + 1;
        }
        proof {
            assert(want.take(j as int) =~= want);
            lemma_set_values_len(before, name.text(), want);
        }
        i = i + 1;
    }
    proof {
        assert(parsed_model(ps@).take(i as int) =~= parsed_model(ps@));
    }
    Ok(out)
}

/// What applying `endpoint` (behind `prefix`) to the request `old` promises,
/// where `new` is the request afterwards and `r` the result.
pub open spec fn applies(
    old: HttpRequest,
    new: HttpRequest,
    endpoint: Endpoint,
    prefix: Option<Seq<char>>,
    r: Result<(), EndpointError>,
) -> bool {
    let merged = merged_uri(old.uri@, endpoint.url@, prefix);
    let ready = uri_parses(endpoint.url@) && merged is Some && headers_valid(endpoint.headers@);
    &&& !uri_parses(endpoint.url@) <==> (r matches Err(EndpointError::MalformedEndpointUri(_)))
    &&& uri_parses(endpoint.url@) && merged is None
        <==> (r matches Err(EndpointError::ApplicationFailure { .. }))
    &&& uri_parses(endpoint.url@) && merged is Some && !headers_valid(endpoint.headers@)
        <==> (r matches Err(EndpointError::InvalidHeaderSyntax(_)))
    &&& ready ==> (r is Ok || (r matches Err(EndpointError::TooManyHeaders(_))))
    &&& ready && header_entries(old.headers).dom().len() + endpoint.headers@.len() < 6554 ==> r is Ok
    &&& (r matches Err(EndpointError::ApplicationFailure { endpoint: ep, request: rq, .. })
        ==> ep@ == endpoint.url@ && rq@ == old.uri@)
    &&& (r matches Err(EndpointError::InvalidHeaderSyntax(HeaderSyntaxError::Name(_))))
        ==> first_bad_is_name(endpoint.headers@)
    &&& (r matches Err(EndpointError::InvalidHeaderSyntax(HeaderSyntaxError::Value(_))))
        ==> first_bad_is_value(endpoint.headers@)
    &&& r is Err ==> new == old
    &&& r is Ok ==> new.uri@ == merged->Some_0
    &&& r is Ok ==> header_entries(new.headers) == overlay(header_entries(old.headers), header_model(endpoint.headers@))
}

/// Merges `endpoint` into `request`: its URI takes the endpoint's scheme and
/// authority (behind `endpoint_prefix`, if any) and keeps its own path and
/// query, and each endpoint header replaces every value the request had under
/// that name. The URL is checked first, then the merge, then the headers; the
/// request changes only once all of them have passed, and is otherwise left
/// exactly as it was.
pub fn apply_endpoint(
    request: &mut HttpRequest,
    endpoint: &Endpoint,
    endpoint_prefix: Option<&str>,
) -> (r: Result<(), EndpointError>)
    ensures
        applies(*old(request), *final(request), *endpoint, prefix_view(endpoint_prefix), r),
{
    let uri = match parse_uri(endpoint.url.as_str()) {
        Ok(u) => u,
        Err(e) => {
            return Err(EndpointError::MalformedEndpointUri(e));
        },
    };
    let merged = match merge_endpoint_uri(request.uri.as_str(), endpoint.url.as_str(), endpoint_prefix) {
        Ok(m) => m,
        Err(cause) => {
            return Err(
                EndpointError::ApplicationFailure {
                    endpoint: endpoint.url.clone(),
                    request: request.uri.clone(),
                    cause,
                },
            );
        },
    };
    let parsed = match parse_headers(&endpoint.headers) {
        Ok(p) => p,
        Err(e) => {
            return Err(EndpointError::InvalidHeaderSyntax(e));
        },
    };
    proof {
        assert(parsed_model(parsed@).len() == header_model(endpoint.headers@).len());
    }
    let headers = match overlay_parsed(&request.headers, &parsed) {
        Ok(h) => h,
        Err(e) => {
            return Err(EndpointError::TooManyHeaders(e));
        },
    };
    request.uri = merged;
    request.headers = headers;
    Ok(())
}

/// The outcome `r` with its success value dropped.
pub open spec fn unit_outcome(r: Result<Endpoint, EndpointError>) -> Result<(), EndpointError> {
    match r {
        Ok(_) => Ok(()),
        Err(e) => Err(e),
    }
}

/// The second half of orchestration: applies the endpoint that resolution
/// gave, or passes its error on untouched. On success the endpoint is
/// returned for the caller to publish; on any error the request is unchanged.
pub fn apply_resolved(
    request: &mut HttpRequest,
    resolved: Result<Endpoint, EndpointError>,
    endpoint_prefix: Option<&str>,
) -> (r: Result<Endpoint, EndpointError>)
    ensures
        resolved is Err ==> r == resolved && *final(request) == *old(request),
        resolved matches Ok(e) ==> {
            &&& r is Ok ==> r == resolved
            &&& applies(*old(request), *final(request), e, prefix_view(endpoint_prefix), unit_outcome(r))
        },
{
    match resolved {
        Ok(endpoint) => match apply_endpoint(request, &endpoint, endpoint_prefix) {
            Ok(()) => Ok(endpoint),
            Err(e) => Err(e),
        },
        Err(e) => Err(e),
    }
}

/// Resolves the endpoint for one request attempt and applies it to the
/// request. On success the endpoint is returned, for the caller to publish to
/// later stages; on any error the request is left exactly as it was.
pub fn orchestrate_endpoint<R: EndpointResolver>(
    request: &mut HttpRequest,
    resolver: &R,
    params: &EndpointResolverParams,
    endpoint_prefix: Option<&str>,
) -> (r: Result<Endpoint, EndpointError>)
    ensures
        r is Err ==> *final(request) == *old(request),
        r matches Ok(e) ==> applies(*old(request), *final(request), e, prefix_view(endpoint_prefix), Ok(())),
{
    let resolved = resolver.resolve_endpoint(params);
    apply_resolved(request, resolved, endpoint_prefix)
}

} // verus!
