use aws_smithy_http::endpoint::ResolveEndpointError;
use aws_smithy_runtime_api::client::endpoint::EndpointResolverParams;
use http::header::{HeaderMap, HeaderValue};
use http::Uri;
use smithy_endpoints::{
    apply_endpoint, apply_resolved, orchestrate_endpoint, DefaultEndpointResolver, Endpoint, EndpointError,
    EndpointResolver, HeaderSyntaxError, HttpRequest, ResolveEndpoint, StaticUriEndpointResolver,
    StaticUriEndpointResolverParams,
};

fn request(uri: &str, headers: &[(&'static str, &'static str)]) -> HttpRequest {
    let mut map = HeaderMap::new();
    for (name, value) in headers {
        map.append(*name, HeaderValue::from_static(value));
    }
    HttpRequest {
        uri: uri.parse::<Uri>().unwrap().to_string(),
        headers: map,
    }
}

fn endpoint(url: &str, headers: &[(&str, &[&str])]) -> Endpoint {
    Endpoint {
        url: url.to_string(),
        headers: headers
            .iter()
            .map(|(name, values)| {
                (
                    name.to_string(),
                    values.iter().map(|v| v.to_string()).collect(),
                )
            })
            .collect(),
    }
}

fn values(req: &HttpRequest, name: &str) -> Vec<String> {
    req.headers
        .get_all(name)
        .iter()
        .map(|v| String::from_utf8(v.as_bytes().to_vec()).unwrap())
        .collect()
}

#[derive(Debug)]
struct RegionParams {
    region: String,
}

struct RegionResolver;

impl ResolveEndpoint for RegionResolver {
    type Params = RegionParams;

    fn resolves_to(&self, params: &RegionParams) -> Result<Endpoint, ResolveEndpointError> {
        self.resolve_endpoint(params)
    }

    fn resolve_endpoint(&self, params: &RegionParams) -> Result<Endpoint, ResolveEndpointError> {
        if params.region.is_empty() {
            return Err(ResolveEndpointError::message("no region"));
        }
        Ok(endpoint(
            &format!("https://{}.example.com", params.region),
            &[("x-region", &[params.region.as_str()])],
        ))
    }
}

#[test]
fn static_resolver_localhost_url() {
    let resolver = StaticUriEndpointResolver::http_localhost(8080);
    let params = StaticUriEndpointResolverParams::new().into_resolver_params();
    let e = resolver.resolve_endpoint(&params).unwrap();
    assert_eq!(e.url, "http://localhost:8080/");
    assert!(e.headers.is_empty());
}

#[test]
fn static_resolver_localhost_port_edges() {
    let params = StaticUriEndpointResolverParams::new().into_resolver_params();
    let low = StaticUriEndpointResolver::http_localhost(0);
    assert_eq!(low.resolve_endpoint(&params).unwrap().url, "http://localhost:0/");
    let high = StaticUriEndpointResolver::http_localhost(65535);
    assert_eq!(high.resolve_endpoint(&params).unwrap().url, "http://localhost:65535/");
}

#[test]
fn static_resolver_ignores_params() {
    let resolver = StaticUriEndpointResolver::uri(
        "https://example.com/base".parse::<Uri>().unwrap().to_string(),
    );
    let own = StaticUriEndpointResolverParams::new().into_resolver_params();
    let other = EndpointResolverParams::new(RegionParams {
        region: "us-west-2".to_string(),
    });
    let a = resolver.resolve_endpoint(&own).unwrap();
    let b = resolver.resolve_endpoint(&other).unwrap();
    assert_eq!(a.url, "https://example.com/base");
    assert_eq!(a.url, b.url);
    assert!(a.headers.is_empty() && b.headers.is_empty());
}

#[test]
fn static_params_new_and_default_agree() {
    assert_eq!(
        StaticUriEndpointResolverParams::new(),
        StaticUriEndpointResolverParams::default()
    );
}

#[test]
fn default_resolver_forwards_params() {
    let resolver = DefaultEndpointResolver::new(RegionResolver);
    let params = EndpointResolverParams::new(RegionParams {
        region: "eu-west-1".to_string(),
    });
    let e = resolver.resolve_endpoint(&params).unwrap();
    assert_eq!(e.url, "https://eu-west-1.example.com");
    assert_eq!(e.headers, vec![("x-region".to_string(), vec!["eu-west-1".to_string()])]);
}

#[test]
fn default_resolver_missing_params() {
    let resolver = DefaultEndpointResolver::new(RegionResolver);
    let params = StaticUriEndpointResolverParams::new().into_resolver_params();
    let r = resolver.resolve_endpoint(&params);
    assert!(matches!(r, Err(EndpointError::MissingParameters)));
}

#[test]
fn default_resolver_propagates_failure() {
    let resolver = DefaultEndpointResolver::new(RegionResolver);
    let params = EndpointResolverParams::new(RegionParams {
        region: String::new(),
    });
    let r = resolver.resolve_endpoint(&params);
    assert!(matches!(r, Err(EndpointError::ResolutionFailure(_))));
}

#[test]
fn missing_params_leave_request_unchanged() {
    let resolver = DefaultEndpointResolver::new(RegionResolver);
    let params = EndpointResolverParams::new(42u32);
    let mut req = request("https://old.example.com/foo?x=1", &[("x-api", "old")]);
    let r = orchestrate_endpoint(&mut req, &resolver, &params, None);
    assert!(matches!(r, Err(EndpointError::MissingParameters)));
    assert_eq!(req.uri, "https://old.example.com/foo?x=1");
    assert_eq!(values(&req, "x-api"), vec!["old"]);
    assert_eq!(req.headers.len(), 1);
}

#[test]
fn orchestrate_applies_resolved_endpoint() {
    let resolver = DefaultEndpointResolver::new(RegionResolver);
    let params = EndpointResolverParams::new(RegionParams {
        region: "ap-south-1".to_string(),
    });
    let mut req = request("http://placeholder/items?page=2", &[]);
    let e = orchestrate_endpoint(&mut req, &resolver, &params, None).unwrap();
    assert_eq!(e.url, "https://ap-south-1.example.com");
    assert_eq!(req.uri, "https://ap-south-1.example.com/items?page=2");
    assert_eq!(values(&req, "x-region"), vec!["ap-south-1"]);
}

#[test]
fn path_and_query_preserved() {
    let mut req = request("http://placeholder/foo?x=1", &[]);
    let e = endpoint("https://service.example.com", &[]);
    apply_endpoint(&mut req, &e, None).unwrap();
    let uri: Uri = req.uri.parse().unwrap();
    assert_eq!(uri.scheme_str(), Some("https"));
    assert_eq!(uri.authority().unwrap().as_str(), "service.example.com");
    assert_eq!(uri.path(), "/foo");
    assert_eq!(uri.query(), Some("x=1"));
}

#[test]
fn endpoint_path_is_prepended() {
    let mut req = request("http://placeholder/foo?x=1", &[]);
    let e = endpoint("https://service.example.com/base/", &[]);
    apply_endpoint(&mut req, &e, None).unwrap();
    assert_eq!(req.uri, "https://service.example.com/base/foo?x=1");
}

#[test]
fn header_overlay_replaces_old_value() {
    let mut req = request("http://placeholder/", &[("X-Api", "old")]);
    let e = endpoint("https://service.example.com", &[("X-Api", &["new"])]);
    apply_endpoint(&mut req, &e, None).unwrap();
    assert_eq!(values(&req, "x-api"), vec!["new"]);
}

#[test]
fn header_overlay_ignores_name_case() {
    let mut req = request("http://placeholder/", &[("x-api", "old"), ("x-api", "older")]);
    let e = endpoint("https://service.example.com", &[("X-API", &["new"])]);
    apply_endpoint(&mut req, &e, None).unwrap();
    assert_eq!(values(&req, "x-api"), vec!["new"]);
    assert_eq!(req.headers.keys().map(|k| k.as_str().to_string()).collect::<Vec<_>>(), vec!["x-api"]);
}

#[test]
fn header_overlay_keeps_every_value_in_order() {
    let mut req = request("http://placeholder/", &[("x-other", "kept")]);
    let e = endpoint("https://service.example.com", &[("x-multi", &["a", "b", "c"])]);
    apply_endpoint(&mut req, &e, None).unwrap();
    assert_eq!(values(&req, "x-multi"), vec!["a", "b", "c"]);
    assert_eq!(values(&req, "x-other"), vec!["kept"]);
}

#[test]
fn header_with_no_values_is_removed() {
    let mut req = request("http://placeholder/", &[("x-api", "old"), ("x-other", "kept")]);
    let e = endpoint("https://service.example.com", &[("x-api", &[])]);
    apply_endpoint(&mut req, &e, None).unwrap();
    assert!(values(&req, "x-api").is_empty());
    assert_eq!(values(&req, "x-other"), vec!["kept"]);
}

#[test]
fn applying_twice_is_idempotent() {
    let e = endpoint(
        "https://service.example.com",
        &[("x-api", &["one", "two"]), ("x-trace", &["t"])],
    );
    let mut once = request("http://placeholder/foo", &[("x-api", "old")]);
    apply_endpoint(&mut once, &e, None).unwrap();
    let mut twice = request("http://placeholder/foo", &[("x-api", "old")]);
    apply_endpoint(&mut twice, &e, None).unwrap();
    apply_endpoint(&mut twice, &e, None).unwrap();
    assert_eq!(once.headers, twice.headers);
    assert_eq!(values(&twice, "x-api"), vec!["one", "two"]);
    assert_eq!(twice.headers.len(), 3);
}

#[test]
fn prefix_is_added_to_host() {
    let mut req = request("http://placeholder/foo", &[]);
    let e = endpoint("https://service.example.com", &[]);
    apply_endpoint(&mut req, &e, Some("tenant123.")).unwrap();
    assert_eq!(req.uri, "https://tenant123.service.example.com/foo");
}

#[test]
fn prefix_application_failure_leaves_uri() {
    let mut req = request("https://service.example.com/foo?x=1", &[("x-api", "old")]);
    let e = endpoint("https://service.example.com", &[("x-api", &["new"])]);
    let r = apply_endpoint(&mut req, &e, Some("tenant 123/"));
    assert!(matches!(r, Err(EndpointError::ApplicationFailure { .. })));
    assert_eq!(req.uri, "https://service.example.com/foo?x=1");
    assert_eq!(values(&req, "x-api"), vec!["old"]);
}

#[test]
fn malformed_endpoint_uri() {
    let mut req = request("http://placeholder/foo", &[("x-api", "old")]);
    let e = endpoint("not a uri://// ", &[("x-api", &["new"])]);
    let r = apply_endpoint(&mut req, &e, None);
    assert!(matches!(r, Err(EndpointError::MalformedEndpointUri(_))));
    assert_eq!(values(&req, "x-api"), vec!["old"]);
    assert_eq!(req.uri, "http://placeholder/foo");
}

#[test]
fn invalid_header_value_rolls_back() {
    let mut req = request("http://placeholder/foo", &[("x-api", "old"), ("x-keep", "k")]);
    let e = endpoint(
        "https://service.example.com",
        &[("x-keep", &["replaced"]), ("x-api", &["fine", "bad\u{1}value"])],
    );
    let r = apply_endpoint(&mut req, &e, None);
    assert!(matches!(
        r,
        Err(EndpointError::InvalidHeaderSyntax(HeaderSyntaxError::Value(_)))
    ));
    assert_eq!(values(&req, "x-api"), vec!["old"]);
    assert_eq!(values(&req, "x-keep"), vec!["k"]);
    assert_eq!(req.uri, "http://placeholder/foo");
}

#[test]
fn invalid_header_name_is_rejected() {
    let mut req = request("http://placeholder/foo", &[("x-api", "old")]);
    let e = endpoint("https://service.example.com", &[("bad name", &["v"])]);
    let r = apply_endpoint(&mut req, &e, None);
    assert!(matches!(
        r,
        Err(EndpointError::InvalidHeaderSyntax(HeaderSyntaxError::Name(_)))
    ));
    assert_eq!(values(&req, "x-api"), vec!["old"]);
    assert_eq!(req.uri, "http://placeholder/foo");
}

#[test]
fn header_value_keeps_non_ascii_and_tab() {
    let mut req = request("http://placeholder/", &[]);
    let e = endpoint("https://service.example.com", &[("x-note", &["caf\u{e9}\tok"])]);
    apply_endpoint(&mut req, &e, None).unwrap();
    let got = req.headers.get("x-note").unwrap().as_bytes().to_vec();
    assert_eq!(got, "caf\u{e9}\tok".as_bytes().to_vec());
}

#[test]
fn endpoint_without_scheme_is_application_failure() {
    let mut req = request("https://old.example.com/foo", &[("x-api", "old")]);
    let e = endpoint("service.example.com", &[("x-api", &["new"])]);
    let r = apply_endpoint(&mut req, &e, Some("tenant123."));
    match r {
        Err(EndpointError::ApplicationFailure { endpoint, request, .. }) => {
            assert_eq!(endpoint, "service.example.com");
            assert_eq!(request, "https://old.example.com/foo");
        }
        _ => panic!("expected an application failure"),
    }
    assert_eq!(req.uri, "https://old.example.com/foo");
    assert_eq!(values(&req, "x-api"), vec!["old"]);
}

#[test]
fn resolved_error_passes_through() {
    let mut req = request("http://placeholder/foo", &[("x-api", "old")]);
    let r = apply_resolved(&mut req, Err(EndpointError::MissingParameters), None);
    assert!(matches!(r, Err(EndpointError::MissingParameters)));
    assert_eq!(req.uri, "http://placeholder/foo");
    assert_eq!(values(&req, "x-api"), vec!["old"]);
}

#[test]
fn resolved_endpoint_is_applied_and_returned() {
    let mut req = request("http://placeholder/foo?x=1", &[]);
    let e = endpoint("https://service.example.com", &[("x-api", &["new"])]);
    let out = apply_resolved(&mut req, Ok(e), Some("tenant123.")).unwrap();
    assert_eq!(out.url, "https://service.example.com");
    assert_eq!(req.uri, "https://tenant123.service.example.com/foo?x=1");
    assert_eq!(values(&req, "x-api"), vec!["new"]);
}

#[test]
fn failed_merge_wins_over_bad_headers() {
    let mut req = request("https://service.example.com/foo", &[("x-api", "old")]);
    let e = endpoint("https://service.example.com", &[("bad name", &["v"])]);
    let r = apply_endpoint(&mut req, &e, Some("tenant 123/"));
    assert!(matches!(r, Err(EndpointError::ApplicationFailure { .. })));
    assert_eq!(req.uri, "https://service.example.com/foo");
    assert_eq!(values(&req, "x-api"), vec!["old"]);
}

#[test]
fn orchestrate_static_localhost() {
    let resolver = StaticUriEndpointResolver::http_localhost(8080);
    let params = StaticUriEndpointResolverParams::new().into_resolver_params();
    let mut req = request("/foo?x=1", &[]);
    let e = orchestrate_endpoint(&mut req, &resolver, &params, None).unwrap();
    assert_eq!(e.url, "http://localhost:8080/");
    assert_eq!(req.uri, "http://localhost:8080/foo?x=1");
}
