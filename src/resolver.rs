//! Resolvers: from per-operation parameters to an endpoint.
use vstd::prelude::*;
use crate::endpoint::{Endpoint, EndpointError};
use crate::outside::{erase_params, params_of_type};
use vstd::string::StringExecFns;
use aws_smithy_http::endpoint::ResolveEndpointError;
use aws_smithy_runtime_api::client::endpoint::EndpointResolverParams;

verus! {

/// The character of the decimal digit `d`.
pub open spec fn digit_char(d: nat) -> char {
    if d == 0 { '0' } else if d == 1 { '1' } else if d == 2 { '2' } else if d == 3 { '3' }
    else if d == 4 { '4' } else if d == 5 { '5' } else if d == 6 { '6' } else if d == 7 { '7' }
    else if d == 8 { '8' } else { '9' }
}

/// The decimal digits of `n`, most significant first, without leading zeros.
pub open spec fn decimal(n: nat) -> Seq<char>
    decreases n,
{
    if n < 10 {
        seq![digit_char(n)]
    } else {
        decimal(n / 10).push(digit_char(n % 10))
    }
}

/// The one-character text of the decimal digit `d`.
fn digit_text(d: u16) -> (r: &'static str)
    requires
        d < 10,
    ensures
        r@ == seq![digit_char(d as nat)],
{
    proof {
        reveal_strlit("0");
        reveal_strlit("1");
        reveal_strlit("2");
        reveal_strlit("3");
        reveal_strlit("4");
        reveal_strlit("5");
        reveal_strlit("6");
        reveal_strlit("7");
        reveal_strlit("8");
        reveal_strlit("9");
    }
    if d == 0 { "0" } else if d == 1 { "1" } else if d == 2 { "2" } else if d == 3 { "3" }
    else if d == 4 { "4" } else if d == 5 { "5" } else if d == 6 { "6" } else if d == 7 { "7" }
    else if d == 8 { "8" } else { "9" }
}

/// Appends the decimal digits of `n` to `s`.
fn push_decimal(s: &mut String, n: u16)
    ensures
        final(s)@ == old(s)@ + decimal(n as nat),
    decreases n,
{
    if n >= 10 {
        push_decimal(s, n / 10);
    }
    s.append(digit_text(n % 10));
    proof {
        if n >= 10 {
            assert(old(s)@ + decimal(n as nat) =~= old(s)@ + decimal((n / 10) as nat) + seq![digit_char((n % 10) as nat)]);
        } else {
            assert(old(s)@ + decimal(n as nat) =~= old(s)@ + seq![digit_char((n % 10) as nat)]);
        }
    }
}

/// A resolver that takes its parameters out of a type-erased container.
pub trait EndpointResolver {
    fn resolve_endpoint(&self, params: &EndpointResolverParams) -> Result<Endpoint, EndpointError>;
}

/// A resolution strategy for parameters of one concrete type.
pub trait ResolveEndpoint {
    type Params;

    /// What the strategy gives for `params`.
    spec fn resolves_to(&self, params: &Self::Params) -> Result<Endpoint, ResolveEndpointError>;

    fn resolve_endpoint(&self, params: &Self::Params) -> (r: Result<Endpoint, ResolveEndpointError>)
        ensures
            r == self.resolves_to(params),
    ;
}

/// A resolver that always yields the same URL, whatever the parameters.
pub struct StaticUriEndpointResolver {
    endpoint: String,
}

impl StaticUriEndpointResolver {
    /// The URL this resolver yields.
    pub closed spec fn url(self) -> Seq<char> {
        self.endpoint@
    }

    /// A resolver for `http://localhost:<port>`, written as `http::Uri`'s
    /// `Display` writes it: an absolute URI with an empty path shows it as `/`.
    pub fn http_localhost(port: u16) -> (r: Self)
        ensures
            r.url() == "http://localhost:"@ + decimal(port as nat) + "/"@,
    {
        proof {
            reveal_strlit("http://localhost:");
            reveal_strlit("/");
        }
        let mut url = <String as StringExecFns>::from_str("http://localhost:");
        push_decimal(&mut url, port);
        url.append("/");
        StaticUriEndpointResolver { endpoint: url }
    }

    /// A resolver for the given URI, given as `http::Uri`'s `Display` writes it.
    pub fn uri(endpoint: String) -> (r: Self)
        ensures
            r.url() == endpoint@,
    {
        StaticUriEndpointResolver { endpoint }
    }

    /// The fixed endpoint: this resolver's URL, with no headers.
    pub fn endpoint(&self) -> (r: Endpoint)
        ensures
            r.url@ == self.url(),
            r.headers@.len() == 0,
    {
        Endpoint { url: self.endpoint.clone(), headers: Vec::new() }
    }
}

impl EndpointResolver for StaticUriEndpointResolver {
    fn resolve_endpoint(&self, _params: &EndpointResolverParams) -> (r: Result<Endpoint, EndpointError>)
        ensures
            r matches Ok(e) && e.url@ == self.url() && e.headers@.len() == 0,
    {
        Ok(self.endpoint())
    }
}

/// The parameters of a [`StaticUriEndpointResolver`]: there are none.
#[derive(Debug, PartialEq, Eq, Structural)]
pub struct StaticUriEndpointResolverParams;

impl StaticUriEndpointResolverParams {
    /// Creates the (empty) parameters.
    pub fn new() -> (r: Self)
        ensures
            r == StaticUriEndpointResolverParams,
    {
        StaticUriEndpointResolverParams
    }

    /// Puts these parameters into a type-erased container.
    pub fn into_resolver_params(self) -> EndpointResolverParams {
        erase_params(self)
    }
}

impl Default for StaticUriEndpointResolverParams {
    fn default() -> (r: Self)
        ensures
            r == StaticUriEndpointResolverParams,
    {
        StaticUriEndpointResolverParams
    }
}

/// The outcome of resolving with `inner` given the parameters `found` in the
/// container: `MissingParameters` without them; else what `inner` gives, a
/// failure carried unchanged as `ResolutionFailure`.
pub open spec fn resolution<R: ResolveEndpoint>(inner: R, found: Option<&R::Params>) -> Result<Endpoint, EndpointError> {
    match found {
        None => Err(EndpointError::MissingParameters),
        Some(p) => match inner.resolves_to(p) {
            Ok(e) => Ok(e),
            Err(e) => Err(EndpointError::ResolutionFailure(e)),
        },
    }
}

/// A resolver that hands parameters of its strategy's type on to that strategy.
pub struct DefaultEndpointResolver<R> {
    inner: R,
}

impl<R: ResolveEndpoint> DefaultEndpointResolver<R> {
    /// The wrapped strategy.
    pub closed spec fn inner(self) -> R {
        self.inner
    }

    /// Wraps a resolution strategy.
    pub fn new(resolve_endpoint: R) -> (r: Self)
        ensures
            r.inner() == resolve_endpoint,
    {
        DefaultEndpointResolver { inner: resolve_endpoint }
    }

    /// Resolves with the parameters found in the container, if any were of
    /// the strategy's type: without them it fails with `MissingParameters`,
    /// and a failure of the strategy is a `ResolutionFailure`.
    pub fn resolve_found(&self, found: Option<&R::Params>) -> (r: Result<Endpoint, EndpointError>)
        ensures
            r == resolution(self.inner(), found),
    {
        match found {
            Some(params) => match self.inner.resolve_endpoint(params) {
                Ok(e) => Ok(e),
                Err(e) => Err(EndpointError::ResolutionFailure(e)),
            },
            None => Err(EndpointError::MissingParameters),
        }
    }
}

impl<R: ResolveEndpoint> EndpointResolver for DefaultEndpointResolver<R> where
    R::Params: core::fmt::Debug + Send + Sync + 'static,
 {
    fn resolve_endpoint(&self, params: &EndpointResolverParams) -> (r: Result<Endpoint, EndpointError>)
        ensures
            exists|found: Option<&R::Params>| r == #[trigger] resolution(self.inner(), found),
            r is Err ==> (r matches Err(EndpointError::MissingParameters))
                || (r matches Err(EndpointError::ResolutionFailure(_))),
    {
        self.resolve_found(params_of_type::<R::Params>(params))
    }
}

} // verus!
