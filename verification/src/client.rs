//! The client of the 42 API: its settings, and the requests that it makes.
use crate::call;
use crate::call::{Action, ApiCall, PendingCall};
use crate::option;
use crate::option::{format_options, get_options_string_and_page_size, HttpOption};
use crate::pages::PagedEndpoint;
use crate::request::{Body, HttpRequest, Method};
use crate::request;
use crate::secret::SecretString;
use vstd::prelude::*;

verus! {

/// Where the 42 API lives.
pub const ROOT_URL: &'static str = "https://api.intra.42.fr";

/// The version of the 42 API that requests go to.
pub const API_VERSION: &'static str = "v2";

/// How many requests may wait for the rate limits to let them pass.
pub const REQUEST_BUFFER: usize = 100;

/// The seconds in an hour.
pub const HOUR: u64 = 3600;

/// How many seconds before its end a token is dropped.
pub const TOKEN_MARGIN: u64 = 20;

/// The 42 API credentials.
/// Note that the client secret is a [`SecretString`].
/// This is to prevent it from showing up in logs and debug output.
pub struct ApiCredentials {
    pub client_id: String,
    pub client_secret: SecretString,
    pub scope: String,
}

/// The response of the token endpoint.
pub struct AccessToken {
    pub access_token: SecretString,
    pub token_type: String,
    pub expires_in: u64,
    pub scope: String,
    pub created_at: u64,
}

/// At most `requests` requests in each window of `seconds` seconds.
#[derive(Clone, Copy, Debug, PartialEq, Eq, Structural)]
pub struct RateLimit {
    pub requests: u64,
    pub seconds: u64,
}

/// What a request passes before it is sent: a buffer, the hourly limit, and the limit per second.
#[derive(Clone, Copy, Debug, PartialEq, Eq, Structural)]
pub struct ServicePlan {
    pub buffer: usize,
    pub per_hour: RateLimit,
    pub per_second: RateLimit,
}

/// Everything needed to decide which requests to perform. Can only be instantiated using the
/// `new()` method.
#[non_exhaustive]
pub struct Fast42 {
    pub credentials: ApiCredentials,
    pub service: ServicePlan,
    pub root_url: String,
    pub version: String,
}

/// The form that asks for a token.
pub open spec fn token_form(
    client_id: Seq<char>,
    client_secret: Seq<char>,
    scope: Seq<char>,
) -> Seq<char> {
    "grant_type=client_credentials&client_id="@ + client_id + "&client_secret="@ + client_secret
        + "&scope="@ + scope
}

/// Writes the form that asks for a token.
pub fn format_token_form(client_id: &str, client_secret: &str, scope: &str) -> (form: String)
    ensures
        form@ == token_form(client_id@, client_secret@, scope@),
{
    let mut form = "grant_type=client_credentials&client_id=".to_owned();
    form.append(client_id);
    form.append("&client_secret=");
    form.append(client_secret);
    form.append("&scope=");
    form.append(scope);
    form
}

impl Fast42 {
    /// Where an endpoint lives.
    pub open spec fn url(self, endpoint: Seq<char>) -> Seq<char> {
        self.root_url@ + "/"@ + self.version@ + endpoint
    }

    /// The request that asks for a token.
    pub open spec fn token_request<J>(self) -> request::HttpRequestView<J> {
        request::HttpRequestView {
            method: Method::Post,
            url: self.root_url@ + "/oauth/token"@,
            headers: seq![("Content-Type"@, "application/x-www-form-urlencoded"@)],
            body: request::BodyView::Text(
                token_form(
                    self.credentials.client_id@,
                    self.credentials.client_secret@,
                    self.credentials.scope@,
                ),
            ),
        }
    }

    /// The request to an endpoint, in the name of the bearer of `token`.
    pub open spec fn bearer_request<J>(
        self,
        method: Method,
        endpoint: Seq<char>,
        token: Seq<char>,
        body: request::BodyView<J>,
    ) -> request::HttpRequestView<J> {
        request::HttpRequestView {
            method,
            url: self.url(endpoint),
            headers: seq![
                ("Authorization"@, "Bearer "@ + token),
                ("Content-Type"@, "application/json"@),
            ],
            body,
        }
    }

    /// Whether `started` is the beginning of a call: nothing done yet, and the token of this client
    /// looked up first.
    pub open spec fn begins<J>(
        self,
        started: (ApiCall<J>, Action<J>),
        method: Method,
        endpoint: Seq<char>,
        body: request::BodyView<J>,
    ) -> bool {
        &&& started.0 matches ApiCall::Lookup(pending)
        &&& pending.method == method
        &&& pending.endpoint@ == endpoint
        &&& pending.body@ == body
        &&& started.1@ == call::ActionView::<J>::ReadToken(self.credentials.client_id@)
    }

    /// Constructs a new [`Fast42`].
    ///
    /// Note: scopes are `%20` separated.
    pub fn new(
        key: &str,
        secret: &SecretString,
        ratelimit_per_hour: u64,
        ratelimit_per_second: u64,
        scope: &str,
    ) -> (fast42: Fast42)
        requires
            ratelimit_per_hour > 0,
            ratelimit_per_second > 0,
        ensures
            fast42.credentials.client_id@ == key@,
            fast42.credentials.client_secret@ == secret@,
            fast42.credentials.scope@ == scope@,
            fast42.service == (ServicePlan {
                buffer: REQUEST_BUFFER,
                per_hour: RateLimit { requests: ratelimit_per_hour, seconds: HOUR },
                per_second: RateLimit { requests: ratelimit_per_second, seconds: 1 },
            }),
            fast42.root_url@ == ROOT_URL@,
            fast42.version@ == API_VERSION@,
    {
        Fast42 {
            credentials: ApiCredentials {
                client_id: key.into(),
                client_secret: secret.clone(),
                scope: scope.into(),
            },
            service: ServicePlan {
                buffer: REQUEST_BUFFER,
                per_hour: RateLimit { requests: ratelimit_per_hour, seconds: HOUR },
                per_second: RateLimit { requests: ratelimit_per_second, seconds: 1 },
            },
            root_url: ROOT_URL.to_owned(),
            version: API_VERSION.to_owned(),
        }
    }

    fn start<J>(
        &self,
        method: Method,
        endpoint: &str,
        options: Vec<HttpOption>,
        json: J,
    ) -> (started: (ApiCall<J>, Action<J>))
        ensures
            self.begins(
                started,
                method,
                endpoint@ + option::query_string(option::option_pairs(options@)),
                request::BodyView::Json(json),
            ),
    {
        let http_options = format_options(options);
        let mut endpoint = endpoint.to_owned();
        endpoint.append(http_options.as_str());
        self.make_api_req(method, endpoint, json)
    }

    /// Starts a single GET request to the 42 API.
    ///
    /// The endpoint starts with a `/`, like `/users`.
    pub fn get(&self, endpoint: &str, options: Vec<HttpOption>) -> (started: (
        ApiCall<&'static str>,
        Action<&'static str>,
    ))
        ensures
            self.begins(
                started,
                Method::Get,
                endpoint@ + option::query_string(option::option_pairs(options@)),
                request::BodyView::Json(""),
            ),
    {
        self.start(Method::Get, endpoint, options, "")
    }

    /// Starts a single POST request to the 42 API, with `json` as its body.
    pub fn post<J>(&self, endpoint: &str, options: Vec<HttpOption>, json: J) -> (started: (
        ApiCall<J>,
        Action<J>,
    ))
        ensures
            self.begins(
                started,
                Method::Post,
                endpoint@ + option::query_string(option::option_pairs(options@)),
                request::BodyView::Json(json),
            ),
    {
        self.start(Method::Post, endpoint, options, json)
    }

    /// Starts a single PUT request to the 42 API, with `json` as its body.
    pub fn put<J>(&self, endpoint: &str, options: Vec<HttpOption>, json: J) -> (started: (
        ApiCall<J>,
        Action<J>,
    ))
        ensures
            self.begins(
                started,
                Method::Put,
                endpoint@ + option::query_string(option::option_pairs(options@)),
                request::BodyView::Json(json),
            ),
    {
        self.start(Method::Put, endpoint, options, json)
    }

    /// Starts a single PATCH request to the 42 API, with `json` as its body.
    pub fn patch<J>(&self, endpoint: &str, options: Vec<HttpOption>, json: J) -> (started: (
        ApiCall<J>,
        Action<J>,
    ))
        ensures
            self.begins(
                started,
                Method::Patch,
                endpoint@ + option::query_string(option::option_pairs(options@)),
                request::BodyView::Json(json),
            ),
    {
        self.start(Method::Patch, endpoint, options, json)
    }

    /// Starts a single DELETE request to the 42 API, with `json` as its body.
    pub fn delete<J>(&self, endpoint: &str, options: Vec<HttpOption>, json: J) -> (started: (
        ApiCall<J>,
        Action<J>,
    ))
        ensures
            self.begins(
                started,
                Method::Delete,
                endpoint@ + option::query_string(option::option_pairs(options@)),
                request::BodyView::Json(json),
            ),
    {
        self.start(Method::Delete, endpoint, options, json)
    }

    /// Prepares for fetching all the pages of an endpoint of the 42 API.
    pub fn get_all_pages(&self, endpoint: &str, options: Vec<HttpOption>) -> (paged: PagedEndpoint)
        ensures
            paged.endpoint@ == endpoint@,
            paged.options@ == option::query_string(
                option::page_options(option::option_pairs(options@)),
            ),
            paged.page_size == option::page_size(option::option_pairs(options@)),
    {
        let (options, page_size) = get_options_string_and_page_size(options);
        PagedEndpoint { endpoint: endpoint.to_owned(), options, page_size }
    }

    /// Starts the request for one page. The endpoint holds the whole query string of that page.
    pub fn get_page(&self, page: String) -> (started: (ApiCall<&'static str>, Action<&'static str>))
        ensures
            self.begins(started, Method::Get, page@, request::BodyView::Json("")),
    {
        self.make_api_req(Method::Get, page, "")
    }

    /// Starts a request to an endpoint, with a value to be sent as JSON. The endpoint holds its query
    /// string.
    pub fn make_api_req<J>(&self, method: Method, endpoint: String, json: J) -> (started: (
        ApiCall<J>,
        Action<J>,
    ))
        ensures
            self.begins(started, method, endpoint@, request::BodyView::Json(json)),
    {
        let pending = PendingCall { method, endpoint, body: Body::Json(json) };
        (ApiCall::Lookup(pending), self.get_access_token())
    }

    /// Starts a request to an endpoint, with a body that is text already. The endpoint holds its
    /// query string.
    pub fn make_api_req_with_body<J>(&self, method: Method, endpoint: &str, body: String) -> (started:
        (ApiCall<J>, Action<J>))
        ensures
            self.begins(started, method, endpoint@, request::BodyView::<J>::Text(body@)),
    {
        let pending = PendingCall { method, endpoint: endpoint.to_owned(), body: Body::Text(body) };
        (ApiCall::Lookup(pending), self.get_access_token())
    }

    /// Builds the request to an endpoint, in the name of the bearer of `token`.
    pub fn build_request<J>(&self, method: Method, endpoint: &str, token: &str, body: Body<J>) -> (
    request: HttpRequest<J>)
        ensures
            request@ == self.bearer_request(method, endpoint@, token@, body@),
    {
        let mut url = self.root_url.clone();
        url.append("/");
        url.append(self.version.as_str());
        url.append(endpoint);
        let mut bearer = "Bearer ".to_owned();
        bearer.append(token);
        let mut headers: Vec<(String, String)> = Vec::new();
        headers.push(("Authorization".to_owned(), bearer));
        headers.push(("Content-Type".to_owned(), "application/json".to_owned()));
        let request = HttpRequest { method, url, headers, body };
        assert(request@.headers =~= self.bearer_request(method, endpoint@, token@, body@).headers);
        request
    }

    /// Builds the request that asks for a token.
    pub fn fetch_access_token<J>(&self) -> (request: HttpRequest<J>)
        ensures
            request@ == self.token_request::<J>(),
    {
        let mut url = self.root_url.clone();
        url.append("/oauth/token");
        let mut headers: Vec<(String, String)> = Vec::new();
        headers.push(("Content-Type".to_owned(), "application/x-www-form-urlencoded".to_owned()));
        let form = format_token_form(
            self.credentials.client_id.as_str(),
            self.credentials.client_secret.expose_secret().as_str(),
            self.credentials.scope.as_str(),
        );
        let request = HttpRequest { method: Method::Post, url, headers, body: Body::Text(form) };
        assert(request@.headers =~= self.token_request::<J>().headers);
        request
    }

    /// Decides how long a token may be kept: until [`TOKEN_MARGIN`] seconds before its end.
    pub fn store_access_token<J>(&self, client_id: String, token: AccessToken) -> (action: Action<J>)
        requires
            token.expires_in >= TOKEN_MARGIN,
        ensures
            action@ == call::ActionView::<J>::StoreToken(
                client_id@,
                token,
                (token.expires_in - TOKEN_MARGIN) as nat,
            ),
    {
        let expiry: u64 = token.expires_in - 10;
        Action::StoreToken { client_id, token, seconds: expiry - 10 }
    }

    /// Asks for the token of this client, where one is kept.
    pub fn get_access_token<J>(&self) -> (action: Action<J>)
        ensures
            action@ == call::ActionView::<J>::ReadToken(self.credentials.client_id@),
    {
        Action::ReadToken { client_id: self.credentials.client_id.clone() }
    }
}

/// The form that asks for a token carries the credentials whole, each behind its name.
pub proof fn law_token_form_carries_the_credentials(
    client_id: Seq<char>,
    client_secret: Seq<char>,
    scope: Seq<char>,
)
    ensures
        token_form(client_id, client_secret, scope)
            == "grant_type=client_credentials&client_id="@ + client_id + "&client_secret="@
            + client_secret + "&scope="@ + scope,
{
}

/// Forms that differ in one of the credentials alone are different forms.
pub proof fn law_different_credentials_make_different_forms(
    a: Seq<char>,
    b: Seq<char>,
    client_id: Seq<char>,
    client_secret: Seq<char>,
    scope: Seq<char>,
)
    requires
        a != b,
    ensures
        token_form(a, client_secret, scope) != token_form(b, client_secret, scope),
        token_form(client_id, a, scope) != token_form(client_id, b, scope),
        token_form(client_id, client_secret, a) != token_form(client_id, client_secret, b),
{
    let before_id = "grant_type=client_credentials&client_id="@;
    let behind_id = "&client_secret="@ + client_secret + "&scope="@ + scope;
    let before_secret = before_id + client_id + "&client_secret="@;
    let behind_secret = "&scope="@ + scope;
    let before_scope = before_secret + client_secret + "&scope="@;
    let nothing = Seq::<char>::empty();
    assert(token_form(a, client_secret, scope) =~= before_id + a + behind_id);
    assert(token_form(b, client_secret, scope) =~= before_id + b + behind_id);
    assert(token_form(client_id, a, scope) =~= before_secret + a + behind_secret);
    assert(token_form(client_id, b, scope) =~= before_secret + b + behind_secret);
    assert(token_form(client_id, client_secret, a) =~= before_scope + a + nothing);
    assert(token_form(client_id, client_secret, b) =~= before_scope + b + nothing);
    lemma_middle_differs(before_id, a, b, behind_id);
    lemma_middle_differs(before_secret, a, b, behind_secret);
    lemma_middle_differs(before_scope, a, b, nothing);
}

proof fn lemma_middle_differs(before: Seq<char>, a: Seq<char>, b: Seq<char>, behind: Seq<char>)
    requires
        a != b,
    ensures
        before + a + behind != before + b + behind,
{
    let left = before + a + behind;
    let right = before + b + behind;
    if left == right {
        assert(left.len() == before.len() + a.len() + behind.len());
        assert(right.len() == before.len() + b.len() + behind.len());
        assert(left.subrange(before.len() as int, (before.len() + a.len()) as int) =~= a);
        assert(right.subrange(before.len() as int, (before.len() + b.len()) as int) =~= b);
    }
}

/// A token is asked for by posting a form with the credentials of the client, whole, to the token
/// endpoint behind the root.
pub proof fn law_token_request_is_written_out<J>(fast42: Fast42)
    ensures
        fast42.token_request::<J>().method == Method::Post,
        fast42.token_request::<J>().url == fast42.root_url@ + "/oauth/token"@,
        fast42.token_request::<J>().headers == seq![
            ("Content-Type"@, "application/x-www-form-urlencoded"@),
        ],
        fast42.token_request::<J>().body == request::BodyView::<J>::Text(
            "grant_type=client_credentials&client_id="@ + fast42.credentials.client_id@
                + "&client_secret="@ + fast42.credentials.client_secret@ + "&scope="@
                + fast42.credentials.scope@,
        ),
{
}

/// The URL of an endpoint is the root, `/`, the version and then the endpoint, unchanged.
pub proof fn law_url_ends_in_the_endpoint(fast42: Fast42, endpoint: Seq<char>)
    ensures
        fast42.url(endpoint) == fast42.root_url@ + "/"@ + fast42.version@ + endpoint,
        fast42.url(endpoint).len() == (fast42.root_url@ + "/"@ + fast42.version@).len()
            + endpoint.len(),
        fast42.url(endpoint).skip((fast42.root_url@ + "/"@ + fast42.version@).len() as int)
            == endpoint,
{
    let root = fast42.root_url@ + "/"@ + fast42.version@;
    assert(fast42.url(endpoint).skip(root.len() as int) =~= endpoint);
}

/// Different endpoints have different URLs.
pub proof fn law_different_endpoints_have_different_urls(fast42: Fast42, a: Seq<char>, b: Seq<char>)
    requires
        a != b,
    ensures
        fast42.url(a) != fast42.url(b),
{
    law_url_ends_in_the_endpoint(fast42, a);
    law_url_ends_in_the_endpoint(fast42, b);
}

/// A request to an endpoint goes to its URL by its method with its body, and carries the token and
/// the content type, whatever the method, the endpoint and the body are.
pub proof fn law_bearer_request_is_authorized<J>(
    fast42: Fast42,
    method: Method,
    endpoint: Seq<char>,
    token: Seq<char>,
    body: request::BodyView<J>,
)
    ensures
        fast42.bearer_request(method, endpoint, token, body).method == method,
        fast42.bearer_request(method, endpoint, token, body).url == fast42.root_url@ + "/"@
            + fast42.version@ + endpoint,
        fast42.bearer_request(method, endpoint, token, body).headers == seq![
            ("Authorization"@, "Bearer "@ + token),
            ("Content-Type"@, "application/json"@),
        ],
        fast42.bearer_request(method, endpoint, token, body).body == body,
{
}

/// Requests with different tokens are different requests.
pub proof fn law_different_tokens_make_different_requests<J>(
    fast42: Fast42,
    method: Method,
    endpoint: Seq<char>,
    a: Seq<char>,
    b: Seq<char>,
    body: request::BodyView<J>,
)
    requires
        a != b,
    ensures
        fast42.bearer_request(method, endpoint, a, body) != fast42.bearer_request(
            method,
            endpoint,
            b,
            body,
        ),
{
    let left = fast42.bearer_request(method, endpoint, a, body).headers[0].1;
    let right = fast42.bearer_request(method, endpoint, b, body).headers[0].1;
    let nothing = Seq::<char>::empty();
    assert(left =~= "Bearer "@ + a + nothing);
    assert(right =~= "Bearer "@ + b + nothing);
    lemma_middle_differs("Bearer "@, a, b, nothing);
}

/// A call that begins holds what it was begun with, whole, and asks for the token of this client.
pub proof fn law_a_call_begins_with_what_is_asked<J>(
    fast42: Fast42,
    started: (ApiCall<J>, Action<J>),
    method: Method,
    endpoint: Seq<char>,
    body: request::BodyView<J>,
)
    requires
        fast42.begins(started, method, endpoint, body),
    ensures
        started.0 is Lookup,
        started.0->Lookup_0.method == method,
        started.0->Lookup_0.endpoint@ == endpoint,
        match started.0->Lookup_0.body {
            Body::Text(text) => body == request::BodyView::<J>::Text(text@),
            Body::Json(json) => body == request::BodyView::Json(json),
        },
        started.1 matches Action::ReadToken { client_id } && client_id@
            == fast42.credentials.client_id@,
{
}

} // verus!
