use fast42::client::format_token_form;
use fast42::{
    AccessToken, Action, ApiCall, Body, Event, Fast42, HttpOption, HttpRequest, Method, RateLimit,
    SecretString, Step,
};

fn client() -> Fast42 {
    let secret = SecretString::new("SECRET".to_owned());
    Fast42::new("UID", &secret, 1400, 8, "public")
}

fn token(expires_in: u64) -> AccessToken {
    AccessToken {
        access_token: SecretString::new("TOKEN".to_string()),
        token_type: "bearer".to_string(),
        expires_in,
        scope: "public".to_string(),
        created_at: 1,
    }
}

fn kept() -> Event<u32, &'static str> {
    Event::TokenRead(Some(SecretString::new("TOKEN".to_owned())))
}

fn header(name: &str, value: &str) -> (String, String) {
    (name.to_string(), value.to_string())
}

fn assert_reads_token<J>(action: Action<J>) {
    match action {
        Action::ReadToken { client_id } => assert_eq!(client_id, "UID"),
        _ => panic!("the token is looked up first"),
    }
}

fn sent<J>(fast42: &Fast42, call: ApiCall<J>) -> HttpRequest<J> {
    match call.step(fast42, kept()) {
        Step::Await(ApiCall::Sent, Action::Send(request)) => request,
        _ => panic!("the request is sent with the token that is kept"),
    }
}

fn json<J>(request: HttpRequest<J>) -> J {
    match request.body {
        Body::Json(json) => json,
        Body::Text(_) => panic!("the body is JSON"),
    }
}

#[test]
fn test_new() {
    let secret = SecretString::new("SECRET".to_owned());
    let fast42 = Fast42::new("UID", &secret, 1400, 8, "public");
    assert_eq!(fast42.credentials.client_id, "UID");
    assert_eq!(fast42.credentials.client_secret.expose_secret(), "SECRET");
    assert!(!fast42.root_url.is_empty());
}

#[test]
fn new_client_has_the_settings_of_the_api() {
    let fast42 = client();
    assert_eq!(fast42.root_url, "https://api.intra.42.fr");
    assert_eq!(fast42.version, "v2");
    assert_eq!(fast42.credentials.scope, "public");
    assert_eq!(fast42.service.buffer, 100);
    assert_eq!(fast42.service.per_hour, RateLimit { requests: 1400, seconds: 3600 });
    assert_eq!(fast42.service.per_second, RateLimit { requests: 8, seconds: 1 });
}

#[test]
fn get_sends_its_options() {
    let fast42 = client();
    let (call, action) = fast42.get("/users", vec![HttpOption::new("id", "1")]);
    assert_reads_token(action);
    let request = sent(&fast42, call);
    assert_eq!(request.method, Method::Get);
    assert_eq!(request.url, "https://api.intra.42.fr/v2/users?id=1");
    assert_eq!(
        request.headers,
        vec![header("Authorization", "Bearer TOKEN"), header("Content-Type", "application/json")]
    );
    assert_eq!(json(request), "");
}

#[test]
fn post_sends_its_body() {
    let fast42 = client();
    let (call, action) = fast42.post("/users", vec![], r#"{"id": 1}"#);
    assert_reads_token(action);
    let request = sent(&fast42, call);
    assert_eq!(request.method.as_str(), "POST");
    assert_eq!(request.url, "https://api.intra.42.fr/v2/users");
    assert_eq!(json(request), r#"{"id": 1}"#);
}

#[test]
fn put_sends_its_body() {
    let fast42 = client();
    let (call, action) = fast42.put("/users", vec![], 42);
    assert_reads_token(action);
    let request = sent(&fast42, call);
    assert_eq!(request.method.as_str(), "PUT");
    assert_eq!(request.url, "https://api.intra.42.fr/v2/users");
    assert_eq!(json(request), 42);
}

#[test]
fn patch_sends_its_body() {
    let fast42 = client();
    let (call, action) = fast42.patch("/users", vec![], vec!["fast42"]);
    assert_reads_token(action);
    let request = sent(&fast42, call);
    assert_eq!(request.method.as_str(), "PATCH");
    assert_eq!(request.url, "https://api.intra.42.fr/v2/users");
    assert_eq!(json(request), vec!["fast42"]);
}

#[test]
fn delete_sends_options_and_body() {
    let fast42 = client();
    let (call, action) = fast42.delete("/users", vec![HttpOption::new("id", "1")], "");
    assert_reads_token(action);
    let request = sent(&fast42, call);
    assert_eq!(request.method.as_str(), "DELETE");
    assert_eq!(Method::Get.as_str(), "GET");
    assert_eq!(request.url, "https://api.intra.42.fr/v2/users?id=1");
    assert_eq!(json(request), "");
}

#[test]
fn kept_token_is_used() {
    let fast42 = client();
    let (call, _) = fast42.get("/users", vec![]);
    match call.step(&fast42, kept()) {
        Step::Await(call, Action::Send(_)) => {
            match call.step::<u32, &str>(&fast42, Event::Responded(Ok(200))) {
                Step::Done(result) => assert_eq!(result, Ok(200)),
                Step::Await(..) => panic!("the response ends the call"),
            }
        }
        _ => panic!("no token is asked for"),
    }
}

#[test]
fn missing_token_is_fetched_kept_and_used() {
    let fast42 = client();
    let (call, _) = fast42.get("/users", vec![]);
    let (call, action) = match call.step::<u32, &str>(&fast42, Event::TokenRead(None)) {
        Step::Await(call, action) => (call, action),
        Step::Done(_) => panic!("a token is asked for"),
    };
    match action {
        Action::FetchToken(request) => {
            assert_eq!(request.method, Method::Post);
            assert_eq!(request.url, "https://api.intra.42.fr/oauth/token");
            assert_eq!(
                request.headers,
                vec![header("Content-Type", "application/x-www-form-urlencoded")]
            );
            match request.body {
                Body::Text(form) => assert_eq!(
                    form,
                    "grant_type=client_credentials&client_id=UID&client_secret=SECRET&scope=public"
                ),
                Body::Json(_) => panic!("the body is a form"),
            }
        }
        _ => panic!("a token is asked for"),
    }
    let (call, action) =
        match call.step::<u32, &str>(&fast42, Event::TokenFetched(Ok(token(7200)))) {
            Step::Await(call, action) => (call, action),
            Step::Done(_) => panic!("the token is kept"),
        };
    match action {
        Action::StoreToken { client_id, token, seconds } => {
            assert_eq!(client_id, "UID");
            assert_eq!(token.access_token.expose_secret(), "TOKEN");
            assert_eq!(token.expires_in, 7200);
            assert_eq!(seconds, 7180);
        }
        _ => panic!("the token is kept"),
    }
    let (call, action) = match call.step::<u32, &str>(&fast42, Event::TokenStored) {
        Step::Await(call, action) => (call, action),
        Step::Done(_) => panic!("the token is read back"),
    };
    assert_reads_token(action);
    let request = sent(&fast42, call);
    assert_eq!(request.url, "https://api.intra.42.fr/v2/users");
    assert_eq!(request.headers[0], header("Authorization", "Bearer TOKEN"));
}

#[test]
fn refused_token_ends_the_call() {
    let fast42 = client();
    let (call, _) = fast42.get("/users", vec![]);
    let call = match call.step::<u32, &str>(&fast42, Event::TokenRead(None)) {
        Step::Await(call, Action::FetchToken(_)) => call,
        _ => panic!("a token is asked for"),
    };
    match call.step::<u32, &str>(&fast42, Event::TokenFetched(Err("refused"))) {
        Step::Done(result) => assert_eq!(result, Err("refused")),
        Step::Await(..) => panic!("nothing is sent without a token"),
    }
}

#[test]
fn failed_request_ends_the_call() {
    let fast42 = client();
    let (call, _) = fast42.get("/users", vec![]);
    let call = match call.step(&fast42, kept()) {
        Step::Await(call, _) => call,
        Step::Done(_) => panic!("the request is sent"),
    };
    match call.step::<u32, &str>(&fast42, Event::Responded(Err("offline"))) {
        Step::Done(result) => assert_eq!(result, Err("offline")),
        Step::Await(..) => panic!("the error ends the call"),
    }
}

#[test]
fn events_out_of_turn_are_not_awaited() {
    let fast42 = client();
    let (lookup, _) = fast42.get("/users", vec![]);
    let nothing: Event<u32, &str> = Event::TokenRead(None);
    let stored: Event<u32, &str> = Event::TokenStored;
    assert!(lookup.is_awaiting(&nothing));
    assert!(lookup.is_awaiting(&kept()));
    assert!(!lookup.is_awaiting(&stored));
    let fetch = match lookup.step(&fast42, nothing) {
        Step::Await(call, _) => call,
        Step::Done(_) => panic!("a token is asked for"),
    };
    let short: Event<u32, &str> = Event::TokenFetched(Ok(token(19)));
    let enough: Event<u32, &str> = Event::TokenFetched(Ok(token(20)));
    assert!(!fetch.is_awaiting(&short));
    assert!(fetch.is_awaiting(&enough));
    let store = match fetch.step(&fast42, enough) {
        Step::Await(call, Action::StoreToken { seconds, .. }) => {
            assert_eq!(seconds, 0);
            call
        }
        _ => panic!("the token is kept"),
    };
    assert!(store.is_awaiting(&stored));
    let reread = match store.step(&fast42, stored) {
        Step::Await(call, _) => call,
        Step::Done(_) => panic!("the token is read back"),
    };
    let nothing: Event<u32, &str> = Event::TokenRead(None);
    assert!(!reread.is_awaiting(&nothing));
    assert!(reread.is_awaiting(&kept()));
}

#[test]
fn token_form_holds_credentials() {
    assert_eq!(
        format_token_form("id", "hush", "public%20projects"),
        "grant_type=client_credentials&client_id=id&client_secret=hush&scope=public%20projects"
    );
}

#[test]
fn text_bodies_are_sent_as_they_stand() {
    let fast42 = client();
    let (call, action): (ApiCall<u32>, Action<u32>) =
        fast42.make_api_req_with_body(Method::Patch, "/users", r#"{"id": 1}"#.to_string());
    assert_reads_token(action);
    let request = sent(&fast42, call);
    assert_eq!(request.method, Method::Patch);
    assert_eq!(request.url, "https://api.intra.42.fr/v2/users");
    assert_eq!(
        request.headers,
        vec![header("Authorization", "Bearer TOKEN"), header("Content-Type", "application/json")]
    );
    match request.body {
        Body::Text(text) => assert_eq!(text, r#"{"id": 1}"#),
        Body::Json(_) => panic!("the body is text"),
    }
}

#[test]
fn pages_are_got() {
    let fast42 = client();
    let paged = fast42.get_all_pages("/users", vec![]);
    let (call, action) = fast42.get_page(paged.page(2));
    assert_reads_token(action);
    let request = sent(&fast42, call);
    assert_eq!(request.method, Method::Get);
    assert_eq!(
        request.url,
        "https://api.intra.42.fr/v2/users?page[size]=100&page[number]=2"
    );
    assert_eq!(json(request), "");
}

#[test]
fn fetched_token_serves_the_next_call() {
    let fast42 = client();
    let (first, _) = fast42.get("/users", vec![]);
    let first = match first.step::<u32, &str>(&fast42, Event::TokenRead(None)) {
        Step::Await(call, _) => call,
        Step::Done(_) => panic!("a token is asked for"),
    };
    let (stored_for, stored) =
        match first.step::<u32, &str>(&fast42, Event::TokenFetched(Ok(token(7200)))) {
            Step::Await(_, Action::StoreToken { client_id, token, .. }) => (client_id, token),
            _ => panic!("the token is kept"),
        };
    let (second, action) = fast42.post("/users", vec![], "body");
    match action {
        Action::ReadToken { client_id } => assert_eq!(client_id, stored_for),
        _ => panic!("the token is looked up first"),
    }
    let read: Event<u32, &str> = Event::TokenRead(Some(stored.access_token.clone()));
    match second.step(&fast42, read) {
        Step::Await(ApiCall::Sent, Action::Send(request)) => {
            assert_eq!(request.headers[0], header("Authorization", "Bearer TOKEN"));
            assert_eq!(json(request), "body");
        }
        _ => panic!("no second token is asked for"),
    }
}
