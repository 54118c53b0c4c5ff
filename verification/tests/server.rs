use bq_sentinel::amount::Amount;
use bq_sentinel::auth::BearerToken;
use bq_sentinel::config::AppConfig;
use bq_sentinel::google_client::{BqClient, BqDryRunResponse, Event, Exchange, Phase};
use bq_sentinel::server::{
    answered, blocked, proxy_query, simulation_failed, AppState, Body, Query, QueryEvent, Response,
    Step,
};
use serde_json::Value;

fn json(text: &str) -> Value {
    serde_json::from_str(text).unwrap()
}

fn amount(value: f64) -> Amount {
    Amount { bits: value.to_bits() }
}

fn state(enforce_mode: bool, max_cost_per_query: f64) -> AppState {
    AppState {
        config: AppConfig {
            port: 8080,
            max_cost_per_query: amount(max_cost_per_query),
            price_per_tib: amount(6.25),
            enforce_mode,
        },
        google_client: BqClient::with_base_url("http://localhost:1234".to_string()),
    }
}

/// A stand-in for BigQuery that gives every request the same reply, and keeps
/// what it was sent.
struct Server {
    status: u16,
    body: String,
    received: Vec<Value>,
}

impl Server {
    fn new(status: u16, body: &str) -> Server {
        Server { status, body: body.to_string(), received: Vec::new() }
    }

    fn event(&mut self, exchange: &Exchange) -> Event {
        match exchange.phase {
            Phase::Send => {
                assert_eq!(
                    exchange.request.url,
                    "http://localhost:1234/bigquery/v2/projects/test-project/queries",
                );
                assert_eq!(exchange.request.authorization, "Bearer fake-token");
                self.received.push(exchange.request.payload.clone());
                Event::Answered(self.status)
            }
            Phase::ReadText => Event::Text(Some(self.body.clone())),
            Phase::ReadJson => match serde_json::from_str(&self.body) {
                Ok(value) => Event::Json(value),
                Err(error) => Event::NotJson(error.to_string()),
            },
            Phase::Done(_) => panic!("a finished exchange goes on"),
        }
    }
}

fn total_bytes(value: &Value) -> BqDryRunResponse {
    BqDryRunResponse {
        total_bytes_processed: value
            .get("totalBytesProcessed")
            .and_then(Value::as_str)
            .map(str::to_string),
    }
}

fn start(state: &AppState) -> Query {
    let token = match BearerToken::from_header(Some("Bearer fake-token")) {
        Ok(token) => token,
        Err(status) => panic!("the token was refused with {}", status),
    };
    proxy_query(state, "test-project".to_string(), token, json(r#"{"query":"SELECT 1"}"#))
}

fn serve(state: &AppState, server: &mut Server) -> Response {
    let mut query = start(state);
    for _ in 0..6 {
        let event = match &query.step {
            Step::Simulate(exchange) => QueryEvent::Exchange(server.event(exchange)),
            Step::Decode(value) => QueryEvent::Decoded(Ok(total_bytes(value))),
            Step::Execute(exchange) => QueryEvent::Exchange(server.event(exchange)),
            Step::Respond(_) => break,
        };
        query = query.advance(state, event);
    }
    match query.step {
        Step::Respond(response) => response,
        _ => panic!("the query was not answered"),
    }
}

fn reply(total_bytes_processed: &str) -> String {
    format!("{{\"totalBytesProcessed\":\"{}\",\"rows\":[]}}", total_bytes_processed)
}

fn text(response: Response) -> String {
    match response.body {
        Body::Text(text) => text,
        Body::Json(_) => panic!("the response is no text"),
    }
}

#[test]
fn rejects_requests_without_a_bearer_token() {
    assert!(matches!(BearerToken::from_header(None), Err(401)));
}

#[test]
fn blocks_an_expensive_query_when_enforce_mode_is_on() {
    let mut server = Server::new(200, &reply("2199023255552"));
    let response = serve(&state(true, 5.0), &mut server);

    assert_eq!(response.status, 403);
    let body_text = text(response);
    assert!(body_text.contains("Blocked by BigQuery Sentinel"));
    assert_eq!(
        body_text,
        "Blocked by BigQuery Sentinel: The query costs $12.50, exceeding your limit of $5.00",
    );
    assert_eq!(server.received, vec![json(r#"{"query":"SELECT 1","dryRun":true}"#)]);
}

#[test]
fn logs_but_allows_an_expensive_query_when_enforce_mode_is_off() {
    let mut server = Server::new(200, &reply("2199023255552"));
    let response = serve(&state(false, 5.0), &mut server);

    assert_eq!(response.status, 200);
    assert_eq!(
        server.received,
        vec![json(r#"{"query":"SELECT 1","dryRun":true}"#), json(r#"{"query":"SELECT 1"}"#)],
    );
}

#[test]
fn allows_a_cheap_query_through() {
    let mut server = Server::new(200, &reply("4096"));
    let response = serve(&state(true, 5.0), &mut server);

    assert_eq!(response.status, 200);
    match response.body {
        Body::Json(value) => assert_eq!(value, json(&reply("4096"))),
        Body::Text(_) => panic!("the response is no JSON"),
    }
}

#[test]
fn returns_bad_request_when_the_dry_run_simulation_fails() {
    let mut server = Server::new(400, "invalid query");
    let response = serve(&state(true, 5.0), &mut server);

    assert_eq!(response.status, 400);
    assert_eq!(
        text(response),
        "Error simulating the query in BigQuery: Google Cloud rejected the simulation: invalid query",
    );
    assert_eq!(server.received.len(), 1);
}

#[test]
fn a_query_at_the_limit_is_allowed() {
    let limit = 12.5;
    let response = serve(&state(true, limit), &mut Server::new(200, &reply("2199023255552")));
    assert_eq!(response.status, 200);
    let response = serve(&state(true, limit), &mut Server::new(200, &reply("2199023255553")));
    assert_eq!(response.status, 403);
}

#[test]
fn reviews_say_what_a_query_costs() {
    let review = state(true, 5.0).review(2_199_023_255_552);
    assert_eq!(f64::from_bits(review.cost.bits), 12.5);
    assert!(review.too_expensive);
    let review = state(false, 5.0).review(4096);
    assert!(!review.too_expensive);
}

#[test]
fn a_reply_without_a_number_of_bytes_is_a_bad_request() {
    for body in ["{}", r#"{"totalBytesProcessed":"x"}"#] {
        let mut server = Server::new(200, body);
        let response = serve(&state(false, 5.0), &mut server);
        assert_eq!(response.status, 400);
        assert!(text(response).contains("totalBytesProcessed"));
        assert_eq!(server.received.len(), 1);
    }
}

#[test]
fn a_reply_that_cannot_be_decoded_is_a_bad_request() {
    let state = state(true, 5.0);
    let query = start(&state)
        .advance(&state, QueryEvent::Exchange(Event::Answered(200)))
        .advance(&state, QueryEvent::Exchange(Event::Json(Value::Null)))
        .advance(&state, QueryEvent::Decoded(Err("invalid type".to_string())));
    match query.step {
        Step::Respond(response) => {
            assert_eq!(response.status, 400);
            assert_eq!(
                text(response),
                "Error simulating the query in BigQuery: Error reading Google Cloud JSON: invalid type",
            );
        }
        _ => panic!("the query was not answered"),
    }
}

#[test]
fn a_query_that_fails_is_a_server_error() {
    let state = state(true, 5.0);
    let query = start(&state)
        .advance(&state, QueryEvent::Exchange(Event::Answered(200)))
        .advance(&state, QueryEvent::Exchange(Event::Json(json(&reply("4096")))))
        .advance(&state, QueryEvent::Decoded(Ok(total_bytes(&json(&reply("4096"))))))
        .advance(&state, QueryEvent::Exchange(Event::NotAnswered("refused".to_string())));
    assert!(!query.review.unwrap().too_expensive);
    match query.step {
        Step::Respond(response) => {
            assert_eq!(response.status, 500);
            assert_eq!(
                text(response),
                "Network error while connecting to Google Cloud: refused",
            );
        }
        _ => panic!("the query was not answered"),
    }
}

#[test]
fn events_out_of_turn_change_nothing_about_a_query() {
    let state = state(true, 5.0);
    let query = start(&state).advance(&state, QueryEvent::Decoded(Err("early".to_string())));
    assert!(matches!(query.step, Step::Simulate(_)));
    let query = query
        .advance(&state, QueryEvent::Exchange(Event::NotAnswered("down".to_string())))
        .advance(&state, QueryEvent::Exchange(Event::Answered(200)));
    assert!(matches!(query.step, Step::Respond(_)));
    assert!(query.review.is_none());
}

#[test]
fn a_bearer_token_follows_its_scheme() {
    match BearerToken::from_header(Some("Bearer a b")) {
        Ok(token) => assert_eq!(token.0, "a b"),
        Err(_) => panic!("the token was refused"),
    }
    for header in ["", "Bearer", "bearer x", "Basic x", "BearerX y"] {
        assert!(matches!(BearerToken::from_header(Some(header)), Err(401)));
    }
}

#[test]
fn responses() {
    assert_eq!(
        text(blocked(amount(0.125), amount(0.0))),
        "Blocked by BigQuery Sentinel: The query costs $0.12, exceeding your limit of $0.00",
    );
    assert_eq!(
        text(simulation_failed("why")),
        "Error simulating the query in BigQuery: why",
    );
    assert_eq!(answered(Ok(Value::Null)).status, 200);
    assert_eq!(answered(Err("why".to_string())).status, 500);
}
