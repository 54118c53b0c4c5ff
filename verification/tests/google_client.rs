use bq_sentinel::google_client::{
    simulated_bytes, BqClient, BqDryRunResponse, Event, Exchange, Phase,
};
use bq_sentinel::json::request_dry_run;
use serde_json::Value;

fn json(text: &str) -> Value {
    serde_json::from_str(text).unwrap()
}

fn client() -> BqClient {
    BqClient::with_base_url("http://localhost:1234".to_string())
}

fn simulation() -> Exchange {
    client().simulate_query("my-project", "fake-token", json(r#"{"query":"SELECT 1"}"#))
}

fn execution() -> Exchange {
    client().execute_query("my-project", "fake-token", &json(r#"{"query":"SELECT 42"}"#))
}

/// Runs an exchange against a reply with this status and body.
fn reply(exchange: Exchange, status: u16, body: &str) -> Result<Value, String> {
    let mut exchange = exchange.advance(Event::Answered(status));
    loop {
        exchange = match exchange.phase {
            Phase::Send => panic!("a request was sent twice"),
            Phase::ReadText => exchange.advance(Event::Text(Some(body.to_string()))),
            Phase::ReadJson => match serde_json::from_str(body) {
                Ok(value) => exchange.advance(Event::Json(value)),
                Err(error) => exchange.advance(Event::NotJson(error.to_string())),
            },
            Phase::Done(result) => return result,
        };
    }
}

/// The bytes that a reply to a dry run says.
fn bytes_of(reply: Result<Value, String>) -> Result<u64, String> {
    let value = reply?;
    let total_bytes_processed =
        value.get("totalBytesProcessed").and_then(Value::as_str).map(str::to_string);
    simulated_bytes(Ok(BqDryRunResponse { total_bytes_processed }))
}

fn total(text: &str) -> Result<u64, String> {
    simulated_bytes(Ok(BqDryRunResponse { total_bytes_processed: Some(text.to_string()) }))
}

#[test]
fn simulate_query_parses_total_bytes_processed() {
    let exchange = simulation();
    assert_eq!(
        exchange.request.url,
        "http://localhost:1234/bigquery/v2/projects/my-project/queries",
    );
    let bytes = bytes_of(reply(exchange, 200, r#"{"totalBytesProcessed":"123456789"}"#))
        .expect("simulate_query should succeed");

    assert_eq!(bytes, 123_456_789);
}

#[test]
fn simulate_query_injects_dry_run_true_even_if_caller_did_not_set_it() {
    let exchange = simulation();
    assert_eq!(exchange.request.payload, json(r#"{"query":"SELECT 1","dryRun":true}"#));
    let bytes = bytes_of(reply(exchange, 200, r#"{"totalBytesProcessed":"0"}"#))
        .expect("simulate_query should succeed when dryRun was injected correctly");

    assert_eq!(bytes, 0);
}

#[test]
fn simulate_query_fails_when_total_bytes_processed_is_missing() {
    let result = bytes_of(reply(simulation(), 200, "{}"));

    let err = result.expect_err("missing totalBytesProcessed should be an error");
    assert!(err.contains("totalBytesProcessed"));
}

#[test]
fn simulate_query_surfaces_google_cloud_errors() {
    let result = bytes_of(reply(simulation(), 400, "bad query syntax"));

    let err = result.expect_err("a non-200 response should be an error");
    assert!(err.contains("bad query syntax"));
    assert_eq!(err, "Google Cloud rejected the simulation: bad query syntax");
}

#[test]
fn execute_query_returns_the_raw_json_response() {
    let exchange = execution();
    assert_eq!(
        exchange.request.url,
        "http://localhost:1234/bigquery/v2/projects/my-project/queries",
    );
    assert_eq!(exchange.request.payload, json(r#"{"query":"SELECT 42"}"#));
    let result = reply(exchange, 200, r#"{"rows":[{"f":[{"v":"42"}]}]}"#)
        .expect("execute_query should succeed");

    assert_eq!(result["rows"][0]["f"][0]["v"], "42");
}

#[test]
fn requests_go_to_bigquery_with_the_token() {
    let exchange = BqClient::new().execute_query("p", "secret", &Value::Null);
    assert_eq!(
        exchange.request.url,
        "https://bigquery.googleapis.com/bigquery/v2/projects/p/queries",
    );
    assert_eq!(exchange.request.authorization, "Bearer secret");
    assert_eq!(exchange.context, "the real query");
    assert_eq!(
        BqClient::new().queries_url("x"),
        "https://bigquery.googleapis.com/bigquery/v2/projects/x/queries",
    );
}

#[test]
fn a_dry_run_overrides_what_the_caller_asked_for() {
    let marked = request_dry_run(json(r#"{"dryRun":false,"query":"SELECT 1","n":1.5}"#));
    assert_eq!(marked, json(r#"{"dryRun":true,"query":"SELECT 1","n":1.5}"#));
    assert_eq!(request_dry_run(marked.clone()), marked);
}

#[test]
fn only_an_object_is_marked_as_a_dry_run() {
    for text in ["null", "true", "1", "\"dryRun\"", "[{\"query\":\"SELECT 1\"}]"] {
        assert_eq!(request_dry_run(json(text)), json(text));
    }
    assert_eq!(request_dry_run(json("{}")), json(r#"{"dryRun":true}"#));
}

#[test]
fn every_status_but_200_is_a_rejection() {
    for status in [201, 204, 301, 400, 401, 403, 404, 500, 503] {
        assert_eq!(
            reply(execution(), status, "no").unwrap_err(),
            "Google Cloud rejected the real query: no",
        );
    }
}

#[test]
fn a_rejection_that_cannot_be_read_is_unknown() {
    let exchange = simulation().advance(Event::Answered(500)).advance(Event::Text(None));
    match exchange.phase {
        Phase::Done(Err(message)) => assert_eq!(
            message,
            "Google Cloud rejected the simulation: Unknown Google Cloud error",
        ),
        _ => panic!("the exchange is not done"),
    }
}

#[test]
fn errors_of_the_network_and_of_the_body_are_named() {
    let exchange = simulation().advance(Event::NotAnswered("timed out".to_string()));
    match exchange.phase {
        Phase::Done(Err(message)) => assert_eq!(
            message,
            "Network error while connecting to Google Cloud: timed out",
        ),
        _ => panic!("the exchange is not done"),
    }
    let message = reply(simulation(), 200, "{").unwrap_err();
    assert!(message.starts_with("Error reading Google Cloud JSON: "));
}

#[test]
fn events_out_of_turn_change_nothing() {
    let exchange = simulation().advance(Event::Json(Value::Null));
    assert!(matches!(exchange.phase, Phase::Send));
    let exchange = exchange.advance(Event::Answered(200)).advance(Event::Answered(500));
    assert!(matches!(exchange.phase, Phase::ReadJson));
    let exchange = exchange.advance(Event::Json(Value::Bool(true))).advance(Event::Json(Value::Null));
    assert!(matches!(exchange.phase, Phase::Done(Ok(Value::Bool(true)))));
}

#[test]
fn a_total_must_be_a_number_of_bytes() {
    assert_eq!(total("18446744073709551615"), Ok(u64::MAX));
    for text in ["18446744073709551616", "", "12a", "-1", "1.0", " 1"] {
        assert_eq!(
            total(text),
            Err("The totalBytesProcessed field is not a valid number".to_string()),
        );
    }
    assert_eq!(
        simulated_bytes(Ok(BqDryRunResponse { total_bytes_processed: None })),
        Err("Google Cloud did not return the totalBytesProcessed field".to_string()),
    );
    assert_eq!(
        simulated_bytes(Err("invalid type".to_string())),
        Err("Error reading Google Cloud JSON: invalid type".to_string()),
    );
}

#[test]
fn a_dry_run_and_its_query_go_to_the_same_endpoint() {
    let payload = json(r#"{"query":"SELECT 1"}"#);
    let simulation = client().simulate_query("p", "t", payload.clone());
    let execution = client().execute_query("p", "t", &payload);
    assert_eq!(simulation.request.url, execution.request.url);
    assert_eq!(simulation.request.authorization, execution.request.authorization);
    assert_eq!(simulation.request.payload, request_dry_run(execution.request.payload));
}
