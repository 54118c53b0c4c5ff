//! Talking to BigQuery: the requests to send, and what the replies mean.

use crate::json::request_dry_run;
use crate::text::parse_whole;
use vstd::prelude::*;

verus! {

/// Where BigQuery is.
pub const DEFAULT_BIGQUERY_BASE_URL: &'static str = "https://bigquery.googleapis.com";

/// What of the reply to a dry run is read.
#[derive(Debug)]
pub struct BqDryRunResponse {
    pub total_bytes_processed: Option<String>,
}

/// A client of BigQuery.
#[derive(Clone)]
pub struct BqClient {
    pub base_url: String,
}

/// A POST request, with a JSON document as its body.
pub struct QueryRequest {
    pub url: String,
    /// The header `Authorization`.
    pub authorization: String,
    pub payload: serde_json::Value,
}

/// How far an exchange is: what is to be done next, or how it came out.
pub enum Phase {
    /// The request is to be sent.
    Send,
    /// The body of the reply is to be read as text.
    ReadText,
    /// The body of the reply is to be read as JSON.
    ReadJson,
    Done(Result<serde_json::Value, String>),
}

impl Phase {
    /// The phase waits for this event.
    pub open spec fn awaits(self, event: Event) -> bool {
        match self {
            Phase::Send => event is Answered || event is NotAnswered,
            Phase::ReadText => event is Text,
            Phase::ReadJson => event is Json || event is NotJson,
            Phase::Done(_) => false,
        }
    }
}

/// What came of the last thing that was done.
pub enum Event {
    /// The request was sent and answered, with this status code.
    Answered(u16),
    /// The request could not be sent, or was not answered.
    NotAnswered(String),
    /// The body of the reply, if it could be read.
    Text(Option<String>),
    /// The body of the reply.
    Json(serde_json::Value),
    /// The body of the reply could not be read as JSON.
    NotJson(String),
}

/// A request and its reply.
pub struct Exchange {
    pub request: QueryRequest,
    /// What the request is for, in words.
    pub context: String,
    pub phase: Phase,
}

/// The URL that queries of a project are posted to.
pub open spec fn url_of(base_url: Seq<char>, project_id: Seq<char>) -> Seq<char> {
    base_url + "/bigquery/v2/projects/"@ + project_id + "/queries"@
}

/// The body of a refusal, as far as it could be read.
pub open spec fn body_or_unknown(body: Option<String>) -> Seq<char> {
    match body {
        Some(text) => text@,
        None => "Unknown Google Cloud error"@,
    }
}

/// What an exchange comes to.
pub enum Outcome {
    /// There is more to be done.
    Waits(Phase),
    /// The reply was accepted, and holds this.
    Accepted(serde_json::Value),
    /// The exchange came to nothing, for this reason.
    Failed(Seq<char>),
}

/// How an exchange goes on. A reply is accepted when its status is 200 and its
/// body is JSON. An event that the phase does not wait for changes nothing.
pub open spec fn outcome(context: Seq<char>, phase: Phase, event: Event) -> Outcome {
    match (phase, event) {
        (Phase::Done(Ok(value)), _) => Outcome::Accepted(value),
        (Phase::Done(Err(reason)), _) => Outcome::Failed(reason@),
        (Phase::Send, Event::Answered(status)) => if status == 200 {
            Outcome::Waits(Phase::ReadJson)
        } else {
            Outcome::Waits(Phase::ReadText)
        },
        (Phase::Send, Event::NotAnswered(error)) => Outcome::Failed(
            "Network error while connecting to Google Cloud: "@ + error@,
        ),
        (Phase::ReadText, Event::Text(body)) => Outcome::Failed(
            "Google Cloud rejected "@ + context + ": "@ + body_or_unknown(body),
        ),
        (Phase::ReadJson, Event::Json(value)) => Outcome::Accepted(value),
        (Phase::ReadJson, Event::NotJson(error)) => Outcome::Failed(
            "Error reading Google Cloud JSON: "@ + error@,
        ),
        _ => Outcome::Waits(phase),
    }
}

/// The phase that an exchange with this outcome is in.
pub open spec fn is_phase_of(outcome: Outcome, phase: Phase) -> bool {
    match outcome {
        Outcome::Waits(waiting) => phase == waiting,
        Outcome::Accepted(value) => phase == Phase::Done(Ok(value)),
        Outcome::Failed(reason) => phase matches Phase::Done(Err(message)) && message@ == reason,
    }
}

/// The request that posts `payload` to the queries of a project.
pub open spec fn is_request(
    request: QueryRequest,
    base_url: Seq<char>,
    project_id: Seq<char>,
    token: Seq<char>,
    payload: crate::json::Json,
) -> bool {
    &&& request.url@ == url_of(base_url, project_id)
    &&& request.authorization@ == "Bearer "@ + token
    &&& crate::json::document(request.payload) == payload
}

/// The exchange is that of a dry run of `payload`.
pub open spec fn is_simulation(
    exchange: Exchange,
    base_url: Seq<char>,
    project_id: Seq<char>,
    token: Seq<char>,
    payload: crate::json::Json,
) -> bool {
    &&& is_request(
        exchange.request,
        base_url,
        project_id,
        token,
        crate::json::with_dry_run(payload),
    )
    &&& exchange.context@ == "the simulation"@
}

/// The exchange is that of the query itself, with `payload` as it is.
pub open spec fn is_execution(
    exchange: Exchange,
    base_url: Seq<char>,
    project_id: Seq<char>,
    token: Seq<char>,
    payload: crate::json::Json,
) -> bool {
    &&& is_request(exchange.request, base_url, project_id, token, payload)
    &&& exchange.context@ == "the real query"@
}

/// The bytes that a dry run says a query would process, or why there is no
/// such number. The reply was decoded, or could not be.
pub open spec fn simulation(decoded: Result<BqDryRunResponse, String>) -> Result<int, Seq<char>> {
    match decoded {
        Err(error) => Err("Error reading Google Cloud JSON: "@ + error@),
        Ok(response) => match response.total_bytes_processed {
            None => Err("Google Cloud did not return the totalBytesProcessed field"@),
            Some(text) => match crate::text::whole_number(text@) {
                Some(bytes) if bytes <= u64::MAX => Ok(bytes),
                _ => Err("The totalBytesProcessed field is not a valid number"@),
            },
        },
    }
}

impl BqClient {
    /// A client of BigQuery itself.
    pub fn new() -> (client: BqClient)
        ensures
            client.base_url@ == DEFAULT_BIGQUERY_BASE_URL@,
    {
        BqClient { base_url: DEFAULT_BIGQUERY_BASE_URL.to_string() }
    }

    /// A client pointed at a custom base URL instead of the real BigQuery API.
    pub fn with_base_url(base_url: String) -> (client: BqClient)
        ensures
            client.base_url == base_url,
    {
        BqClient { base_url }
    }

    /// The URL that queries of a project are posted to.
    pub fn queries_url(&self, project_id: &str) -> (url: String)
        ensures
            url@ == url_of(self.base_url@, project_id@),
    {
        self.base_url.clone().concat("/bigquery/v2/projects/").concat(project_id).concat("/queries")
    }

    /// The exchange that both the dry run and the real query make: both go to
    /// the same endpoint and differ in the payload and in what they are for.
    pub fn post_query(
        &self,
        project_id: &str,
        token: &str,
        payload: serde_json::Value,
        context: &str,
    ) -> (exchange: Exchange)
        ensures
            is_request(
                exchange.request,
                self.base_url@,
                project_id@,
                token@,
                crate::json::document(payload),
            ),
            exchange.context@ == context@,
            exchange.phase is Send,
    {
        Exchange {
            request: QueryRequest {
                url: self.queries_url(project_id),
                authorization: "Bearer ".to_string().concat(token),
                payload,
            },
            context: context.to_string(),
            phase: Phase::Send,
        }
    }

    /// The exchange that asks what a query would process: a dry run, whether or
    /// not the caller asked for one.
    pub fn simulate_query(
        &self,
        project_id: &str,
        token: &str,
        payload: serde_json::Value,
    ) -> (exchange: Exchange)
        ensures
            is_simulation(
                exchange,
                self.base_url@,
                project_id@,
                token@,
                crate::json::document(payload),
            ),
            exchange.phase is Send,
    {
        self.post_query(project_id, token, request_dry_run(payload), "the simulation")
    }

    /// The exchange that makes the query, with the original payload.
    pub fn execute_query(
        &self,
        project_id: &str,
        token: &str,
        payload: &serde_json::Value,
    ) -> (exchange: Exchange)
        ensures
            is_execution(
                exchange,
                self.base_url@,
                project_id@,
                token@,
                crate::json::document(*payload),
            ),
            exchange.phase is Send,
    {
        self.post_query(project_id, token, payload.clone(), "the real query")
    }
}

impl Exchange {
    /// How the exchange goes on after `event`.
    pub fn advance(self, event: Event) -> (next: Exchange)
        ensures
            next.request == self.request,
            next.context == self.context,
            is_phase_of(outcome(self.context@, self.phase, event), next.phase),
            !self.phase.awaits(event) ==> next == self,
    {
        let phase = match (self.phase, event) {
            (Phase::Send, Event::Answered(status)) => if status == 200 {
                Phase::ReadJson
            } else {
                Phase::ReadText
            },
            (Phase::Send, Event::NotAnswered(error)) => {
                let message = "Network error while connecting to Google Cloud: ".to_string();
                Phase::Done(Err(message.concat(error.as_str())))
            },
            (Phase::ReadText, Event::Text(body)) => {
                let body = match body {
                    Some(text) => text,
                    None => "Unknown Google Cloud error".to_string(),
                };
                let message = "Google Cloud rejected ".to_string().concat(self.context.as_str());
                Phase::Done(Err(message.concat(": ").concat(body.as_str())))
            },
            (Phase::ReadJson, Event::Json(value)) => Phase::Done(Ok(value)),
            (Phase::ReadJson, Event::NotJson(error)) => {
                let message = "Error reading Google Cloud JSON: ".to_string();
                Phase::Done(Err(message.concat(error.as_str())))
            },
            (phase, _) => phase,
        };
        Exchange { request: self.request, context: self.context, phase }
    }
}

/// The bytes that a dry run says a query would process, or why there is no
/// such number.
pub fn simulated_bytes(decoded: Result<BqDryRunResponse, String>) -> (simulated: Result<
    u64,
    String,
>)
    ensures
        match simulation(decoded) {
            Ok(bytes) => simulated matches Ok(count) && count == bytes,
            Err(reason) => simulated matches Err(message) && message@ == reason,
        },
{
    let response = match decoded {
        Err(error) => {
            let message = "Error reading Google Cloud JSON: ".to_string();
            return Err(message.concat(error.as_str()));
        },
        Ok(response) => response,
    };
    let text = match response.total_bytes_processed {
        None => {
            return Err("Google Cloud did not return the totalBytesProcessed field".to_string());
        },
        Some(text) => text,
    };
    match parse_whole(text.as_str(), u64::MAX) {
        None => Err("The totalBytesProcessed field is not a valid number".to_string()),
        Some(bytes) => Ok(bytes),
    }
}

/// A reply is accepted only when its status is 200 and its body is JSON, and
/// then what was read is handed on unchanged.
pub proof fn law_only_json_with_status_200_is_accepted(
    context: Seq<char>,
    first: Event,
    between: Phase,
    second: Event,
    value: serde_json::Value,
)
    requires
        is_phase_of(outcome(context, Phase::Send, first), between),
        outcome(context, between, second) == Outcome::Accepted(value),
    ensures
        first == Event::Answered(200),
        second == Event::Json(value),
{
}

/// A finished exchange stays as it is.
pub proof fn law_a_finished_exchange_stays(
    context: Seq<char>,
    done: Phase,
    event: Event,
    after: Phase,
)
    requires
        done is Done,
        is_phase_of(outcome(context, done, event), after),
    ensures
        done matches Phase::Done(Ok(value)) ==> after == done,
        done matches Phase::Done(Err(reason)) ==> (after matches Phase::Done(Err(message))
            && message@ == reason@),
{
}

/// The dry run and the query itself go to the same endpoint with the same token.
pub proof fn law_both_requests_go_to_the_same_endpoint(
    simulation: Exchange,
    execution: Exchange,
    base_url: Seq<char>,
    project_id: Seq<char>,
    token: Seq<char>,
    payload: crate::json::Json,
)
    requires
        is_simulation(simulation, base_url, project_id, token, payload),
        is_execution(execution, base_url, project_id, token, payload),
    ensures
        simulation.request.url@ == execution.request.url@,
        simulation.request.authorization@ == execution.request.authorization@,
        crate::json::document(simulation.request.payload) == crate::json::with_dry_run(
            crate::json::document(execution.request.payload),
        ),
{
}

} // verus!
