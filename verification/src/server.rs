//! The proxy: every query is simulated first, and made only if it may be.

use crate::amount::Amount;
use crate::auth::BearerToken;
use crate::cents::format_two_decimals;
use crate::config::AppConfig;
use crate::google_client::{
    simulated_bytes, BqClient, BqDryRunResponse, Event, Exchange, Outcome, Phase,
};
use crate::pricing::{calculate_cost, exceeds_budget};
use vstd::prelude::*;

verus! {

/// The status codes of the proxy's responses.
pub const OK: u16 = 200;

pub const BAD_REQUEST: u16 = 400;

pub const FORBIDDEN: u16 = 403;

pub const INTERNAL_SERVER_ERROR: u16 = 500;

/// What every request is served with.
pub struct AppState {
    pub config: AppConfig,
    pub google_client: BqClient,
}

/// The body of a response.
pub enum Body {
    Text(String),
    Json(serde_json::Value),
}

/// A response to the client.
pub struct Response {
    pub status: u16,
    pub body: Body,
}

/// What the dry run of a query came to.
#[derive(Clone, Copy, Debug, PartialEq, Eq, Structural)]
pub struct Review {
    pub cost: Amount,
    pub too_expensive: bool,
}

/// What is to be done next for a query.
pub enum Step {
    /// Go on with the dry run.
    Simulate(Exchange),
    /// Decode the reply to the dry run.
    Decode(serde_json::Value),
    /// Go on with the query itself.
    Execute(Exchange),
    /// Send the response. Nothing else is left to do.
    Respond(Response),
}

/// What came of the last thing that was done.
pub enum QueryEvent {
    /// The exchange went on.
    Exchange(Event),
    /// The reply to the dry run was decoded, or could not be.
    Decoded(Result<BqDryRunResponse, String>),
}

/// A query on its way through the proxy.
pub struct Query {
    pub project_id: String,
    pub token: String,
    /// What the client sent.
    pub payload: serde_json::Value,
    /// What the dry run came to, once it came to something.
    pub review: Option<Review>,
    pub step: Step,
}

/// The response is a text.
pub open spec fn is_text(response: Response, status: u16, text: Seq<char>) -> bool {
    response.status == status && (response.body matches Body::Text(body) && body@ == text)
}

/// The response to a query whose dry run failed.
pub open spec fn simulation_failure(error: Seq<char>) -> Seq<char> {
    "Error simulating the query in BigQuery: "@ + error
}

/// The response to a query that costs more than the limit.
pub open spec fn blocked_message(cost: Amount, limit: Amount) -> Seq<char> {
    "Blocked by BigQuery Sentinel: The query costs $"@ + crate::cents::two_decimals(cost)
        + ", exceeding your limit of $"@ + crate::cents::two_decimals(limit)
}

/// What a dry run comes to that says how many bytes the query would process.
pub open spec fn is_review(config: AppConfig, bytes: int, review: Review) -> bool {
    &&& crate::pricing::is_cost(bytes, config.price_per_tib, review.cost)
    &&& review.too_expensive == crate::pricing::exceeds(review.cost, config.max_cost_per_query)
}

/// The response to a query that was made.
pub open spec fn is_answer(
    executed: Result<serde_json::Value, String>,
    response: Response,
) -> bool {
    match executed {
        Ok(value) => response.status == OK && response.body == Body::Json(value),
        Err(error) => is_text(response, INTERNAL_SERVER_ERROR, error@),
    }
}

impl Query {
    /// The exchange is the dry run of this query.
    pub open spec fn is_its_simulation(self, state: AppState, exchange: Exchange) -> bool {
        crate::google_client::is_simulation(
            exchange,
            state.google_client.base_url@,
            self.project_id@,
            self.token@,
            crate::json::document(self.payload),
        )
    }

    /// The exchange makes this query, as the client sent it.
    pub open spec fn is_its_execution(self, state: AppState, exchange: Exchange) -> bool {
        crate::google_client::is_execution(
            exchange,
            state.google_client.base_url@,
            self.project_id@,
            self.token@,
            crate::json::document(self.payload),
        )
    }

    /// Where a query goes from its dry run: it is blocked when it is too
    /// expensive and limits are enforced, and made otherwise.
    pub open spec fn is_reviewed(self, state: AppState, bytes: int, next: Query) -> bool {
        &&& next.review matches Some(review)
        &&& is_review(state.config, bytes, review)
        &&& if review.too_expensive && state.config.enforce_mode {
            next.step matches Step::Respond(response) && is_text(
                response,
                FORBIDDEN,
                blocked_message(review.cost, state.config.max_cost_per_query),
            )
        } else {
            next.step matches Step::Execute(exchange) && self.is_its_execution(state, exchange)
                && exchange.phase is Send
        }
    }

    /// How a query goes on. An event that the step does not wait for changes
    /// nothing.
    pub open spec fn is_next(self, state: AppState, event: QueryEvent, next: Query) -> bool {
        &&& next.project_id == self.project_id
        &&& next.token == self.token
        &&& next.payload == self.payload
        &&& match (self.step, event) {
            (Step::Simulate(exchange), QueryEvent::Exchange(event)) => {
                &&& next.review == self.review
                &&& match crate::google_client::outcome(exchange.context@, exchange.phase, event) {
                    Outcome::Waits(phase) => next.step == Step::Simulate(
                        (Exchange { phase, ..exchange }),
                    ),
                    Outcome::Accepted(value) => next.step == Step::Decode(value),
                    Outcome::Failed(reason) => next.is_simulation_failure(reason),
                }
            },
            (Step::Decode(_), QueryEvent::Decoded(decoded)) => {
                match crate::google_client::simulation(decoded) {
                    Ok(bytes) => self.is_reviewed(state, bytes, next),
                    Err(reason) => {
                        &&& next.review == self.review
                        &&& next.is_simulation_failure(reason)
                    },
                }
            },
            (Step::Execute(exchange), QueryEvent::Exchange(event)) => {
                &&& next.review == self.review
                &&& match crate::google_client::outcome(exchange.context@, exchange.phase, event) {
                    Outcome::Waits(phase) => next.step == Step::Execute(
                        (Exchange { phase, ..exchange }),
                    ),
                    Outcome::Accepted(value) => {
                        &&& next.step matches Step::Respond(response)
                        &&& response.status == OK
                        &&& response.body == Body::Json(value)
                    },
                    Outcome::Failed(reason) => {
                        &&& next.step matches Step::Respond(response)
                        &&& is_text(response, INTERNAL_SERVER_ERROR, reason)
                    },
                }
            },
            _ => next == self,
        }
    }

    /// What holds of a query at every step. Its dry run is a dry run of what the
    /// client sent, and it is made as the client sent it. It is made only after
    /// a review, and only if the review does not block it. Without a review the
    /// response is that of a failed dry run; with one that blocks the query,
    /// that of a blocked one; else that of a query that was made.
    pub open spec fn wf(self, state: AppState) -> bool {
        &&& self.review matches Some(review) ==> review.too_expensive == crate::pricing::exceeds(
            review.cost,
            state.config.max_cost_per_query,
        )
        &&& match self.step {
            Step::Simulate(exchange) => {
                &&& self.review is None
                &&& self.is_its_simulation(state, exchange)
                &&& !(exchange.phase is Done)
            },
            Step::Decode(_) => self.review is None,
            Step::Execute(exchange) => {
                &&& self.review is Some
                &&& !self.is_blocked(state)
                &&& self.is_its_execution(state, exchange)
                &&& !(exchange.phase is Done)
            },
            Step::Respond(response) => match self.review {
                None => response.status == BAD_REQUEST,
                Some(review) => if self.is_blocked(state) {
                    is_text(
                        response,
                        FORBIDDEN,
                        blocked_message(review.cost, state.config.max_cost_per_query),
                    )
                } else {
                    response.status == OK || response.status == INTERNAL_SERVER_ERROR
                },
            },
        }
    }

    /// The review says that the query is too expensive, and limits are enforced.
    pub open spec fn is_blocked(self, state: AppState) -> bool {
        self.review matches Some(review) && review.too_expensive && state.config.enforce_mode
    }

    /// At most how many events are left until the response.
    pub open spec fn left(self) -> int {
        match self.step {
            Step::Simulate(exchange) => if exchange.phase is Send {
                5
            } else {
                4
            },
            Step::Decode(_) => 3,
            Step::Execute(exchange) => if exchange.phase is Send {
                2
            } else {
                1
            },
            Step::Respond(_) => 0,
        }
    }

    /// The query waits for this event.
    pub open spec fn awaits(self, event: QueryEvent) -> bool {
        match (self.step, event) {
            (Step::Simulate(exchange), QueryEvent::Exchange(event)) => exchange.phase.awaits(event),
            (Step::Decode(_), QueryEvent::Decoded(_)) => true,
            (Step::Execute(exchange), QueryEvent::Exchange(event)) => exchange.phase.awaits(event),
            _ => false,
        }
    }

    /// The query is answered with the failure of its dry run.
    pub open spec fn is_simulation_failure(self, reason: Seq<char>) -> bool {
        &&& self.step matches Step::Respond(response)
        &&& is_text(response, BAD_REQUEST, simulation_failure(reason))
    }
}

impl AppState {
    /// What a dry run comes to that says how many bytes the query would
    /// process.
    pub fn review(&self, bytes: u64) -> (review: Review)
        ensures
            is_review(self.config, bytes as int, review),
    {
        let cost = calculate_cost(bytes, self.config.price_per_tib);
        let too_expensive = exceeds_budget(cost, self.config.max_cost_per_query);
        Review { cost, too_expensive }
    }
}

/// The response to a query whose dry run failed.
pub fn simulation_failed(error: &str) -> (response: Response)
    ensures
        is_text(response, BAD_REQUEST, simulation_failure(error@)),
{
    let message = "Error simulating the query in BigQuery: ".to_string().concat(error);
    Response { status: BAD_REQUEST, body: Body::Text(message) }
}

/// The response to a query that costs more than the limit.
pub fn blocked(cost: Amount, limit: Amount) -> (response: Response)
    ensures
        is_text(response, FORBIDDEN, blocked_message(cost, limit)),
{
    let message = "Blocked by BigQuery Sentinel: The query costs $".to_string();
    let message = message.concat(format_two_decimals(cost).as_str());
    let message = message.concat(", exceeding your limit of $");
    let message = message.concat(format_two_decimals(limit).as_str());
    Response { status: FORBIDDEN, body: Body::Text(message) }
}

/// The response to a query that was made.
pub fn answered(executed: Result<serde_json::Value, String>) -> (response: Response)
    ensures
        is_answer(executed, response),
{
    match executed {
        Ok(value) => Response { status: OK, body: Body::Json(value) },
        Err(error) => Response { status: INTERNAL_SERVER_ERROR, body: Body::Text(error) },
    }
}

/// A query enters the proxy: its dry run is to be made, with a copy of what the
/// client sent.
pub fn proxy_query(
    state: &AppState,
    project_id: String,
    token: BearerToken,
    payload: serde_json::Value,
) -> (query: Query)
    ensures
        query.project_id == project_id,
        query.token == token.0,
        query.payload == payload,
        query.review is None,
        query.step matches Step::Simulate(exchange) && query.is_its_simulation(*state, exchange)
            && exchange.phase is Send,
        query.wf(*state),
        query.left() == 5,
{
    let exchange = state.google_client.simulate_query(
        project_id.as_str(),
        token.0.as_str(),
        payload.clone(),
    );
    Query { project_id, token: token.0, payload, review: None, step: Step::Simulate(exchange) }
}

impl Query {
    /// How the query goes on after `event`.
    pub fn advance(self, state: &AppState, event: QueryEvent) -> (next: Query)
        ensures
            self.is_next(*state, event, next),
            self.wf(*state) ==> next.wf(*state),
    {
        let Query { project_id, token, payload, review, step } = self;
        match (step, event) {
            (Step::Simulate(exchange), QueryEvent::Exchange(event)) => {
                let exchange = exchange.advance(event);
                let step = match exchange.phase {
                    Phase::Done(Err(error)) => Step::Respond(simulation_failed(error.as_str())),
                    Phase::Done(Ok(value)) => Step::Decode(value),
                    _ => Step::Simulate(exchange),
                };
                Query { project_id, token, payload, review, step }
            },
            (Step::Decode(_), QueryEvent::Decoded(decoded)) => match simulated_bytes(decoded) {
                Err(error) => {
                    let step = Step::Respond(simulation_failed(error.as_str()));
                    Query { project_id, token, payload, review, step }
                },
                Ok(bytes) => {
                    let reviewed = state.review(bytes);
                    let step = if reviewed.too_expensive && state.config.enforce_mode {
                        Step::Respond(blocked(reviewed.cost, state.config.max_cost_per_query))
                    } else {
                        Step::Execute(
                            state.google_client.execute_query(
                                project_id.as_str(),
                                token.as_str(),
                                &payload,
                            ),
                        )
                    };
                    Query { project_id, token, payload, review: Some(reviewed), step }
                },
            },
            (Step::Execute(exchange), QueryEvent::Exchange(event)) => {
                let exchange = exchange.advance(event);
                let step = match exchange.phase {
                    Phase::Done(executed) => Step::Respond(answered(executed)),
                    _ => Step::Execute(exchange),
                };
                Query { project_id, token, payload, review, step }
            },
            (step, _) => Query { project_id, token, payload, review, step },
        }
    }
}

} // verus!
