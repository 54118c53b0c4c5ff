//! What holds of every query that the proxy handles.

use crate::amount::Amount;
use crate::auth::BearerToken;
use crate::cents::format_two_decimals;
use crate::config::AppConfig;
use crate::google_client::{simulated_bytes, BqClient, BqDryRunResponse, Event, Exchange, Phase};
use crate::json::Json;
use crate::pricing::{calculate_cost, exceeds_budget};
use crate::server::{
    answered, blocked, proxy_query, simulation_failed, AppState, Body, Query, QueryEvent, Response,
    Review, Step, BAD_REQUEST, FORBIDDEN, INTERNAL_SERVER_ERROR, OK,
};
use vstd::prelude::*;

verus! {

/// A query that exceeds the limit is blocked when limits are enforced: its dry
/// run is answered with the status of a forbidden request, and with what the
/// query costs and what the limit is.
pub proof fn law_an_expensive_query_is_blocked(
    state: AppState,
    query: Query,
    decoded: Result<BqDryRunResponse, String>,
    cost: Amount,
    next: Query,
)
    requires
        query.step is Decode,
        query.is_next(state, QueryEvent::Decoded(decoded), next),
        state.config.enforce_mode,
        crate::google_client::simulation(decoded) matches Ok(bytes) && crate::pricing::is_cost(
            bytes,
            state.config.price_per_tib,
            cost,
        ),
        crate::pricing::exceeds(cost, state.config.max_cost_per_query),
    ensures
        next.step matches Step::Respond(response) && crate::server::is_text(
            response,
            FORBIDDEN,
            crate::server::blocked_message(cost, state.config.max_cost_per_query),
        ),
{
    assert(next.review->0.cost == cost);
}

/// A query that does not exceed the limit, or any query when limits are not
/// enforced, is made, exactly as the client sent it.
pub proof fn law_an_allowed_query_is_made(
    state: AppState,
    query: Query,
    decoded: Result<BqDryRunResponse, String>,
    cost: Amount,
    next: Query,
)
    requires
        query.step is Decode,
        query.is_next(state, QueryEvent::Decoded(decoded), next),
        crate::google_client::simulation(decoded) matches Ok(bytes) && crate::pricing::is_cost(
            bytes,
            state.config.price_per_tib,
            cost,
        ),
        !state.config.enforce_mode || !crate::pricing::exceeds(
            cost,
            state.config.max_cost_per_query,
        ),
    ensures
        next.step matches Step::Execute(exchange) && query.is_its_execution(state, exchange)
            && crate::json::document(exchange.request.payload) == crate::json::document(
            query.payload,
        ),
{
    lemma_costs_compare_alike(
        crate::google_client::simulation(decoded)->Ok_0,
        state.config.price_per_tib,
        cost,
        next.review->0.cost,
        state.config.max_cost_per_query,
    );
}

/// A cost is one number, or is not one.
proof fn lemma_costs_compare_alike(
    bytes: int,
    price: Amount,
    one: Amount,
    other: Amount,
    limit: Amount,
)
    requires
        crate::pricing::is_cost(bytes, price, one),
        crate::pricing::is_cost(bytes, price, other),
    ensures
        one == other || (one.is_nan() && other.is_nan()),
        crate::pricing::exceeds(one, limit) == crate::pricing::exceeds(other, limit),
{
}

/// When limits are not enforced no query is blocked.
pub proof fn law_nothing_is_blocked_unless_enforced(state: AppState, query: Query)
    requires
        query.wf(state),
        !state.config.enforce_mode,
    ensures
        query.step matches Step::Respond(response) ==> response.status != FORBIDDEN,
{
}

/// A query that is being made was reviewed and not found too expensive to make.
pub proof fn law_no_query_is_made_that_is_too_expensive(state: AppState, query: Query)
    requires
        query.wf(state),
        query.step is Execute,
    ensures
        query.review matches Some(review) && !(state.config.enforce_mode
            && crate::pricing::exceeds(review.cost, state.config.max_cost_per_query)),
{
}

/// A query whose dry run fails is answered with the status of a bad request and
/// the reason, and is not made.
pub proof fn law_a_failed_dry_run_is_a_bad_request(
    state: AppState,
    query: Query,
    event: QueryEvent,
    reason: Seq<char>,
    next: Query,
)
    requires
        query.is_next(state, event, next),
        match (query.step, event) {
            (Step::Simulate(exchange), QueryEvent::Exchange(event)) => {
                crate::google_client::outcome(exchange.context@, exchange.phase, event)
                    == crate::google_client::Outcome::Failed(reason)
            },
            (Step::Decode(_), QueryEvent::Decoded(decoded)) => {
                crate::google_client::simulation(decoded) == Err::<int, Seq<char>>(reason)
            },
            _ => false,
        },
    ensures
        next.step matches Step::Respond(response) && crate::server::is_text(
            response,
            BAD_REQUEST,
            crate::server::simulation_failure(reason),
        ),
{
}

/// Whatever happens, what the client sent is kept, and a query that has its
/// response stays as it is.
pub proof fn law_a_query_is_kept(state: AppState, query: Query, event: QueryEvent, next: Query)
    requires
        query.is_next(state, event, next),
    ensures
        next.payload == query.payload,
        next.project_id == query.project_id,
        next.token == query.token,
        query.step is Respond ==> next == query,
{
}

/// A dry run asks for a dry run, whether or not the client did.
pub proof fn law_a_simulation_is_a_dry_run(state: AppState, query: Query)
    requires
        query.wf(state),
        query.step is Simulate,
        crate::json::document(query.payload) is Object,
    ensures
        query.step matches Step::Simulate(exchange) && (crate::json::document(
            exchange.request.payload,
        ) matches Json::Object(members) && members.contains_key("dryRun"@)
            && members["dryRun"@] == Json::Bool(true)),
{
}

/// Every response has one of four statuses: the query was made, its dry run
/// failed, it was blocked, or making it failed.
pub proof fn law_statuses(state: AppState, query: Query)
    requires
        query.wf(state),
    ensures
        query.step matches Step::Respond(response) ==> (response.status == OK || response.status
            == BAD_REQUEST || response.status == FORBIDDEN || response.status
            == INTERNAL_SERVER_ERROR),
{
}

/// Every event that a query waits for brings it nearer to its response, and
/// after five of them at most it has one. No other event changes it.
pub proof fn law_a_query_is_answered(state: AppState, query: Query, event: QueryEvent, next: Query)
    requires
        query.wf(state),
        query.is_next(state, event, next),
    ensures
        0 <= query.left() <= 5,
        query.left() == 0 <==> query.step is Respond,
        query.awaits(event) ==> next.left() < query.left(),
        !query.awaits(event) ==> next == query,
{
}

/// Where a query is blocked, every query that scans more is blocked, at a price
/// that is not negative.
pub proof fn law_a_larger_query_is_blocked_too(
    config: AppConfig,
    fewer: u64,
    more: u64,
    small: Review,
    large: Review,
)
    requires
        fewer <= more,
        !config.price_per_tib.is_negative(),
        crate::server::is_review(config, fewer as int, small),
        crate::server::is_review(config, more as int, large),
        small.too_expensive,
    ensures
        large.too_expensive,
{
    crate::pricing_laws::law_cost_grows_with_bytes(
        fewer,
        more,
        config.price_per_tib,
        small.cost,
        large.cost,
    );
    if config.price_per_tib.is_finite() {
        crate::pricing_laws::law_finite_price_means_a_cost(
            more,
            config.price_per_tib,
            large.cost,
        );
    }
}

/// A query that costs exactly the limit is not too expensive.
pub proof fn law_the_limit_is_not_too_expensive(config: AppConfig, bytes: u64, review: Review)
    requires
        crate::server::is_review(config, bytes as int, review),
        review.cost == config.max_cost_per_query,
    ensures
        !review.too_expensive,
{
}

/// What BigQuery answers to a query is handed to the client, exactly and with
/// status 200, whatever the review and the configuration are.
pub proof fn law_a_result_is_handed_back(
    state: AppState,
    query: Query,
    exchange: Exchange,
    value: serde_json::Value,
    next: Query,
)
    requires
        query.step == Step::Execute(exchange),
        exchange.phase is ReadJson,
        call_ensures(
            Query::advance,
            (query, &state, QueryEvent::Exchange(Event::Json(value))),
            next,
        ),
    ensures
        next.step matches Step::Respond(response) && response.status == 200 && response.body
            == Body::Json(value),
        next.review == query.review,
{
}

/// A query that is being made goes on as its exchange does: it is answered with
/// what the exchange comes to and status 200, or with the reason why it came to
/// nothing and status 500, whatever the review and the configuration are.
pub proof fn law_a_query_goes_on_as_its_exchange(
    state: AppState,
    query: Query,
    exchange: Exchange,
    event: Event,
    after: Exchange,
    next: Query,
)
    requires
        query.step == Step::Execute(exchange),
        call_ensures(Exchange::advance, (exchange, event), after),
        call_ensures(Query::advance, (query, &state, QueryEvent::Exchange(event)), next),
    ensures
        match after.phase {
            Phase::Done(Ok(value)) => {
                &&& next.step matches Step::Respond(response)
                &&& response.status == 200
                &&& response.body == Body::Json(value)
            },
            Phase::Done(Err(reason)) => {
                &&& next.step matches Step::Respond(response)
                &&& response.status == 500
                &&& response.body matches Body::Text(text)
                &&& text@ == reason@
            },
            _ => next.step == Step::Execute(after),
        },
        next.review == query.review,
{
}

/// A query that could not be made is answered with status 500 and the reason.
pub proof fn law_a_query_that_fails_says_why(
    state: AppState,
    query: Query,
    exchange: Exchange,
    event: Event,
    next: Query,
)
    requires
        query.step == Step::Execute(exchange),
        call_ensures(Query::advance, (query, &state, QueryEvent::Exchange(event)), next),
    ensures
        match (exchange.phase, event) {
            (Phase::Send, Event::NotAnswered(error)) => is_response(
                next.step,
                500,
                "Network error while connecting to Google Cloud: "@ + error@,
            ),
            (Phase::ReadText, Event::Text(Some(body))) => is_response(
                next.step,
                500,
                "Google Cloud rejected "@ + exchange.context@ + ": "@ + body@,
            ),
            (Phase::ReadText, Event::Text(None)) => is_response(
                next.step,
                500,
                "Google Cloud rejected "@ + exchange.context@ + ": "@
                    + "Unknown Google Cloud error"@,
            ),
            (Phase::ReadJson, Event::NotJson(error)) => is_response(
                next.step,
                500,
                "Error reading Google Cloud JSON: "@ + error@,
            ),
            _ => true,
        },
{
}

/// The step is to respond with this status and this text.
pub open spec fn is_response(step: Step, status: u16, text: Seq<char>) -> bool {
    &&& step matches Step::Respond(response)
    &&& response.status == status
    &&& response.body matches Body::Text(body)
    &&& body@ == text
}

/// A query that is being simulated goes on as its exchange does: what the
/// exchange comes to is decoded as it is, and where it comes to nothing the query
/// is answered with the reason and status 400.
pub proof fn law_a_dry_run_goes_on_as_its_exchange(
    state: AppState,
    query: Query,
    exchange: Exchange,
    event: Event,
    after: Exchange,
    next: Query,
)
    requires
        query.step == Step::Simulate(exchange),
        call_ensures(Exchange::advance, (exchange, event), after),
        call_ensures(Query::advance, (query, &state, QueryEvent::Exchange(event)), next),
    ensures
        match after.phase {
            Phase::Done(Ok(value)) => next.step == Step::Decode(value),
            Phase::Done(Err(reason)) => is_response(
                next.step,
                400,
                "Error simulating the query in BigQuery: "@ + reason@,
            ),
            _ => next.step == Step::Simulate(after),
        },
        next.review == query.review,
{
}

/// A review says what the bytes cost at the configured price, and whether that
/// is more than the configured limit.
pub proof fn law_a_review_is_of_the_cost(
    state: AppState,
    bytes: u64,
    review: Review,
    cost: Amount,
    too_expensive: bool,
)
    requires
        call_ensures(AppState::review, (&state, bytes), review),
        call_ensures(calculate_cost, (bytes, state.config.price_per_tib), cost),
        call_ensures(
            exceeds_budget,
            (cost, state.config.max_cost_per_query),
            too_expensive,
        ),
    ensures
        review.cost.bits == cost.bits || (review.cost.is_nan() && cost.is_nan()),
        review.too_expensive == too_expensive,
{
    lemma_costs_compare_alike(
        bytes as int,
        state.config.price_per_tib,
        review.cost,
        cost,
        state.config.max_cost_per_query,
    );
}

/// A dry run that says how many bytes a query processes decides what becomes of
/// the query. Where that costs more than the limit and limits are enforced, the
/// query is blocked, with status 403 and a text that names the cost and the
/// limit. In every other case it is made: what the client sent is posted to the
/// queries of its project, with its token.
pub proof fn law_the_cost_decides(
    state: AppState,
    query: Query,
    decoded: Result<BqDryRunResponse, String>,
    bytes: u64,
    cost: Amount,
    too_expensive: bool,
    cost_text: String,
    limit_text: String,
    project_id: &str,
    url: String,
    next: Query,
)
    requires
        query.step is Decode,
        call_ensures(Query::advance, (query, &state, QueryEvent::Decoded(decoded)), next),
        call_ensures(simulated_bytes, (decoded,), Ok(bytes)),
        call_ensures(calculate_cost, (bytes, state.config.price_per_tib), cost),
        call_ensures(
            exceeds_budget,
            (cost, state.config.max_cost_per_query),
            too_expensive,
        ),
        call_ensures(format_two_decimals, (cost,), cost_text),
        call_ensures(format_two_decimals, (state.config.max_cost_per_query,), limit_text),
        project_id@ == query.project_id@,
        call_ensures(BqClient::queries_url, (&state.google_client, project_id), url),
    ensures
        next.review matches Some(review) && review.too_expensive == too_expensive && (
        review.cost.bits == cost.bits || (review.cost.is_nan() && cost.is_nan())),
        too_expensive && state.config.enforce_mode ==> is_response(
            next.step,
            403,
            "Blocked by BigQuery Sentinel: The query costs $"@ + cost_text@
                + ", exceeding your limit of $"@ + limit_text@,
        ),
        !(too_expensive && state.config.enforce_mode) ==> {
            &&& next.step matches Step::Execute(exchange)
            &&& exchange.request.url@ == url@
            &&& exchange.request.authorization@ == "Bearer "@ + query.token@
            &&& crate::json::document(exchange.request.payload) == crate::json::document(
                query.payload,
            )
            &&& exchange.context@ == "the real query"@
            &&& exchange.phase == Phase::Send
        },
{
    lemma_costs_compare_alike(
        bytes as int,
        state.config.price_per_tib,
        next.review->0.cost,
        cost,
        state.config.max_cost_per_query,
    );
}

/// A dry run that does not say how many bytes a query processes is answered with
/// the reason and status 400, and the query is not made.
pub proof fn law_a_dry_run_without_a_count_says_why(
    state: AppState,
    query: Query,
    decoded: Result<BqDryRunResponse, String>,
    reason: String,
    next: Query,
)
    requires
        query.step is Decode,
        call_ensures(Query::advance, (query, &state, QueryEvent::Decoded(decoded)), next),
        call_ensures(simulated_bytes, (decoded,), Err(reason)),
    ensures
        is_response(next.step, 400, "Error simulating the query in BigQuery: "@ + reason@),
        next.review == query.review,
{
}

/// An event of another kind than the step waits for changes nothing, and after
/// the response nothing does.
pub proof fn law_a_query_goes_on_in_turn(
    state: AppState,
    query: Query,
    event: QueryEvent,
    next: Query,
)
    requires
        call_ensures(Query::advance, (query, &state, event), next),
    ensures
        query.step is Respond ==> next == query,
        query.step is Decode && event is Exchange ==> next == query,
        (query.step is Simulate || query.step is Execute) && event is Decoded ==> next == query,
        next.project_id == query.project_id,
        next.token == query.token,
        next.payload == query.payload,
{
}

/// A query enters the proxy with nothing said of it yet. Its dry run is posted
/// to the queries of its project with its token, and says what the client sent
/// but for the member that asks for a dry run.
pub proof fn law_a_query_is_simulated_first(
    state: AppState,
    project_id: String,
    token: BearerToken,
    payload: serde_json::Value,
    project: &str,
    url: String,
    key: Seq<char>,
    query: Query,
)
    requires
        call_ensures(proxy_query, (&state, project_id, token, payload), query),
        project@ == project_id@,
        call_ensures(BqClient::queries_url, (&state.google_client, project), url),
    ensures
        query.project_id == project_id,
        query.token == token.0,
        query.payload == payload,
        query.review is None,
        query.step matches Step::Simulate(exchange) && {
            &&& exchange.request.url@ == url@
            &&& exchange.request.authorization@ == "Bearer "@ + token.0@
            &&& match crate::json::document(payload) {
                Json::Object(sent) => {
                    &&& crate::json::document(
                        exchange.request.payload,
                    ) matches Json::Object(marked)
                    &&& marked.contains_key(key) == (sent.contains_key(key) || key == "dryRun"@)
                    &&& key == "dryRun"@ ==> marked[key] == Json::Bool(true)
                    &&& key != "dryRun"@ && sent.contains_key(key) ==> marked[key] == sent[key]
                },
                sent => crate::json::document(exchange.request.payload) == sent,
            }
            &&& exchange.context@ == "the simulation"@
            &&& exchange.phase == Phase::Send
        },
{
}

/// The way of a query whose dry run says how many bytes it processes, from the
/// client and back. It is blocked where it costs more than the limit and limits
/// are enforced, and otherwise the client gets what BigQuery answers.
pub proof fn law_the_way_of_a_query(
    state: AppState,
    project_id: String,
    token: BearerToken,
    payload: serde_json::Value,
    reply: serde_json::Value,
    bytes: u64,
    total: String,
    cost: Amount,
    too_expensive: bool,
    result: serde_json::Value,
    steps: Seq<Query>,
)
    requires
        steps.len() == 6,
        call_ensures(proxy_query, (&state, project_id, token, payload), steps[0]),
        call_ensures(
            Query::advance,
            (steps[0], &state, QueryEvent::Exchange(Event::Answered(200))),
            steps[1],
        ),
        call_ensures(
            Query::advance,
            (steps[1], &state, QueryEvent::Exchange(Event::Json(reply))),
            steps[2],
        ),
        total@ == crate::text::decimal_text(bytes as int),
        call_ensures(
            Query::advance,
            (
                steps[2],
                &state,
                QueryEvent::Decoded(Ok(BqDryRunResponse { total_bytes_processed: Some(total) })),
            ),
            steps[3],
        ),
        call_ensures(
            Query::advance,
            (steps[3], &state, QueryEvent::Exchange(Event::Answered(200))),
            steps[4],
        ),
        call_ensures(
            Query::advance,
            (steps[4], &state, QueryEvent::Exchange(Event::Json(result))),
            steps[5],
        ),
        call_ensures(calculate_cost, (bytes, state.config.price_per_tib), cost),
        call_ensures(
            exceeds_budget,
            (cost, state.config.max_cost_per_query),
            too_expensive,
        ),
    ensures
        steps[2].step == Step::Decode(reply),
        steps[5].step matches Step::Respond(response) && if too_expensive
            && state.config.enforce_mode {
            response.status == 403
        } else {
            response.status == 200 && response.body == Body::Json(result)
        },
{
    crate::text::law_a_whole_number_reads_back(bytes as int);
    lemma_costs_compare_alike(
        bytes as int,
        state.config.price_per_tib,
        steps[3].review->0.cost,
        cost,
        state.config.max_cost_per_query,
    );
}

/// The responses: a failed dry run, a blocked query, a query that was made and
/// one that failed each have their status, and say all that there is to say.
pub proof fn law_responses(
    error: &str,
    failed: Response,
    cost: Amount,
    limit: Amount,
    cost_text: String,
    limit_text: String,
    refused: Response,
    value: serde_json::Value,
    made: Response,
    reason: String,
    not_made: Response,
)
    requires
        call_ensures(simulation_failed, (error,), failed),
        call_ensures(format_two_decimals, (cost,), cost_text),
        call_ensures(format_two_decimals, (limit,), limit_text),
        call_ensures(blocked, (cost, limit), refused),
        call_ensures(answered, (Ok(value),), made),
        call_ensures(answered, (Err(reason),), not_made),
    ensures
        is_response(
            Step::Respond(failed),
            400,
            "Error simulating the query in BigQuery: "@ + error@,
        ),
        is_response(
            Step::Respond(refused),
            403,
            "Blocked by BigQuery Sentinel: The query costs $"@ + cost_text@
                + ", exceeding your limit of $"@ + limit_text@,
        ),
        made.status == 200 && made.body == Body::Json(value),
        is_response(Step::Respond(not_made), 500, reason@),
{
}

} // verus!
