//! What holds of every exchange with BigQuery.

use crate::auth::BearerToken;
use crate::google_client::{simulated_bytes, BqClient, BqDryRunResponse, Event, Exchange, Phase};
use crate::json::Json;
use vstd::prelude::*;

verus! {

/// The URL of a project's queries starts with where BigQuery is, ends in
/// `/queries`, and names the whole project in between.
pub proof fn law_a_url_names_the_project(client: BqClient, project_id: &str, url: String)
    requires
        call_ensures(BqClient::queries_url, (&client, project_id), url),
    ensures
        url@.len() == client.base_url@.len() + 22 + project_id@.len() + 8,
        url@.take(client.base_url@.len() as int) == client.base_url@,
        url@.subrange(client.base_url@.len() as int, client.base_url@.len() as int + 22)
            == "/bigquery/v2/projects/"@,
        url@.subrange(client.base_url@.len() as int + 22, url@.len() - 8) == project_id@,
        url@.skip(url@.len() - 8) == "/queries"@,
{
    reveal_strlit("/bigquery/v2/projects/");
    reveal_strlit("/queries");
    let base = client.base_url@.len() as int;
    assert(url@.take(base) =~= client.base_url@);
    assert(url@.subrange(base, base + 22) =~= "/bigquery/v2/projects/"@);
    assert(url@.subrange(base + 22, url@.len() - 8) =~= project_id@);
    assert(url@.skip(url@.len() - 8) =~= "/queries"@);
}

/// No two projects share a URL.
pub proof fn law_every_project_has_its_own_url(
    client: BqClient,
    one: &str,
    other: &str,
    one_url: String,
    other_url: String,
)
    requires
        call_ensures(BqClient::queries_url, (&client, one), one_url),
        call_ensures(BqClient::queries_url, (&client, other), other_url),
    ensures
        one_url@ == other_url@ <==> one@ == other@,
{
    law_a_url_names_the_project(client, one, one_url);
    law_a_url_names_the_project(client, other, other_url);
}

/// A request goes to the URL of the project's queries, with the token and the
/// payload that it was made for, and is yet to be sent.
pub proof fn law_a_request_is_what_it_was_made_for(
    client: BqClient,
    project_id: &str,
    token: &str,
    payload: serde_json::Value,
    context: &str,
    url: String,
    exchange: Exchange,
)
    requires
        call_ensures(BqClient::queries_url, (&client, project_id), url),
        call_ensures(
            BqClient::post_query,
            (&client, project_id, token, payload, context),
            exchange,
        ),
    ensures
        exchange.request.url@ == url@,
        exchange.request.authorization@.len() == 7 + token@.len(),
        exchange.request.authorization@.take(7) == "Bearer "@,
        exchange.request.authorization@.skip(7) == token@,
        crate::json::document(exchange.request.payload) == crate::json::document(payload),
        exchange.context@ == context@,
        exchange.phase == Phase::Send,
{
    reveal_strlit("Bearer ");
    assert(exchange.request.authorization@.take(7) =~= "Bearer "@);
    assert(exchange.request.authorization@.skip(7) =~= token@);
}

/// A query is made with the payload as it is, with the token that it came with,
/// at the URL of its project.
pub proof fn law_a_query_is_made_as_it_is(
    client: BqClient,
    project_id: &str,
    token: &str,
    payload: serde_json::Value,
    url: String,
    exchange: Exchange,
)
    requires
        call_ensures(BqClient::queries_url, (&client, project_id), url),
        call_ensures(BqClient::execute_query, (&client, project_id, token, &payload), exchange),
    ensures
        exchange.request.url@ == url@,
        exchange.request.authorization@.take(7) == "Bearer "@,
        exchange.request.authorization@.skip(7) == token@,
        crate::json::document(exchange.request.payload) == crate::json::document(payload),
        exchange.context@ == "the real query"@,
        exchange.phase == Phase::Send,
{
    reveal_strlit("Bearer ");
    assert(exchange.request.authorization@.take(7) =~= "Bearer "@);
    assert(exchange.request.authorization@.skip(7) =~= token@);
}

/// The dry run of a query goes where the query goes, with the same token. Its
/// payload says `dryRun`, and otherwise what the query says.
pub proof fn law_a_dry_run_differs_in_its_mark_alone(
    client: BqClient,
    project_id: &str,
    token: &str,
    payload: serde_json::Value,
    simulation: Exchange,
    execution: Exchange,
    key: Seq<char>,
)
    requires
        call_ensures(BqClient::simulate_query, (&client, project_id, token, payload), simulation),
        call_ensures(BqClient::execute_query, (&client, project_id, token, &payload), execution),
    ensures
        simulation.request.url@ == execution.request.url@,
        simulation.request.authorization@ == execution.request.authorization@,
        match crate::json::document(execution.request.payload) {
            Json::Object(query) => {
                &&& crate::json::document(simulation.request.payload) matches Json::Object(marked)
                &&& marked.contains_key(key) == (query.contains_key(key) || key == "dryRun"@)
                &&& key == "dryRun"@ ==> marked[key] == Json::Bool(true)
                &&& key != "dryRun"@ && query.contains_key(key) ==> marked[key] == query[key]
            },
            query => crate::json::document(simulation.request.payload) == query,
        },
        simulation.context@ == "the simulation"@,
        simulation.phase == Phase::Send,
{
}

/// The token that a request carries is the one that is read from its header.
pub proof fn law_a_token_is_passed_on(
    client: BqClient,
    project_id: &str,
    token: &str,
    payload: serde_json::Value,
    context: &str,
    exchange: Exchange,
    header: &str,
    read: Result<BearerToken, u16>,
)
    requires
        call_ensures(
            BqClient::post_query,
            (&client, project_id, token, payload, context),
            exchange,
        ),
        header@ == exchange.request.authorization@,
        call_ensures(BearerToken::from_header, (Some(header),), read),
    ensures
        read matches Ok(given) && given.0@ == token@,
{
    crate::auth::law_a_token_is_what_follows_the_scheme(header, token@, read);
}

/// Whatever comes of a request, it stays the request that it was.
pub proof fn law_a_request_is_kept(exchange: Exchange, event: Event, next: Exchange)
    requires
        call_ensures(Exchange::advance, (exchange, event), next),
    ensures
        next.request == exchange.request,
        next.context == exchange.context,
{
}

/// A reply with status 200 is read as JSON, and one with any other as text.
pub proof fn law_the_status_decides_how_a_reply_is_read(
    exchange: Exchange,
    status: u16,
    next: Exchange,
)
    requires
        exchange.phase is Send,
        call_ensures(Exchange::advance, (exchange, Event::Answered(status)), next),
    ensures
        status == 200 ==> next.phase == Phase::ReadJson,
        status != 200 ==> next.phase == Phase::ReadText,
{
}

/// What was read as JSON is what the exchange comes to, and nothing else is.
pub proof fn law_a_reply_is_handed_on(exchange: Exchange, event: Event, next: Exchange)
    requires
        !(exchange.phase is Done),
        call_ensures(Exchange::advance, (exchange, event), next),
    ensures
        next.phase matches Phase::Done(Ok(value)) ==> exchange.phase is ReadJson && event
            == Event::Json(value),
        (exchange.phase is ReadJson && event is Json) ==> (next.phase matches Phase::Done(Ok(value))
            && event == Event::Json(value)),
{
}

/// An exchange that comes to nothing says where it failed, what it was for where
/// it was refused, and why.
pub proof fn law_a_failure_says_why(exchange: Exchange, event: Event, next: Exchange)
    requires
        call_ensures(Exchange::advance, (exchange, event), next),
    ensures
        match (exchange.phase, event) {
            (Phase::Send, Event::NotAnswered(error)) => {
                &&& next.phase matches Phase::Done(Err(reason))
                &&& reason@ == "Network error while connecting to Google Cloud: "@ + error@
            },
            (Phase::ReadText, Event::Text(Some(body))) => {
                &&& next.phase matches Phase::Done(Err(reason))
                &&& reason@ == "Google Cloud rejected "@ + exchange.context@ + ": "@ + body@
            },
            (Phase::ReadText, Event::Text(None)) => {
                &&& next.phase matches Phase::Done(Err(reason))
                &&& reason@ == "Google Cloud rejected "@ + exchange.context@ + ": "@
                    + "Unknown Google Cloud error"@
            },
            (Phase::ReadJson, Event::NotJson(error)) => {
                &&& next.phase matches Phase::Done(Err(reason))
                &&& reason@ == "Error reading Google Cloud JSON: "@ + error@
            },
            (Phase::Done(_), _) => next == exchange,
            _ => !(next.phase matches Phase::Done(Err(_))),
        },
{
}

/// An event that an exchange does not wait for changes nothing.
pub proof fn law_nothing_out_of_turn(exchange: Exchange, event: Event, next: Exchange)
    requires
        call_ensures(Exchange::advance, (exchange, event), next),
        match exchange.phase {
            Phase::Send => !(event is Answered) && !(event is NotAnswered),
            Phase::ReadText => !(event is Text),
            Phase::ReadJson => !(event is Json) && !(event is NotJson),
            Phase::Done(_) => true,
        },
    ensures
        next == exchange,
{
}

/// A count of bytes that is written in base ten is read back as itself.
pub proof fn law_a_count_of_bytes_is_read_back(
    bytes: u64,
    total: String,
    simulated: Result<u64, String>,
)
    requires
        total@ == crate::text::decimal_text(bytes as int),
        call_ensures(
            simulated_bytes,
            (Ok(BqDryRunResponse { total_bytes_processed: Some(total) }),),
            simulated,
        ),
    ensures
        simulated == Ok::<u64, String>(bytes),
{
    crate::text::law_a_whole_number_reads_back(bytes as int);
}

/// A row of digits, with or without a plus sign, is the count of bytes that it
/// stands for, or none where no machine word holds it.
pub proof fn law_a_row_of_digits_is_a_count_of_bytes(
    plus: bool,
    digits: Seq<char>,
    total: String,
    simulated: Result<u64, String>,
)
    requires
        digits.len() > 0,
        crate::text::all_digits(digits),
        total@ == (if plus {
            seq!['+']
        } else {
            Seq::empty()
        }) + digits,
        call_ensures(
            simulated_bytes,
            (Ok(BqDryRunResponse { total_bytes_processed: Some(total) }),),
            simulated,
        ),
    ensures
        crate::text::digits_value(digits) <= 0xffff_ffff_ffff_ffff ==> (simulated matches Ok(bytes)
            && bytes == crate::text::digits_value(digits)),
        crate::text::digits_value(digits) > 0xffff_ffff_ffff_ffff ==> (simulated matches Err(reason)
            && reason@ == "The totalBytesProcessed field is not a valid number"@),
{
    assert(crate::text::is_digit(digits[0]));
    if plus {
        assert(total@.skip(1) =~= digits);
    } else {
        assert(total@ =~= digits);
    }
    assert(crate::text::whole_number(total@) == Some(crate::text::digits_value(digits)));
}

/// A count of bytes comes only from a reply that was decoded and holds digits,
/// with or without a plus sign. Every other reply gives the reason why not.
pub proof fn law_no_count_of_bytes_without_digits(
    decoded: Result<BqDryRunResponse, String>,
    simulated: Result<u64, String>,
)
    requires
        call_ensures(simulated_bytes, (decoded,), simulated),
    ensures
        simulated is Ok ==> {
            &&& decoded matches Ok(response)
            &&& response.total_bytes_processed matches Some(total)
            &&& total@.len() > 0
            &&& forall|i: int|
                0 <= i < total@.len() ==> crate::text::is_digit(#[trigger] total@[i]) || (i == 0
                    && total@[i] == '+' && total@.len() > 1)
        },
        decoded matches Err(error) ==> (simulated matches Err(reason) && reason@
            == "Error reading Google Cloud JSON: "@ + error@),
        (decoded matches Ok(response) && response.total_bytes_processed is None) ==> (
        simulated matches Err(reason) && reason@
            == "Google Cloud did not return the totalBytesProcessed field"@),
        (decoded matches Ok(response) && response.total_bytes_processed is Some && simulated is Err)
            ==> (simulated matches Err(reason) && reason@
            == "The totalBytesProcessed field is not a valid number"@),
{
    if simulated is Ok {
        let total = decoded->Ok_0.total_bytes_processed->0@;
        assert(crate::text::whole_number(total) is Some);
        if total[0] == '+' {
            assert forall|i: int| 0 < i < total.len() implies crate::text::is_digit(
                #[trigger] total[i],
            ) by {
                assert(total.skip(1)[i - 1] == total[i]);
            }
        }
    }
}

/// A client talks to where it was pointed at: its URLs start with that.
pub proof fn law_a_client_talks_to_where_it_was_pointed_at(
    base_url: String,
    client: BqClient,
    project_id: &str,
    url: String,
)
    requires
        call_ensures(BqClient::with_base_url, (base_url,), client),
        call_ensures(BqClient::queries_url, (&client, project_id), url),
    ensures
        url@.take(base_url@.len() as int) == base_url@,
        url@.skip(base_url@.len() as int).len() == 30 + project_id@.len(),
{
    law_a_url_names_the_project(client, project_id, url);
}

} // verus!
