//! What holds of the services for Python as a whole.

use crate::py::service;
use crate::py::service::{Next, RequestId, Stage, Turn};
use crate::text;
use crate::text_laws;
use vstd::prelude::*;

verus! {

/// The types of a service begin with its own type and tell requests from
/// responses; different services have different types.
pub proof fn service_types_differ(a: Seq<char>, b: Seq<char>)
    ensures
        text::begins_with(service::request_type(a), a),
        text::begins_with(service::response_type(a), a),
        text::finishes_with(service::request_type(a), "_Request"@),
        text::finishes_with(service::response_type(a), "_Response"@),
        service::request_type(a) == service::request_type(b) ==> a == b,
        service::response_type(a) == service::response_type(b) ==> a == b,
        service::request_type(a) != service::response_type(b),
        service::request_type(a).len() == a.len() + 8,
        service::response_type(a).len() == a.len() + 9,
{
    reveal_strlit("_Request");
    reveal_strlit("_Response");
    let req = service::request_type(a);
    let res = service::response_type(b);
    text_laws::beginnings(req, a, "_Request"@);
    text_laws::beginnings(service::response_type(a), a, "_Response"@);
    text_laws::endings(req, "_Request"@, a);
    text_laws::endings(service::response_type(a), "_Response"@, a);
    assert(req.take(a.len() as int) =~= a);
    assert(service::request_type(b).take(b.len() as int) =~= b);
    assert(service::response_type(a).take(a.len() as int) =~= a);
    assert(res.take(b.len() as int) =~= b);
    if req == res {
        assert(req[req.len() - 2] == 's');
        assert(res[res.len() - 3] == 'n' && req[req.len() - 3] == 'e');
    }
}

/// A request is found again by its sequence number and the sixteen bytes of its
/// sender: two keys are the same exactly if both are.
pub proof fn keys_find_their_requests(
    n: i64,
    gid: Seq<u8>,
    key: RequestId,
    m: i64,
    other: Seq<u8>,
    other_key: RequestId,
)
    requires
        gid.len() >= 16,
        other.len() >= 16,
        service::is_key(n, gid, key),
        service::is_key(m, other, other_key),
    ensures
        key.sequence_number == other_key.sequence_number && key.writer_guid@
            == other_key.writer_guid@ <==> n == m && forall|i: int|
            0 <= i < 16 ==> #[trigger] gid[i] == other[i],
        key.source_timestamp == other_key.source_timestamp,
        forall|i: int| 0 <= i < 16 ==> #[trigger] key.writer_guid@[i] == gid[i],
{
    if key.writer_guid@ == other_key.writer_guid@ {
        assert forall|i: int| 0 <= i < 16 implies #[trigger] gid[i] == other[i] by {
            assert(gid.take(16)[i] == other.take(16)[i]);
        }
    }
    if forall|i: int| 0 <= i < 16 ==> #[trigger] gid[i] == other[i] {
        assert(gid.take(16) =~= other.take(16));
    }
}

/// A request that is found and goes well all the way is read, handed to the
/// callback, and its response is written and sent, in this order; then the round
/// is over. No error is reported.
pub proof fn requests_are_answered_in_order(
    found: Turn,
    decoded: Turn,
    called: Turn,
    encoded: Turn,
    sent: Turn,
)
    requires
        service::is_turn_of_poll(Ok(true), found),
        service::is_turn_of(Stage::Decode, Ok(()), decoded),
        service::is_turn_of(Stage::Call, Ok(()), called),
        service::is_turn_of(Stage::Encode, Ok(()), encoded),
        service::is_turn_of(Stage::Send, Ok(()), sent),
    ensures
        found.next == Next::Go(Stage::Decode) && found.error is None,
        decoded.next == Next::Go(Stage::Call) && decoded.error is None,
        called.next == Next::Go(Stage::Encode) && called.error is None,
        encoded.next == Next::Go(Stage::Send) && encoded.error is None,
        sent.next == Next::RoundOver && sent.error is None,
{
}

/// A failure at any stage is reported with its cause, and the request is given
/// up: the round is over. Only a failure is reported.
pub proof fn failures_are_reported(stage: Stage, outcome: Result<(), String>, t: Turn)
    requires
        stage != Stage::Poll,
        service::is_turn_of(stage, outcome, t),
    ensures
        outcome is Ok <==> t.error is None,
        outcome matches Err(e) ==> {
            &&& t.next == Next::RoundOver
            &&& text::begins_with(t.error->0@, "hiroz_py: "@)
            &&& text::finishes_with(t.error->0@, ": "@ + e@)
            &&& text::occurs_in(t.error->0@, service::stage_failure(stage))
        },
{
    if let Err(e) = outcome {
        reports_name_stage_and_cause(stage, e@);
    }
}

proof fn reports_name_stage_and_cause(stage: Stage, cause: Seq<char>)
    ensures
        ({
            let s = service::stage_report(stage, cause);
            &&& text::begins_with(s, "hiroz_py: "@)
            &&& text::finishes_with(s, ": "@ + cause)
            &&& text::occurs_in(s, service::stage_failure(stage))
        }),
{
    let s = service::stage_report(stage, cause);
    let what = service::stage_failure(stage);
    let rest = ": "@ + cause;
    assert(s =~= "hiroz_py: "@ + what + rest);
    text_laws::occurs_in_the_middle("hiroz_py: "@, what, rest);
    assert(s =~= "hiroz_py: "@ + (what + rest));
    text_laws::beginnings(s, "hiroz_py: "@, what + rest);
    text_laws::endings(s, rest, "hiroz_py: "@ + what);
}

/// Without a request the loop rests and looks again; after a failed look it rests
/// longer and reports the failure. It never goes on to answer nothing.
pub proof fn looks_without_a_request_rest(found: Result<bool, String>, t: Turn)
    requires
        service::is_turn_of_poll(found, t),
    ensures
        t.next is Go <==> found == Ok::<bool, String>(true),
        found == Ok::<bool, String>(false) ==> t.next == Next::Rest(2),
        found is Err ==> t.next == Next::Rest(50),
        t.error is Some <==> found is Err,
        found matches Err(e) ==> text::finishes_with(t.error->0@, ": "@ + e@),
{
    if let Err(e) = found {
        reports_name_stage_and_cause(Stage::Poll, e@);
    }
}

/// A request that is being answered is answered to the end, though the loop is to
/// stop; at the end of a round, and after a rest, the loop stops exactly if it is
/// to, and else looks for a request.
pub proof fn stopping_waits_for_the_round(next: Next, stop: bool)
    ensures
        next matches Next::Go(stage) && stage != Stage::Poll ==> service::next_after(next, stop)
            == next,
        next is Rest || next is RoundOver || next == Next::Go(Stage::Poll) ==> {
            &&& stop ==> service::next_after(next, stop) == Next::Stop
            &&& !stop ==> service::next_after(next, stop) == Next::Go(Stage::Poll)
            &&& service::next_after(next, stop) == service::round_begun(stop)
        },
        next is Stop ==> service::next_after(next, stop) is Stop,
{
}

/// Different stages report their failures differently.
pub proof fn stages_are_told_apart(a: Stage, b: Stage)
    ensures
        service::stage_failure(a) == service::stage_failure(b) ==> a == b,
{
    reveal_strlit("service poll error");
    reveal_strlit("request deserialize error");
    reveal_strlit("service callback error");
    reveal_strlit("response serialize error");
    reveal_strlit("send_response error");
    assert(service::stage_failure(Stage::Poll).len() == 18);
    assert(service::stage_failure(Stage::Decode).len() == 25);
    assert(service::stage_failure(Stage::Call).len() == 22);
    assert(service::stage_failure(Stage::Encode).len() == 24);
    assert(service::stage_failure(Stage::Send).len() == 19);
}

/// What is said of a service names both of its types, the request first.
pub proof fn both_types_are_named(request: Seq<char>, response: Seq<char>)
    ensures
        text::begins_with(service::both_types(request, response), "request="@ + request),
        text::finishes_with(service::both_types(request, response), "response="@ + response),
{
    let s = service::both_types(request, response);
    let head = "request="@ + request;
    reveal_strlit(", response=");
    reveal_strlit("response=");
    reveal_strlit(", ");
    assert(", response="@ =~= ", "@ + "response="@);
    assert(s =~= head + (", response="@ + response));
    text_laws::beginnings(s, head, ", response="@ + response);
    assert(s =~= (head + ", "@) + ("response="@ + response));
    text_laws::endings(s, "response="@ + response, head + ", "@);
}

/// An identifier that was handed out leads back to the key that it was taken
/// from.
pub proof fn handed_out_identifiers_lead_back(key: RequestId, again: RequestId)
    requires
        service::is_key(key.sequence_number, service::gid_of(key), again),
    ensures
        service::gid_of(key).len() == 16,
        again.sequence_number == key.sequence_number,
        again.writer_guid@ == key.writer_guid@,
{
    assert(service::gid_of(key).take(16) =~= key.writer_guid@);
}

/// Requests can be taken exactly in pull mode.
pub proof fn only_pull_mode_takes_requests(mode: service::ServerMode, r: Result<(), String>)
    requires
        service::is_pull_check(mode, r),
    ensures
        r is Ok <==> mode == service::ServerMode::Pull,
        r matches Err(e) ==> e@ == service::not_pull(),
{
}

/// The last error that was reported is handed out once: it stays through turns
/// without an error, a later error takes its place, and once it is handed out
/// there is none.
pub proof fn last_error_is_handed_out_once(
    before: service::ErrorSlot,
    turn: Turn,
    after: service::ErrorSlot,
    r: Option<String>,
    left: service::ErrorSlot,
    again: Option<String>,
    end: service::ErrorSlot,
)
    requires
        before.is_recorded(turn, after),
        after.is_handed_out(left, r),
        left.is_handed_out(end, again),
    ensures
        turn.error matches Some(e) ==> r matches Some(s) && s@ == e@,
        turn.error is None ==> (r is Some <==> before.last is Some),
        turn.error is None && before.last is Some ==> r->0@ == before.last->0@,
        again is None,
{
}

} // verus!
