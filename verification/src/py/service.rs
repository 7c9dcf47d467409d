//! Services for Python: names, request keys, and the loop of a server that
//! answers by a callback.

use crate::text;
use crate::text::join2;
use vstd::prelude::*;
use vstd::string::*;

verus! {

// ---------------------------------------------------------------------------
// Names
// ---------------------------------------------------------------------------

/// The message types of a service.
pub struct ServiceTypes {
    pub request: String,
    pub response: String,
}

/// The message type of a service's requests.
pub open spec fn request_type(service_type: Seq<char>) -> Seq<char> {
    service_type + "_Request"@
}

/// The message type of a service's responses.
pub open spec fn response_type(service_type: Seq<char>) -> Seq<char> {
    service_type + "_Response"@
}

/// The text that names both types of a service.
pub open spec fn both_types(request: Seq<char>, response: Seq<char>) -> Seq<char> {
    "request="@ + request + ", response="@ + response
}

impl ServiceTypes {
    /// The message types of the service type `service_type`.
    pub fn new(service_type: &str) -> (t: Self)
        ensures
            t.request@ == request_type(service_type@),
            t.response@ == response_type(service_type@),
    {
        ServiceTypes {
            request: join2(service_type, "_Request"),
            response: join2(service_type, "_Response"),
        }
    }

    /// Names both types.
    pub fn describe(&self) -> (s: String)
        ensures
            s@ == both_types(self.request@, self.response@),
    {
        let mut s = "request=".to_owned();
        s.append(self.request.as_str());
        s.append(", response=");
        s.append(self.response.as_str());
        s
    }
}

// ---------------------------------------------------------------------------
// Requests
// ---------------------------------------------------------------------------

/// How a server is used.
#[derive(Clone, Copy, PartialEq, Eq, Structural, Debug)]
pub enum ServerMode {
    /// Its user takes requests and sends responses.
    Pull,
    /// A callback answers requests.
    Callback,
}

/// Why requests cannot be taken.
pub open spec fn not_pull() -> Seq<char> {
    "This server runs in callback mode; take_request/send_response are unavailable. Create it without a callback to use pull mode."@
}

/// `r` says whether the user of a server may take requests and send responses.
pub open spec fn is_pull_check(mode: ServerMode, r: Result<(), String>) -> bool {
    match mode {
        ServerMode::Pull => r is Ok,
        ServerMode::Callback => r matches Err(e) && e@ == not_pull(),
    }
}

/// Whether the user of a server may take requests and send responses, or why
/// not.
pub fn require_pull(mode: ServerMode) -> (r: Result<(), String>)
    ensures
        is_pull_check(mode, r),
{
    match mode {
        ServerMode::Pull => Ok(()),
        ServerMode::Callback => Err(
            "This server runs in callback mode; take_request/send_response are unavailable. Create it without a callback to use pull mode.".to_owned(),
        ),
    }
}

/// The key of a request.
pub struct RequestId {
    pub sequence_number: i64,
    pub writer_guid: [u8; 16],
    pub source_timestamp: i64,
}

/// `key` is the key for a sequence number and the first bytes of an identifier.
pub open spec fn is_key(sequence_number: i64, gid: Seq<u8>, key: RequestId) -> bool {
    &&& key.sequence_number == sequence_number
    &&& key.writer_guid@ == gid.take(16)
    &&& key.source_timestamp == 0
}

/// The key for a sequence number and the first bytes of an identifier. The
/// timestamp does not matter for finding a request.
pub fn request_key(sequence_number: i64, gid: &Vec<u8>) -> (key: RequestId)
    requires
        gid@.len() >= 16,
    ensures
        is_key(sequence_number, gid@, key),
{
    let mut writer_guid: [u8; 16] = [0u8; 16];
    let mut i: usize = 0;
    while i < 16
        invariant
            i <= 16,
            gid@.len() >= 16,
            writer_guid@.len() == 16,
            forall|j: int| 0 <= j < i ==> #[trigger] writer_guid@[j] == gid@[j],
        decreases 16 - i,
    {
        writer_guid[i] = gid[i];
        i += 1;
    }
    assert(writer_guid@ =~= gid@.take(16));
    RequestId { sequence_number, writer_guid, source_timestamp: 0 }
}

/// The identifier in a key.
pub open spec fn gid_of(key: RequestId) -> Seq<u8> {
    key.writer_guid@
}

/// The identifier in a key, for its user to hand back.
pub fn key_gid(key: &RequestId) -> (gid: Vec<u8>)
    ensures
        gid@ == gid_of(*key),
{
    let mut gid: Vec<u8> = Vec::new();
    let mut i: usize = 0;
    while i < 16
        invariant
            i <= 16,
            gid@.len() == i,
            forall|j: int| 0 <= j < i ==> #[trigger] gid@[j] == key.writer_guid@[j],
        decreases 16 - i,
    {
        gid.push(key.writer_guid[i]);
        i += 1;
    }
    assert(gid@ =~= key.writer_guid@);
    gid
}

/// A key that is handed back finds the same request.
pub proof fn key_round_trip(key: RequestId, gid: Seq<u8>)
    requires
        gid == key.writer_guid@,
    ensures
        gid.len() >= 16,
        gid.take(16) == key.writer_guid@,
{
    assert(gid.take(16) =~= gid);
}

// ---------------------------------------------------------------------------
// The callback loop
// ---------------------------------------------------------------------------

/// What the loop of a server does.
#[derive(Clone, Copy, PartialEq, Eq, Structural, Debug)]
pub enum Stage {
    /// It looks for a request.
    Poll,
    /// It reads the request.
    Decode,
    /// It calls the callback.
    Call,
    /// It writes the response.
    Encode,
    /// It sends the response.
    Send,
}

/// What the loop does next.
#[derive(Clone, Copy, PartialEq, Eq, Structural, Debug)]
pub enum Next {
    /// It goes on with a stage.
    Go(Stage),
    /// It waits for some milliseconds, and then the round is over.
    Rest(u64),
    /// The round is over. Whether another begins is decided then.
    RoundOver,
    /// It ends.
    Stop,
}

/// What comes of a stage: what is done next, and the error to report.
pub struct Turn {
    pub next: Next,
    pub error: Option<String>,
}

/// What failed.
pub open spec fn stage_failure(stage: Stage) -> Seq<char> {
    match stage {
        Stage::Poll => "service poll error"@,
        Stage::Decode => "request deserialize error"@,
        Stage::Call => "service callback error"@,
        Stage::Encode => "response serialize error"@,
        Stage::Send => "send_response error"@,
    }
}

/// What is reported of a failure.
pub open spec fn stage_report(stage: Stage, cause: Seq<char>) -> Seq<char> {
    "hiroz_py: "@ + stage_failure(stage) + ": "@ + cause
}

/// What comes after a stage that went well.
pub open spec fn following(stage: Stage) -> Next {
    match stage {
        Stage::Poll => Next::Go(Stage::Decode),
        Stage::Decode => Next::Go(Stage::Call),
        Stage::Call => Next::Go(Stage::Encode),
        Stage::Encode => Next::Go(Stage::Send),
        Stage::Send => Next::RoundOver,
    }
}

fn report(stage: Stage, cause: &str) -> (s: String)
    ensures
        s@ == stage_report(stage, cause@),
{
    let mut s = "hiroz_py: ".to_owned();
    match stage {
        Stage::Poll => s.append("service poll error"),
        Stage::Decode => s.append("request deserialize error"),
        Stage::Call => s.append("service callback error"),
        Stage::Encode => s.append("response serialize error"),
        Stage::Send => s.append("send_response error"),
    }
    s.append(": ");
    s.append(cause);
    s
}

/// The view of a text that may be there.
pub open spec fn text_view(s: Option<String>) -> Option<Seq<char>> {
    match s {
        Some(s) => Some(s@),
        None => None,
    }
}

/// How a round of the loop begins, unless it is to stop.
pub open spec fn round_begun(stop: bool) -> Next {
    if stop {
        Next::Stop
    } else {
        Next::Go(Stage::Poll)
    }
}

/// `t` is what comes of looking for a request.
pub open spec fn is_turn_of_poll(found: Result<bool, String>, t: Turn) -> bool {
    match found {
        Ok(true) => t.next == Next::Go(Stage::Decode) && t.error is None,
        Ok(false) => t.next == Next::Rest(2) && t.error is None,
        Err(e) => t.next == Next::Rest(50) && text_view(t.error) == Some(
            stage_report(Stage::Poll, e@),
        ),
    }
}

/// `t` is what comes of a stage of answering a request.
pub open spec fn is_turn_of(stage: Stage, outcome: Result<(), String>, t: Turn) -> bool {
    match outcome {
        Ok(_) => t.next == following(stage) && t.error is None,
        Err(e) => t.next == Next::RoundOver && text_view(t.error) == Some(
            stage_report(stage, e@),
        ),
    }
}

/// What the loop does after a turn, once its rest is over.
pub open spec fn next_after(next: Next, stop: bool) -> Next {
    match next {
        Next::Go(Stage::Poll) | Next::Rest(_) | Next::RoundOver => if stop {
            Next::Stop
        } else {
            Next::Go(Stage::Poll)
        },
        Next::Go(stage) => Next::Go(stage),
        Next::Stop => Next::Stop,
    }
}

/// Begins a round of the loop, unless it is to stop.
pub fn begin_round(stop: bool) -> (n: Next)
    ensures
        n == round_begun(stop),
{
    if stop {
        Next::Stop
    } else {
        Next::Go(Stage::Poll)
    }
}

/// Goes on from looking for a request: there was one, or there was none.
pub fn after_poll(found: Result<bool, String>) -> (t: Turn)
    ensures
        is_turn_of_poll(found, t),
{
    match found {
        Ok(true) => Turn { next: Next::Go(Stage::Decode), error: None },
        Ok(false) => Turn { next: Next::Rest(2), error: None },
        Err(e) => Turn { next: Next::Rest(50), error: Some(report(Stage::Poll, e.as_str())) },
    }
}

/// Goes on from a stage of answering a request. A request whose answer fails is
/// given up.
pub fn after_stage(stage: Stage, outcome: Result<(), String>) -> (t: Turn)
    requires
        stage != Stage::Poll,
    ensures
        is_turn_of(stage, outcome, t),
{
    match outcome {
        Ok(_) => {
            let next = match stage {
                Stage::Poll => Next::Go(Stage::Decode),
                Stage::Decode => Next::Go(Stage::Call),
                Stage::Call => Next::Go(Stage::Encode),
                Stage::Encode => Next::Go(Stage::Send),
                Stage::Send => Next::RoundOver,
            };
            Turn { next, error: None }
        },
        Err(e) => Turn {
            next: Next::RoundOver,
            error: Some(report(stage, e.as_str())),
        },
    }
}

/// Goes on from a turn, once its rest, if it has one, is over. Where the turn
/// would look for a request again, the loop ends if it is to stop.
pub fn round_after(turn: &Turn, stop: bool) -> (n: Next)
    ensures
        n == next_after(turn.next, stop),
{
    match turn.next {
        Next::Go(Stage::Poll) | Next::Rest(_) | Next::RoundOver => begin_round(stop),
        Next::Go(stage) => Next::Go(stage),
        Next::Stop => Next::Stop,
    }
}

/// The last error of a server's loop.
pub struct ErrorSlot {
    pub last: Option<String>,
}

impl ErrorSlot {
    /// `after` is this slot with the error of a turn, if there is one.
    pub open spec fn is_recorded(&self, turn: Turn, after: ErrorSlot) -> bool {
        text_view(after.last) == (match turn.error {
            Some(e) => Some(e@),
            None => text_view(self.last),
        })
    }

    /// `r` is the last error, which `after` has forgotten.
    pub open spec fn is_handed_out(&self, after: ErrorSlot, r: Option<String>) -> bool {
        r == self.last && after.last is None
    }

    /// No error.
    pub fn new() -> (s: Self)
        ensures
            s.last is None,
    {
        ErrorSlot { last: None }
    }

    /// Keeps the error of a turn, if there is one, in place of any before.
    pub fn record(&mut self, turn: &Turn)
        ensures
            old(self).is_recorded(*turn, *final(self)),
    {
        match &turn.error {
            Some(e) => {
                self.last = Some(e.clone());
            },
            None => {},
        }
    }

    /// Hands out the last error, and forgets it.
    pub fn last_error(&mut self) -> (r: Option<String>)
        ensures
            old(self).is_handed_out(*final(self), r),
    {
        self.last.take()
    }
}

/// How many stages are left until a request is answered.
pub open spec fn stages_left(next: Next) -> nat {
    match next {
        Next::Go(Stage::Decode) => 4,
        Next::Go(Stage::Call) => 3,
        Next::Go(Stage::Encode) => 2,
        Next::Go(Stage::Send) => 1,
        _ => 0,
    }
}

/// A request that was taken is answered or given up: each stage that goes well
/// brings the loop nearer to the end of the round, and a failure brings it
/// there at once.
pub proof fn loop_comes_back(stage: Stage)
    requires
        stage != Stage::Poll,
    ensures
        stages_left(following(stage)) + 1 == stages_left(Next::Go(stage)),
        stages_left(following(stage)) == 0 <==> following(stage) == Next::RoundOver,
        stages_left(Next::RoundOver) == 0,
{
}

} // verus!
