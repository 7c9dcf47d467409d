use hiroz::py::service::{
    after_poll, after_stage, begin_round, key_gid, request_key, require_pull, round_after,
    ErrorSlot, Next, ServerMode, ServiceTypes, Stage,
};

#[test]
fn services_have_two_types() {
    let types = ServiceTypes::new("example_interfaces/srv/AddTwoInts");
    assert_eq!(types.request, "example_interfaces/srv/AddTwoInts_Request");
    assert_eq!(types.response, "example_interfaces/srv/AddTwoInts_Response");
    assert_eq!(
        types.describe(),
        "request=example_interfaces/srv/AddTwoInts_Request, \
         response=example_interfaces/srv/AddTwoInts_Response"
    );
}

#[test]
fn callback_servers_are_not_pulled() {
    assert!(require_pull(ServerMode::Pull).is_ok());
    assert_eq!(
        require_pull(ServerMode::Callback).unwrap_err(),
        "This server runs in callback mode; take_request/send_response are unavailable. \
         Create it without a callback to use pull mode."
    );
}

#[test]
fn keys_come_back() {
    let gid: Vec<u8> = (1..=20).collect();
    let key = request_key(-4, &gid);
    assert_eq!(key.sequence_number, -4);
    assert_eq!(key.writer_guid[0], 1);
    assert_eq!(key.writer_guid[15], 16);
    assert_eq!(key.source_timestamp, 0);
    let again = request_key(-4, &key_gid(&key));
    assert_eq!(again.writer_guid, key.writer_guid);
}

#[test]
fn a_request_goes_through_its_stages() {
    assert_eq!(begin_round(false), Next::Go(Stage::Poll));
    assert_eq!(begin_round(true), Next::Stop);
    assert_eq!(after_poll(Ok(true)).next, Next::Go(Stage::Decode));
    assert_eq!(after_poll(Ok(false)).next, Next::Rest(2));
    assert_eq!(after_stage(Stage::Decode, Ok(())).next, Next::Go(Stage::Call));
    assert_eq!(after_stage(Stage::Call, Ok(())).next, Next::Go(Stage::Encode));
    assert_eq!(after_stage(Stage::Encode, Ok(())).next, Next::Go(Stage::Send));
    let sent = after_stage(Stage::Send, Ok(()));
    assert_eq!(sent.next, Next::RoundOver);
    assert_eq!(sent.error, None);
}

#[test]
fn each_failure_is_reported() {
    let poll = after_poll(Err("closed".to_string()));
    assert_eq!(poll.next, Next::Rest(50));
    assert_eq!(poll.error.unwrap(), "hiroz_py: service poll error: closed");
    let report = |stage: Stage| {
        let turn = after_stage(stage, Err("x".to_string()));
        assert_eq!(turn.next, Next::RoundOver);
        turn.error.unwrap()
    };
    assert_eq!(report(Stage::Decode), "hiroz_py: request deserialize error: x");
    assert_eq!(report(Stage::Call), "hiroz_py: service callback error: x");
    assert_eq!(report(Stage::Encode), "hiroz_py: response serialize error: x");
    assert_eq!(report(Stage::Send), "hiroz_py: send_response error: x");
}

#[test]
fn the_last_error_is_read_once() {
    let mut slot = ErrorSlot::new();
    assert_eq!(slot.last_error(), None);
    slot.record(&after_stage(Stage::Call, Err("first".to_string())));
    slot.record(&after_stage(Stage::Send, Err("second".to_string())));
    slot.record(&after_poll(Ok(false)));
    assert_eq!(slot.last_error().unwrap(), "hiroz_py: send_response error: second");
    assert_eq!(slot.last_error(), None);
}

#[test]
fn a_loop_that_is_to_stop_looks_for_no_request() {
    let sent = after_stage(Stage::Send, Ok(()));
    assert_eq!(round_after(&sent, false), Next::Go(Stage::Poll));
    assert_eq!(round_after(&sent, true), Next::Stop);
    let failed = after_stage(Stage::Call, Err("x".to_string()));
    assert_eq!(round_after(&failed, true), Next::Stop);
    let idle = after_poll(Ok(false));
    assert_eq!(round_after(&idle, false), Next::Go(Stage::Poll));
    assert_eq!(round_after(&idle, true), Next::Stop);
    let taken = after_poll(Ok(true));
    assert_eq!(round_after(&taken, true), Next::Go(Stage::Decode));
    let decoded = after_stage(Stage::Decode, Ok(()));
    assert_eq!(round_after(&decoded, true), Next::Go(Stage::Call));
}
