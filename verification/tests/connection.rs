use kafcars::client::stream::ConnectionState;
use kafcars::client::stream::FrameOutcome;
use kafcars::client::stream::RequestError;
use kafcars::client::stream::frame_payload;
use kafcars::client::stream::match_versions;
use kafcars::client::stream::negotiate_version;
use kafcars::client::stream::probe_upper_bounds;
use kafcars::protocol::api_key::ApiKey;
use kafcars::protocol::error::SerializationError;
use kafcars::protocol::header::RequestHeader;
use kafcars::protocol::header::ResponseHeader;
use kafcars::protocol::messages::ApiVersionRange;

#[test]
fn negotiation_picks_highest_shared_version() {
    let caller = ApiVersionRange { min: 0, max: 4 };
    assert_eq!(match_versions(caller, ApiVersionRange { min: 2, max: 3 }), Some(3));
    assert_eq!(match_versions(ApiVersionRange { min: 0, max: 1 }, ApiVersionRange { min: 2, max: 4 }), None);
    assert_eq!(match_versions(caller, ApiVersionRange { min: 4, max: 4 }), Some(4));
}

#[test]
fn negotiation_against_advertised_table() {
    let table = vec![
        (ApiKey::Metadata, ApiVersionRange { min: 0, max: 9 }),
        (ApiKey::ApiVersions, ApiVersionRange { min: 2, max: 3 }),
    ];
    assert_eq!(
        negotiate_version(&table, ApiKey::ApiVersions, ApiVersionRange { min: 0, max: 4 }),
        Ok(3)
    );
    assert_eq!(
        negotiate_version(&table, ApiKey::ApiVersions, ApiVersionRange { min: 0, max: 1 }),
        Err(RequestError::NoVersionMatch { api_key: ApiKey::ApiVersions })
    );
    let empty: Vec<(ApiKey, ApiVersionRange)> = Vec::new();
    assert_eq!(
        negotiate_version(&empty, ApiKey::Metadata, ApiVersionRange { min: 0, max: 1 }),
        Err(RequestError::NoVersionMatch { api_key: ApiKey::Metadata })
    );
}

#[test]
fn correlation_ids_increase_from_zero() {
    let mut st = ConnectionState::new();
    assert_eq!(st.register_request(false), Some(0));
    assert_eq!(st.register_request(true), Some(1));
    assert_eq!(st.register_request(false), Some(2));
    assert_eq!(st.correlation_id, 3);
    assert_eq!(st.pending.len(), 3);
}

#[test]
fn reversed_responses_reach_their_own_callers() {
    let mut st = ConnectionState::new();
    let id0 = st.register_request(false).unwrap();
    let id1 = st.register_request(false).unwrap();
    // Deliver the second exchange's response first.
    let f1 = [0u8, 0, 0, 1, 0xB1, 0xB2];
    match st.on_frame(&f1) {
        FrameOutcome::Completed { correlation_id, response } => {
            assert_eq!(correlation_id, id1);
            assert_eq!(response.header.correlation_id, id1);
            assert_eq!(response.payload, vec![0xB1, 0xB2]);
        },
        other => panic!("expected completion, got {:?}", other),
    }
    let f0 = [0u8, 0, 0, 0, 0xA0];
    match st.on_frame(&f0) {
        FrameOutcome::Completed { correlation_id, response } => {
            assert_eq!(correlation_id, id0);
            assert_eq!(response.payload, vec![0xA0]);
        },
        other => panic!("expected completion, got {:?}", other),
    }
    assert_eq!(st.pending.len(), 0);
}

#[test]
fn unknown_correlation_id_is_dropped_harmlessly() {
    let mut st = ConnectionState::new();
    st.register_request(false).unwrap();
    let stray = [0u8, 0, 0, 99, 1, 2, 3];
    match st.on_frame(&stray) {
        FrameOutcome::Unknown { correlation_id } => assert_eq!(correlation_id, 99),
        other => panic!("expected unknown, got {:?}", other),
    }
    assert_eq!(st.pending.len(), 1);
    // The pending exchange still completes normally afterwards.
    let f0 = [0u8, 0, 0, 0, 0x42];
    assert!(matches!(st.on_frame(&f0), FrameOutcome::Completed { correlation_id: 0, .. }));
}

#[test]
fn short_header_is_reported_not_fatal() {
    let mut st = ConnectionState::new();
    st.register_request(false).unwrap();
    match st.on_frame(&[0u8, 0]) {
        FrameOutcome::BadHeader { error } => assert_eq!(error, SerializationError::Io),
        other => panic!("expected bad header, got {:?}", other),
    }
    assert_eq!(st.pending.len(), 1);
}

#[test]
fn tagged_response_header_is_decoded_when_expected() {
    let mut st = ConnectionState::new();
    st.register_request(true).unwrap();
    // Correlation id 0, an empty tagged-fields region, then the body.
    let frame = [0u8, 0, 0, 0, 0, 0xEE];
    match st.on_frame(&frame) {
        FrameOutcome::Completed { correlation_id, response } => {
            assert_eq!(correlation_id, 0);
            let tf = response.header.tagged_fields.expect("tagged fields expected");
            assert_eq!(tf.fields.len(), 0);
            assert_eq!(response.payload, vec![0xEE]);
        },
        other => panic!("expected completion, got {:?}", other),
    }
}

#[test]
fn bad_tagged_region_fails_only_that_exchange() {
    let mut st = ConnectionState::new();
    st.register_request(true).unwrap();
    st.register_request(false).unwrap();
    // Correlation id 0, then a duplicated tag pair in the tagged region.
    let frame = [0u8, 0, 0, 0, 2, 3, 1, 0xAA, 3, 1, 0xBB];
    match st.on_frame(&frame) {
        FrameOutcome::Failed { correlation_id, error } => {
            assert_eq!(correlation_id, 0);
            assert_eq!(error, SerializationError::Malformed);
        },
        other => panic!("expected failure, got {:?}", other),
    }
    // The other exchange is untouched.
    assert_eq!(st.pending.len(), 1);
    assert_eq!(st.pending[0].0, 1);
}

#[test]
fn teardown_fails_every_pending_exchange_once() {
    let mut st = ConnectionState::new();
    st.register_request(false).unwrap();
    st.register_request(true).unwrap();
    st.register_request(false).unwrap();
    let failed = st.fail_all();
    let ids: Vec<i32> = failed.iter().map(|e| e.0).collect();
    assert_eq!(ids, vec![0, 1, 2]);
    assert!(failed[1].1.use_tagged_fields_in_response);
    assert_eq!(st.pending.len(), 0);
    // A second teardown finds nothing left to fail.
    assert_eq!(st.fail_all().len(), 0);
}

#[test]
fn request_header_wire_form() {
    let h = RequestHeader {
        request_api_version: 3,
        request_api_key: ApiKey::ApiVersions,
        correlation_id: 7,
        client_id: String::from("cli"),
    };
    let mut out = Vec::new();
    h.encode(&mut out, 2).unwrap();
    assert_eq!(out, vec![0, 3, 0, 18, 0, 0, 0, 7, 4, b'c', b'l', b'i']);
    // At header version 0 the client id is not on the wire.
    let mut out0 = Vec::new();
    h.encode(&mut out0, 0).unwrap();
    assert_eq!(out0, vec![0, 3, 0, 18, 0, 0, 0, 7]);
    // Above the highest header version the header is refused.
    let mut out3 = Vec::new();
    assert_eq!(
        h.encode(&mut out3, 3),
        Err(SerializationError::UnsupportedVersion { max_version: 2, given_version: 3 })
    );
    assert_eq!(out3, Vec::<u8>::new());
}

#[test]
fn response_header_decodes_with_and_without_tagged_fields() {
    let bytes = [0u8, 0, 0, 9];
    let (h, end) = ResponseHeader::decode(&bytes, 0, 0).unwrap();
    assert_eq!(h.correlation_id, 9);
    assert!(h.tagged_fields.is_none());
    assert_eq!(end, 4);

    let bytes1 = [0u8, 0, 0, 9, 0];
    let (h1, end1) = ResponseHeader::decode(&bytes1, 0, 1).unwrap();
    assert_eq!(h1.correlation_id, 9);
    assert!(h1.tagged_fields.is_some());
    assert_eq!(end1, 5);
}

#[test]
fn frames_carry_a_big_endian_length_prefix() {
    let payload = vec![1u8, 2, 3];
    let framed = frame_payload(&payload).unwrap();
    assert_eq!(framed, vec![0, 0, 0, 3, 1, 2, 3]);
    let empty = frame_payload(&Vec::new()).unwrap();
    assert_eq!(empty, vec![0, 0, 0, 0]);
}

#[test]
fn handshake_probes_top_down() {
    let bounds = probe_upper_bounds(ApiVersionRange { min: 0, max: 4 });
    assert_eq!(bounds, vec![4, 3, 2, 1, 0]);
    let one = probe_upper_bounds(ApiVersionRange { min: 2, max: 2 });
    assert_eq!(one, vec![2]);
}
