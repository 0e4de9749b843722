use joinc::defs::{
    ActiveTaskState, FileTransferOp, MsgInfo, NetworkStatus, ProjectOp, ResultClientState,
    RpcReason, RunMode, SchedulerState, SuspendReason, TaskOp,
};
use joinc::error::Error;
use joinc::rpc::commands::{
    decode_reply_node, AuthorizeCommand, ExchangeVersionsCommand, FileTransferOpCommand,
    GetDiskUsageSummaryCommand, ProjectOpCommand, QuitCommand, TaskOpCommand,
};
use joinc::rpc::connection::{frame_request, unwrap_reply, ReplyAccumulator, DEFAULT_PORT, EOM};
use joinc::ser::to_vec;
use joinc::types::Version;

#[test]
fn serializes_file_transfer_op_command() {
    let subject = FileTransferOpCommand::new(
        "foo.bar".to_string(),
        "Some file transfer".to_string(),
        FileTransferOp::Retry,
    );
    let expected = "<retry_file_transfer><project_url>foo.bar</project_url><filename>Some file transfer</filename></retry_file_transfer>";
    assert_eq!(
        String::from_utf8(to_vec(&subject.request_tree())).unwrap(),
        expected
    );
}

#[test]
fn serializes_project_op_command() {
    let subject = ProjectOpCommand::new("foo.bar".to_string(), ProjectOp::Resume);
    let expected = "<project_resume><project_url>foo.bar</project_url></project_resume>";
    assert_eq!(
        String::from_utf8(to_vec(&subject.request_tree())).unwrap(),
        expected
    );
}

#[test]
fn serializes_task_op_command() {
    let subject = TaskOpCommand::new("foo.bar".to_string(), "Some task".to_string(), TaskOp::Abort);
    let expected = "<abort_result><project_url>foo.bar</project_url><name>Some task</name></abort_result>";
    assert_eq!(
        String::from_utf8(to_vec(&subject.request_tree())).unwrap(),
        expected
    );
}

#[test]
fn frames_requests_with_envelope_and_sentinel() {
    let framed = frame_request("<quit/>");
    let mut expected = b"<boinc_gui_rpc_request>\n<quit/>\n</boinc_gui_rpc_request>".to_vec();
    expected.push(3);
    assert_eq!(framed, expected);
    assert_eq!(DEFAULT_PORT, 31416);
}

#[test]
fn reassembles_sentinel_framed_reply_across_reads() {
    let mut acc = ReplyAccumulator::new();
    assert_eq!(acc.on_read(b"<boinc_gui_rpc").unwrap(), false);
    assert_eq!(acc.on_read(b"_reply><foo>1</foo>").unwrap(), false);
    assert_eq!(acc.on_read(b"</boinc_gui_rpc_reply>\x03").unwrap(), true);
    assert_eq!(
        acc.into_bytes(),
        b"<boinc_gui_rpc_reply><foo>1</foo></boinc_gui_rpc_reply>".to_vec()
    );
}

#[test]
fn zero_byte_read_before_sentinel_is_unexpected_eof() {
    let mut acc = ReplyAccumulator::new();
    assert_eq!(acc.on_read(b"partial reply").unwrap(), false);
    match acc.on_read(b"") {
        Err(Error::Io(_)) => {}
        other => panic!("expected a transport error, got {:?}", other),
    }
}

#[test]
fn sentinel_only_counts_at_the_end_of_a_read() {
    let mut acc = ReplyAccumulator::new();
    assert_eq!(acc.on_read(&[b'a', EOM, b'b']).unwrap(), false);
    assert_eq!(acc.on_read(&[b'c', EOM]).unwrap(), true);
    assert_eq!(acc.into_bytes(), vec![b'a', EOM, b'b', b'c']);
}

#[test]
fn strips_reply_envelope() {
    let reply = b"<boinc_gui_rpc_reply><foo>1</foo></boinc_gui_rpc_reply>";
    assert_eq!(unwrap_reply(reply).unwrap(), "<foo>1</foo>");
}

#[test]
fn strips_reply_envelope_to_last_closing_marker() {
    let reply = b"junk<boinc_gui_rpc_reply>a</boinc_gui_rpc_reply>b</boinc_gui_rpc_reply>tail";
    assert_eq!(unwrap_reply(reply).unwrap(), "a</boinc_gui_rpc_reply>b");
}

#[test]
fn missing_envelope_marker_is_a_protocol_error() {
    match unwrap_reply(b"<foo>1</foo>") {
        Err(Error::Rpc(_)) => {}
        other => panic!("expected a protocol error, got {:?}", other),
    }
    match unwrap_reply(b"<boinc_gui_rpc_reply><foo>1</foo>") {
        Err(Error::Rpc(_)) => {}
        other => panic!("expected a protocol error, got {:?}", other),
    }
}

#[test]
fn crossed_envelope_markers_are_a_protocol_error() {
    match unwrap_reply(b"</boinc_gui_rpc_reply><boinc_gui_rpc_reply>") {
        Err(Error::Rpc(_)) => {}
        other => panic!("expected a protocol error, got {:?}", other),
    }
}

#[test]
fn non_utf8_reply_is_an_encoding_error() {
    let mut reply = b"<boinc_gui_rpc_reply>".to_vec();
    reply.push(0xff);
    reply.extend_from_slice(b"</boinc_gui_rpc_reply>");
    assert_eq!(unwrap_reply(&reply), Err(Error::UnsupportedEncoding));
}

#[test]
fn classifies_error_reply_over_decode_failure() {
    let cmd = QuitCommand::default();
    match cmd.parse_response("<error>msg</error>") {
        Err(Error::Client(m)) => assert_eq!(m, "msg"),
        other => panic!("expected the reported message, got {:?}", other),
    }
}

#[test]
fn classifies_unauthorized_reply() {
    let cmd = QuitCommand::default();
    assert_eq!(cmd.parse_response("<unauthorized/>"), Err(Error::Unauthorized));
}

#[test]
fn keeps_original_decode_failure_without_markers() {
    let cmd = QuitCommand::default();
    match cmd.parse_response("<something_else/>") {
        Err(Error::Deserialization(_)) => {}
        other => panic!("expected the original decode failure, got {:?}", other),
    }
}

#[test]
fn expected_shape_wins_over_markers() {
    let cmd = QuitCommand::default();
    assert_eq!(cmd.parse_response("<success/>"), Ok(()));
}

#[test]
fn malformed_reply_payload_is_a_parse_error() {
    let cmd = QuitCommand::default();
    match cmd.parse_response("<open>") {
        Err(Error::InvalidXml(_)) => {}
        other => panic!("expected a parse error, got {:?}", other),
    }
}

#[test]
fn auth2_digest_is_md5_of_nonce_then_password() {
    let cmd = AuthorizeCommand::new("secret");
    let request = cmd.complete_request("abc");
    assert_eq!(request.tag, "auth2");
    let digest = request.find_child("nonce_hash").unwrap().content.as_str().to_string();
    assert_eq!(digest, format!("{:x}", md5::compute("abcsecret")));
}

#[test]
fn auth_handshake_parses_nonce_and_outcome() {
    let cmd = AuthorizeCommand::new("secret");
    assert_eq!(
        String::from_utf8(to_vec(&cmd.begin_request())).unwrap(),
        "<auth1/>"
    );
    assert_eq!(cmd.parse_nonce("<nonce>abc</nonce>").unwrap(), "abc");
    assert_eq!(cmd.parse_outcome("<authorized/>"), Ok(()));
    assert_eq!(cmd.parse_outcome("<unauthorized/>"), Err(Error::Unauthorized));
    // by protocol design, a reply without the marker reads the same as a
    // rejected password
    assert_eq!(cmd.parse_outcome("<foo/>"), Err(Error::Unauthorized));
}

#[test]
fn exchange_versions_round_trips_through_the_envelope() {
    let version = Version { major: 7, minor: -2, release: 0 };
    let cmd = ExchangeVersionsCommand::new(version);
    assert_eq!(
        String::from_utf8(to_vec(&cmd.request_tree())).unwrap(),
        "<exchange_versions><major>7</major><minor>-2</minor><release>0</release></exchange_versions>"
    );

    let payload =
        "<server_version><major>7</major><minor>-2</minor><release>0</release></server_version>";
    let mut reply = b"<boinc_gui_rpc_reply>".to_vec();
    reply.extend_from_slice(payload.as_bytes());
    reply.extend_from_slice(b"</boinc_gui_rpc_reply>");

    let stripped = unwrap_reply(&reply).unwrap();
    assert_eq!(cmd.parse_response(&stripped).unwrap(), version);
}

#[test]
fn exchange_versions_requires_all_fields() {
    let cmd = ExchangeVersionsCommand::new(Version::default());
    match cmd.parse_response("<server_version><major>7</major></server_version>") {
        Err(Error::Deserialization(_)) => {}
        other => panic!("expected a decode failure, got {:?}", other),
    }
}

#[test]
fn disk_usage_reply_hands_the_tree_out() {
    let cmd = GetDiskUsageSummaryCommand::default();
    assert_eq!(
        String::from_utf8(to_vec(&cmd.request_tree())).unwrap(),
        "<get_disk_usage/>"
    );
    let root = cmd
        .parse_response("<disk_usage_summary><d_total>100</d_total></disk_usage_summary>")
        .unwrap();
    let summary = root.find_child("disk_usage_summary").unwrap();
    assert_eq!(summary.try_child_into_content::<i32>("d_total").unwrap(), 100);
}

#[test]
fn unknown_enum_codes_decode_to_the_reserved_variant() {
    assert_eq!(ActiveTaskState::from_code(99), ActiveTaskState::UnknownToJoinc);
    assert_eq!(MsgInfo::from_code(0), MsgInfo::UnknownToJoinc);
    assert_eq!(NetworkStatus::from_code(-7), NetworkStatus::UnknownToJoinc);
    assert_eq!(ResultClientState::from_code(8), ResultClientState::UnknownToJoinc);
    assert_eq!(RpcReason::from_code(100), RpcReason::UnknownToJoinc);
    assert_eq!(RunMode::from_code(5), RunMode::UnknownToJoinc);
    assert_eq!(SchedulerState::from_code(3), SchedulerState::UnknownToJoinc);
    assert_eq!(SuspendReason::from_code(3), SuspendReason::UnknownToJoinc);
}

#[test]
fn known_enum_codes_decode_exactly() {
    assert_eq!(ActiveTaskState::from_code(1), ActiveTaskState::Executing);
    assert_eq!(MsgInfo::from_code(1), MsgInfo::Info);
    assert_eq!(NetworkStatus::from_code(0), NetworkStatus::Online);
    assert_eq!(ResultClientState::from_code(2), ResultClientState::FilesDownloaded);
    assert_eq!(RpcReason::from_code(1), RpcReason::UserReq);
    assert_eq!(RunMode::from_code(2), RunMode::Auto);
    assert_eq!(RunMode::Auto.code(), 2);
    assert_eq!(SchedulerState::from_code(2), SchedulerState::Scheduled);
    assert_eq!(SuspendReason::from_code(4096), SuspendReason::Os);
}

#[test]
fn reply_payload_may_hold_zero_or_many_fragments() {
    let empty = decode_reply_node("").unwrap();
    assert_eq!(empty.children.len(), 0);

    let many = decode_reply_node("<a>1</a><b/>").unwrap();
    assert_eq!(many.children.len(), 2);
    assert_eq!(many.try_child_into_content::<i32>("a").unwrap(), 1);
}

#[test]
fn expected_shape_wins_even_beside_other_fields() {
    let cmd = ExchangeVersionsCommand::new(Version::default());
    let payload = "<server_version><major>1</major><minor>2</minor><release>3</release></server_version><error>noise</error>";
    assert_eq!(
        cmd.parse_response(payload).unwrap(),
        Version { major: 1, minor: 2, release: 3 }
    );
}
