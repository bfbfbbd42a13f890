use zed_java::gradle::model::{
    model_to_commands, normalize_project_path, GradleClosure, GradleField, GradleMethod,
    GradleProject,
};
use zed_java::gradle::rpc::{
    decode_reply, parse_rpc_error, rpc_error_message, GradleJsonRpcClient, ReadStep, RpcError,
};
use zed_java::gradle::server::{
    cancel_step, parse_args, server_arguments, socket_directory, stderr_causes, windows_pipe_name,
    ArgumentError, BuildAction, BuildCall, BuildEvent, BuildOutcome, BuildReply, CancelStep,
    Connections, DistributionConfig, ReplyState,
};
use zed_java::json::Json;
use zed_java::lsp::{encode_lsp, parse_lsp_content};

fn json(source: &str) -> Json {
    Json::parse(source.as_bytes()).unwrap()
}

fn at<'a>(value: &'a Json, path: &[&str]) -> &'a Json {
    let mut current = value;
    for step in path {
        current = match current {
            Json::Array(items) => &items[step.parse::<usize>().unwrap()],
            _ => current.get(step).unwrap(),
        };
    }
    current
}

fn frame(source: &str) -> Vec<u8> {
    encode_lsp(&json(source)).into_bytes()
}

fn strings(items: &[&str]) -> Vec<String> {
    items.iter().map(|item| item.to_string()).collect()
}

fn sample_project() -> GradleProject {
    GradleProject {
        projects: vec![GradleProject {
            project_path: "/p/sub".to_string(),
            plugins: vec!["java".to_string()],
            ..Default::default()
        }],
        project_path: "/p".to_string(),
        plugins: vec!["java".to_string(), "application".to_string()],
        plugin_closures: vec![GradleClosure {
            name: "java".to_string(),
            methods: vec![GradleMethod {
                name: "sourceCompatibility".to_string(),
                parameter_types: vec!["String".to_string()],
                deprecated: false,
            }],
            fields: vec![GradleField { name: "sourceSets".to_string(), deprecated: false }],
        }],
        script_classpaths: vec!["/p/.gradle/x.jar".to_string()],
    }
}

#[test]
fn emits_three_commands_per_project_recursively() {
    let commands = model_to_commands(&sample_project(), false);
    assert_eq!(commands.len(), 6);
    assert_eq!(commands[0].0, "gradle.setPlugins");
    assert_eq!(commands[1].0, "gradle.setClosures");
    assert_eq!(commands[2].0, "gradle.setScriptClasspaths");
    assert_eq!(at(&commands[0].1, &["0"]), &Json::string("/p"));
    assert_eq!(at(&commands[0].1, &["1", "0"]), &Json::string("java"));
    assert_eq!(at(&commands[3].1, &["0"]), &Json::string("/p/sub"));
}

#[test]
fn closure_shape_matches_language_server_contract() {
    let commands = model_to_commands(&sample_project(), false);
    let closures = at(&commands[1].1, &["1"]);
    assert_eq!(at(closures, &["0", "name"]), &Json::string("java"));
    assert_eq!(at(closures, &["0", "methods", "0", "name"]), &Json::string("sourceCompatibility"));
    assert_eq!(at(closures, &["0", "methods", "0", "parameterTypes", "0"]), &Json::string("String"));
    assert_eq!(at(closures, &["0", "methods", "0", "deprecated"]), &Json::Bool(false));
    assert_eq!(at(closures, &["0", "fields", "0", "name"]), &Json::string("sourceSets"));
}

#[test]
fn normalizes_dot_segments() {
    assert_eq!(normalize_project_path("/p/./sub/../sub", false), "/p/sub");
}

#[test]
fn normalized_paths_stay_below_the_root() {
    for (path, expected) in [
        ("/../a//b/", "/a/b"),
        ("..", ""),
        ("./a/../../b", "b"),
        ("/", "/"),
        ("", ""),
        ("/a/..", "/"),
    ] {
        assert_eq!(normalize_project_path(path, false), expected);
        assert_eq!(normalize_project_path(expected, false), expected);
        let components: std::path::PathBuf = std::path::Path::new(path).components().fold(
            std::path::PathBuf::new(),
            |mut kept, component| {
                match component {
                    std::path::Component::ParentDir => {
                        kept.pop();
                    }
                    std::path::Component::CurDir => {}
                    other => kept.push(other.as_os_str()),
                }
                kept
            },
        );
        assert_eq!(components.to_string_lossy(), expected);
    }
}

#[test]
fn reply_state_collects_stderr_and_terminal_model() {
    let stderr = BuildReply::Output { stderr: true, bytes: b"broken build".to_vec() };
    let model = GradleProject { project_path: "/project".to_string(), ..Default::default() };
    let terminal = BuildReply::Model(Some(model));
    let mut state = ReplyState::default();
    state.apply_payload(Ok(stderr)).unwrap();
    state.apply_payload(Ok(terminal)).unwrap();
    assert_eq!(state.stderr, "broken build");
    assert_eq!(state.model.unwrap().project_path, "/project");
}

#[test]
fn cancelled_reply_is_distinct_from_missing_model() {
    let mut state = ReplyState::default();
    state.apply_payload(Ok(BuildReply::Cancelled)).unwrap();
    assert!(state.cancelled);
    assert!(state.model.is_none());
}

#[test]
fn standard_output_and_unreadable_replies_are_no_errors_of_the_build() {
    let mut state = ReplyState::new();
    state.apply_payload(Ok(BuildReply::Output { stderr: false, bytes: b"x".to_vec() })).unwrap();
    state.apply_payload(Ok(BuildReply::Other)).unwrap();
    assert_eq!(state.apply_payload(Err("bad".to_string())), Err("bad".to_string()));
    assert_eq!(state.stderr, "");
    state
        .apply_payload(Ok(BuildReply::Output { stderr: true, bytes: vec![b'a', 0xff, b'b'] }))
        .unwrap();
    assert_eq!(state.stderr, "a\u{fffd}b");
    state
        .apply_payload(Ok(BuildReply::Output { stderr: true, bytes: "ä\u{1f600}".into() }))
        .unwrap();
    assert_eq!(state.stderr, "a\u{fffd}bä\u{1f600}");
}

fn outcome(events: Vec<BuildEvent>) -> (BuildOutcome, Option<String>) {
    let mut call = BuildCall::new();
    let mut action = BuildAction::Receive;
    for event in events {
        action = call.step(event);
    }
    assert_eq!(action, BuildAction::Finish);
    call.finish()
}

#[test]
fn a_build_ends_with_its_model() {
    let model = GradleProject { project_path: "/p".to_string(), ..Default::default() };
    let (result, close) = outcome(vec![
        BuildEvent::Payload(Ok(BuildReply::Other)),
        BuildEvent::Answer(Ok(Some(Ok(BuildReply::Model(Some(model)))))),
        BuildEvent::StreamEnd,
    ]);
    match result {
        BuildOutcome::Model(model) => assert_eq!(model.project_path, "/p"),
        _ => panic!("expected the model"),
    }
    assert_eq!(close, None);
}

#[test]
fn replies_that_wait_when_the_answer_comes_still_count() {
    let mut call = BuildCall::new();
    assert_eq!(call.step(BuildEvent::StreamEnd), BuildAction::AwaitAnswer);
    assert_eq!(call.step(BuildEvent::Answer(Ok(None))), BuildAction::Drain);
    assert_eq!(call.step(BuildEvent::Payload(Ok(BuildReply::Cancelled))), BuildAction::Drain);
    assert_eq!(call.step(BuildEvent::StreamEnd), BuildAction::Finish);
    assert!(matches!(call.finish().0, BuildOutcome::Cancelled));
}

#[test]
fn an_unreadable_reply_closes_the_connection() {
    let (result, close) = outcome(vec![BuildEvent::Payload(Err("eof".to_string()))]);
    let reason = "Invalid Gradle getBuild protobuf reply: eof".to_string();
    match result {
        BuildOutcome::TransportError(error) => assert_eq!(error, reason),
        _ => panic!("expected a transport error"),
    }
    assert_eq!(close, Some(reason));

    let (_, close) = outcome(vec![
        BuildEvent::Answer(Ok(Some(Err("eof".to_string())))),
        BuildEvent::StreamEnd,
    ]);
    assert!(close.is_some());
}

#[test]
fn compatibility_comes_before_the_error_of_the_answer() {
    let failure = parse_rpc_error(&json(r#"{ "code": -32603, "message": "Internal error" }"#));
    let (result, close) = outcome(vec![
        BuildEvent::Payload(Ok(BuildReply::CompatibilityError(
            "Gradle and Java are incompatible".to_string(),
        ))),
        BuildEvent::Payload(Ok(BuildReply::Output { stderr: true, bytes: b"\n a \r\n\nb".to_vec() })),
        BuildEvent::Answer(Err(failure)),
        BuildEvent::StreamEnd,
    ]);
    match result {
        BuildOutcome::Error { error, causes } => {
            assert_eq!(error, "Gradle and Java are incompatible");
            assert_eq!(causes, vec!["a", "b"]);
        }
        _ => panic!("expected an error"),
    }
    assert_eq!(close, None);
}

#[test]
fn errors_of_the_answer_end_the_build() {
    let failure = parse_rpc_error(&json(r#"{ "code": -32603, "message": "Internal error" }"#));
    match outcome(vec![BuildEvent::Answer(Err(failure)), BuildEvent::StreamEnd]).0 {
        BuildOutcome::Error { error, .. } => assert_eq!(error, "Internal error (-32603)"),
        _ => panic!("expected an error"),
    }
    let lost = RpcError::connection("gone".to_string());
    match outcome(vec![BuildEvent::Answer(Err(lost)), BuildEvent::StreamEnd]).0 {
        BuildOutcome::TransportError(error) => assert_eq!(error, "gone"),
        _ => panic!("expected a transport error"),
    }
    match outcome(vec![BuildEvent::Answer(Ok(None)), BuildEvent::StreamEnd]).0 {
        BuildOutcome::Error { error, causes } => {
            assert_eq!(error, "gradle-server returned no build model");
            assert!(causes.is_empty());
        }
        _ => panic!("expected an error"),
    }
}

#[test]
fn causes_are_the_lines_that_say_something() {
    assert_eq!(stderr_causes("  one \n\n\ttwo\t\r\n  \nthree"), vec!["one", "\ttwo", "three"]);
    assert!(stderr_causes(" \n ").is_empty());
}

#[test]
fn cancellation_is_tried_until_the_build_runs() {
    assert!(matches!(cancel_step(0, Some(Ok(false))), CancelStep::Retry));
    assert!(matches!(cancel_step(18, Some(Ok(false))), CancelStep::Retry));
    assert!(matches!(cancel_step(19, Some(Ok(false))), CancelStep::Stop));
    assert!(matches!(cancel_step(0, Some(Ok(true))), CancelStep::Stop));
    assert!(matches!(cancel_step(0, None), CancelStep::Stop));
    match cancel_step(0, Some(Err("bad".to_string()))) {
        CancelStep::Close(reason) => {
            assert_eq!(reason, "Invalid Gradle cancelBuild protobuf response: bad");
        }
        _ => panic!("expected the connection to be closed"),
    }
}

type Client = GradleJsonRpcClient<u32, u32>;

#[test]
fn requests_carry_base64_and_their_answers_come_back() {
    let mut client: Client = GradleJsonRpcClient::new();
    let stream = client.register_get_build_stream(5);
    let message = client.begin_request("gradle/getBuild", b"\x01\x02\xff", Some(stream), 9).unwrap();
    assert_eq!(
        parse_lsp_content(message.as_bytes()),
        Some(json(
            r#"{"jsonrpc": "2.0", "id": 1, "method": "gradle/getBuild",
                "params": {"request": "AQL/", "streamId": 1}}"#
        ))
    );
    match client.read_message(&frame(r#"{"id": 1, "result": {"reply": "AQL/"}}"#)) {
        ReadStep::Answer(sender, Ok(result)) => {
            assert_eq!(sender, 9);
            assert_eq!(
                decode_reply(&result, Ok(Some("AQL/".to_string()))),
                Ok(Some(b"\x01\x02\xff".to_vec()))
            );
        }
        _ => panic!("expected an answer"),
    }
    let second = client.begin_request("gradle/cancelBuild", b"", None, 10).unwrap();
    assert_eq!(
        parse_lsp_content(second.as_bytes()).unwrap().get("params"),
        Some(&json(r#"{"request": "", "streamId": null}"#))
    );
}

#[test]
fn errors_are_handed_to_whoever_made_the_request() {
    let mut client: Client = GradleJsonRpcClient::new();
    client.begin_request("m", b"", None, 9).unwrap();
    match client.read_message(&frame(
        r#"{"id": 1, "error": {"code": 7, "message": "no", "data": [1, "x"]}}"#,
    )) {
        ReadStep::Answer(9, Err(error)) => {
            assert!(!error.is_connection());
            assert_eq!(rpc_error_message(&error), "no (7): [1,\"x\"]");
        }
        _ => panic!("expected an error"),
    }
    assert_eq!(
        rpc_error_message(&parse_rpc_error(&json(r#"{"data": 1}"#))),
        "Gradle JSON-RPC request failed"
    );
    assert_eq!(
        rpc_error_message(&parse_rpc_error(&json(r#"{"code": -9223372036854775808}"#))),
        "Gradle JSON-RPC request failed (-9223372036854775808)"
    );
}

fn closes(client: &mut Client, raw: &[u8]) -> String {
    match client.read_message(raw) {
        ReadStep::Close(reason) => reason,
        _ => panic!("expected the connection to be closed"),
    }
}

#[test]
fn malformed_messages_close_the_connection() {
    let mut client: Client = GradleJsonRpcClient::new();
    assert_eq!(
        closes(&mut client, b"Content-Length: 1\r\n\r\n{"),
        "Invalid JSON on Gradle JSON-RPC connection"
    );
    assert_eq!(
        closes(&mut client, &frame(r#"{"jsonrpc": "2.0", "result": null}"#)),
        "Invalid Gradle JSON-RPC response: missing numeric id"
    );
    assert_eq!(
        closes(&mut client, &frame(r#"{"id": 3, "result": null}"#)),
        "Invalid Gradle JSON-RPC response: unknown id 3"
    );
    assert_eq!(
        closes(&mut client, &frame(r#"{"id": 3, "result": null, "error": {}}"#)),
        "Invalid Gradle JSON-RPC response: expected exactly one of result or error"
    );
    assert_eq!(
        closes(&mut client, &frame(r#"{"method": "gradle/getBuild/reply"}"#)),
        "Gradle getBuild reply is missing params"
    );
    assert!(matches!(client.read_message(&frame(r#"{"method": "log"}"#)), ReadStep::Skip));
}

#[test]
fn an_answer_settles_its_request_once() {
    let mut client: Client = GradleJsonRpcClient::new();
    client.begin_request("m", b"", None, 9).unwrap();
    let answer = frame(r#"{"id": 1, "result": null}"#);
    match client.read_message(&answer) {
        ReadStep::Answer(9, Ok(result)) => {
            assert_eq!(decode_reply(&result, Err("not read".to_string())), Ok(None));
        }
        _ => panic!("expected an answer"),
    }
    assert_eq!(
        closes(&mut client, &answer),
        "Invalid Gradle JSON-RPC response: unknown id 1"
    );
}

#[test]
fn replies_go_to_their_stream() {
    let mut client: Client = GradleJsonRpcClient::new();
    let stream = client.register_get_build_stream(5);
    assert!(matches!(
        client.read_message(&frame(
            r#"{"method": "gradle/getBuild/reply", "params": {"streamId": 1, "payload": "AQ=="}}"#
        )),
        ReadStep::Stream(_)
    ));
    assert_eq!(
        client.dispatch_get_build_reply(Ok((stream, "AQ==".to_string()))),
        Ok((Some(&5), vec![1]))
    );
    client.remove_get_build_stream(stream);
    assert_eq!(
        client.dispatch_get_build_reply(Ok((stream, "AQ==".to_string()))),
        Ok((None, vec![1]))
    );
    assert_eq!(
        client.dispatch_get_build_reply(Err("missing field".to_string())),
        Err("Invalid Gradle getBuild reply: missing field".to_string())
    );
    let error = client.dispatch_get_build_reply(Ok((stream, "not base64".to_string()))).unwrap_err();
    assert!(error.starts_with("Invalid base64 Gradle getBuild reply: "));
    assert!(client.dispatch_get_build_reply(Ok((stream, "AR==".to_string()))).is_err());
    assert!(client.dispatch_get_build_reply(Ok((stream, "AQ".to_string()))).is_err());
}

#[test]
fn unreadable_answers_are_explained() {
    assert_eq!(
        decode_reply(&json("7"), Err("invalid type".to_string())),
        Err("Invalid Gradle JSON-RPC response: invalid type".to_string())
    );
    assert!(decode_reply(&json("{}"), Ok(Some("*".to_string())))
        .unwrap_err()
        .starts_with("Invalid base64 Gradle protobuf response: "));
    assert_eq!(decode_reply(&json("{}"), Ok(None)), Ok(None));
}

#[test]
fn a_closed_connection_takes_no_request() {
    let mut client: Client = GradleJsonRpcClient::new();
    client.begin_request("m", b"", None, 8).unwrap();
    client.begin_request("m", b"", None, 9).unwrap();
    assert!(!client.is_closed());
    assert_eq!(client.close(), Some(vec![8, 9]));
    assert_eq!(client.close(), None);
    assert!(client.is_closed());
    let error = client.begin_request("m", b"", None, 10).unwrap_err();
    assert!(error.is_connection());
    assert_eq!(error.message, "Gradle JSON-RPC connection is closed");
}

#[test]
fn a_new_connection_takes_the_place_of_the_one_before() {
    let mut connections: Connections<&str> = Connections::new();
    assert_eq!(connections.publish("first"), (1, None));
    assert_eq!(connections.publish("second"), (2, Some("first")));
    assert!(!connections.retire(1));
    assert_eq!(connections.current, Some((2, "second")));
    assert!(connections.retire(2));
    assert!(connections.current.is_none());
}

#[test]
fn the_environment_says_how_gradle_runs() {
    let variable = |name: &str, value: &str| (name.to_string(), value.to_string());
    let config = DistributionConfig::from_env(&vec![
        variable("GRADLE_SYNC_VERSION", "8.5"),
        variable("GRADLE_SYNC_WRAPPER_ENABLED", "FaLsE"),
        variable("GRADLE_SYNC_USER_HOME", "/u"),
    ]);
    assert!(!config.wrapper_enabled);
    let told = config.to_gradle_config();
    assert_eq!(told.version, "8.5");
    assert_eq!(told.user_home, "/u");
    assert_eq!(told.gradle_home, "");
    assert_eq!(told.java_extension_version, "3.18.0");
    assert!(DistributionConfig::from_env(&vec![]).wrapper_enabled);
    assert!(DistributionConfig::from_env(&vec![variable("GRADLE_SYNC_WRAPPER_ENABLED", "no")])
        .wrapper_enabled);
}

#[test]
fn socket_paths_are_kept_short() {
    assert_eq!(socket_directory("/tmp", 12, 0xabc, false), "/tmp/gradle-ls-12-abc");
    let long = format!("/{}", "x".repeat(90));
    assert_eq!(socket_directory(&long, 12, 0, false), "/tmp/gradle-ls-12-0");
    let edge = format!("/{}", "x".repeat(107 - 1 - "/gradle-ls-1-0/task.sock".len()));
    assert_eq!(socket_directory(&edge, 1, 0, false), format!("{edge}/gradle-ls-1-0"));
    assert_eq!(socket_directory(&edge, 1, 0, true), "/tmp/gradle-ls-1-0");
    assert_eq!(windows_pipe_name("task", 3, 255), r"\\.\pipe\gradle-ls-3-ff-task");
}

#[test]
fn the_bridge_needs_java_and_a_class_path() {
    let parsed = parse_args(&strings(&["java", "-x", "-cp", "a:b"])).unwrap();
    assert_eq!((parsed.java.as_str(), parsed.classpath.as_str()), ("java", "a:b"));
    assert_eq!(parse_args(&strings(&["java"])).unwrap_err(), ArgumentError::Usage);
    assert_eq!(parse_args(&vec![]).unwrap_err(), ArgumentError::Usage);
    assert_eq!(
        parse_args(&strings(&["java", "-cp"])).unwrap_err(),
        ArgumentError::MissingClasspath
    );
    assert_eq!(
        server_arguments("c", "t", "l", 42),
        strings(&[
            "-Dfile.encoding=UTF-8",
            "-cp",
            "c",
            "com.github.badsyntax.gradle.GradleServer",
            "--pipe=t",
            "--parentPid=42",
            "--startBuildServer=false",
            "--languageServerPipePath=l",
        ])
    );
}

#[test]
fn windows_project_paths_are_normalised() {
    for (path, expected) in [
        (r"C:\p\.\sub", r"C:\p\sub"),
        (r"C:/p/a/../sub/", r"C:\p\sub"),
        (r"C:\..\p", r"C:\p"),
        (r"C:", r"C:"),
        (r"c:p\..\..\q", r"c:q"),
        (r"\\server\share\a\..\b", r"\\server\share\b"),
        (r"\\server\share", r"\\server\share\"),
        (r"//server/share/x", r"//server/share\x"),
        (r"\\server", r"\server"),
        (r"\\.\COM1", r"\\.\COM1\"),
        (r"\\?\C:\p\.\q", r"\\?\C:\p\q"),
        (r"\\?\UNC\server\share\p\..", r"\\?\UNC\server\share\"),
        (r"\\?\pictures\kittens", r"\\?\pictures\kittens"),
        (r"a/b\..\c", r"a\c"),
        (r"\p\D:x\y", r"D:x\y"),
        (r"..", r""),
        (r"", r""),
    ] {
        assert_eq!(normalize_project_path(path, true), expected);
    }
    let commands = model_to_commands(
        &GradleProject { project_path: r"C:\p\.\sub".to_string(), ..Default::default() },
        true,
    );
    assert_eq!(commands[0].1.to_text(), r#"["C:\\p\\sub",[]]"#);
}
