//! Translation providers.

use translator_core::error::{CoreError, IoFailure, IoKind};
use translator_core::translation::apple::{
    AppleTranslator, BridgeEvent, BridgeResponse, BridgeStep, ConnectOutcome, RequestOutcome,
};
use translator_core::translation::mock::MockTranslator;
use translator_core::translation::{create, Provider, Translator, TranslatorOptions};

fn options() -> TranslatorOptions {
    TranslatorOptions {
        source_language: "en".into(),
        target_language: "zh-Hans".into(),
    }
}

fn apple() -> AppleTranslator {
    AppleTranslator::new(options(), None)
}

fn response(ok: bool) -> BridgeResponse {
    BridgeResponse {
        id: 1,
        ok,
        text: None,
        error: None,
        system_version: None,
        status: None,
    }
}

#[test]
fn mock_translator_marks_output() {
    let mut t = MockTranslator;
    let out = t.translate("hello world").unwrap();
    assert_eq!(out, "[mock-zh] hello world");
    assert_eq!(t.name(), "mock");
}

#[test]
fn unknown_provider_is_rejected() {
    let result = create("bogus", options(), None);
    assert!(matches!(result, Err(CoreError::Unsupported(_))));
    assert_eq!(
        result.unwrap_err(),
        CoreError::Unsupported(
            "translation provider `bogus` is not wired up (known: `mock`, `apple-translate`)"
                .into()
        )
    );
}

#[test]
fn missing_bridge_fails_fast_with_hint() {
    // A path nothing listens on.
    let mut t = AppleTranslator::new(options(), Some("/tmp/no-such-bridge-socket.sock".into()));
    assert_eq!(t.connect(BridgeEvent::Start), BridgeStep::Reach);
    let outcome = ConnectOutcome::Failed { reason: "No such file or directory".into() };
    let err = match t.connect(BridgeEvent::Reached(outcome)) {
        BridgeStep::Failed(err) => err,
        step => panic!("connect must fail: {step:?}"),
    };
    assert!(err.message().contains("bridge"), "{}", err.message());
    assert_eq!(
        err.message(),
        "provider failure: cannot reach the apple-translate bridge at \
         /tmp/no-such-bridge-socket.sock: No such file or directory"
    );
    assert!(t.needs_connection());
    assert_eq!(
        t.reached(ConnectOutcome::TimedOut),
        Err(CoreError::Provider(
            "connecting to the apple-translate bridge at /tmp/no-such-bridge-socket.sock timed \
             out; is translator-bridge running?"
                .into()
        ))
    );
}

#[test]
fn translators_are_chosen_by_name() {
    assert_eq!(create("mock", options(), None), Ok(Provider::Mock(MockTranslator)));
    let chosen = create("apple-translate", options(), Some("/s".into())).unwrap();
    assert_eq!(chosen.name(), "apple-translate");
    match chosen {
        Provider::Apple(apple) => assert_eq!(apple.path(), "/s"),
        Provider::Mock(_) => panic!("not what was asked for"),
    }
    assert_eq!(apple().path(), "/tmp/translator-bridge-v1.sock");
    assert_eq!(apple().name(), "apple-translate");
}

#[test]
fn requests_are_numbered_lines() {
    let mut t = apple();
    assert_eq!(t.reached(ConnectOutcome::Connected), Ok(()));
    assert!(!t.needs_connection());
    assert_eq!(
        t.request("capabilities", ""),
        "{\"id\":1,\"op\":\"capabilities\",\"text\":\"\",\"source\":\"en\",\"target\":\"zh-Hans\"}\n"
    );
    let line = t.request("translate", "say \"hi\"\\\n\ttab \u{1} 你好 \u{7f}/");
    assert_eq!(
        line,
        "{\"id\":2,\"op\":\"translate\",\"text\":\"say \\\"hi\\\"\\\\\\n\\ttab \\u0001 你好 \u{7f}/\",\
         \"source\":\"en\",\"target\":\"zh-Hans\"}\n"
    );
    assert_eq!(line.matches('\n').count(), 1);
}

#[test]
fn requests_are_json() {
    let mut t = AppleTranslator::new(
        TranslatorOptions { source_language: "a\"b".into(), target_language: "\u{1b}".into() },
        None,
    );
    let all: String = (0u32..0x200).filter_map(char::from_u32).collect();
    let line = t.request("op", &all);
    let value: serde_json::Value = serde_json::from_str(&line).unwrap();
    assert_eq!(value["id"], 1);
    assert_eq!(value["op"], "op");
    assert_eq!(value["text"], all.as_str());
    assert_eq!(value["source"], "a\"b");
    assert_eq!(value["target"], "\u{1b}");
}

#[test]
fn a_failed_request_gives_the_connection_up() {
    let failed = |outcome: RequestOutcome| {
        let mut t = apple();
        t.reached(ConnectOutcome::Connected).unwrap();
        t.request("translate", "x");
        let error = t.answered("translate", outcome).unwrap_err();
        assert!(t.needs_connection());
        error
    };
    assert_eq!(
        failed(RequestOutcome::Closed),
        CoreError::Provider("apple-translate bridge closed the connection".into())
    );
    assert_eq!(
        failed(RequestOutcome::Malformed { reason: "expected value".into() }),
        CoreError::Provider("bad bridge response: expected value".into())
    );
    assert_eq!(
        failed(RequestOutcome::TimedOut),
        CoreError::Provider(
            "apple-translate bridge did not answer `translate` within 120s".into()
        )
    );
    let io = || IoFailure { kind: IoKind::BrokenPipe, os_code: Some(32), message: "m".into() };
    assert_eq!(failed(RequestOutcome::Failed(io())), CoreError::Io(io()));
}

#[test]
fn an_answer_keeps_the_connection() {
    let mut t = apple();
    t.reached(ConnectOutcome::Connected).unwrap();
    assert_eq!(
        t.answered("translate", RequestOutcome::Answered(response(true))),
        Ok(response(true))
    );
    assert!(!t.needs_connection());
}

#[test]
fn language_pairs_are_probed() {
    let t = apple();
    assert_eq!(t.probed(&response(true)), Ok(()));
    let installed = BridgeResponse { status: Some("installed".into()), ..response(true) };
    assert_eq!(t.probed(&installed), Ok(()));
    assert_eq!(
        t.probed(&response(false)),
        Err(CoreError::Unsupported(
            "apple-translate bridge rejected language pair en→zh-Hans: unknown error".into()
        ))
    );
    let refused = BridgeResponse { error: Some("no".into()), ..response(false) };
    assert_eq!(
        t.probed(&refused),
        Err(CoreError::Unsupported(
            "apple-translate bridge rejected language pair en→zh-Hans: no".into()
        ))
    );
    let missing = BridgeResponse { status: Some("supported".into()), ..response(true) };
    assert_eq!(
        t.probed(&missing),
        Err(CoreError::Unsupported(
            "language assets for en → zh-Hans are not installed (status: supported); \
             install them once via any app that offers system translation \
             (e.g. Safari's translate button), then restart the session"
                .into()
        ))
    );
}

#[test]
fn translations_come_back() {
    let t = apple();
    let good = BridgeResponse { text: Some("你好".into()), ..response(true) };
    assert_eq!(t.translated(good), Ok("你好".to_string()));
    assert_eq!(t.translated(response(true)), Ok(String::new()));
    assert_eq!(
        t.translated(response(false)),
        Err(CoreError::Provider("apple-translate failed: unknown error".into()))
    );
}

fn asked(outcome: RequestOutcome) -> BridgeEvent {
    BridgeEvent::Asked(outcome)
}

#[test]
fn connecting_needs_a_good_answer() {
    let ready = |reply: RequestOutcome| {
        let mut t = apple();
        assert_eq!(t.connect(BridgeEvent::Start), BridgeStep::Reach);
        let line = "{\"id\":1,\"op\":\"capabilities\",\"text\":\"\",\"source\":\"en\",\
                    \"target\":\"zh-Hans\"}\n";
        assert_eq!(
            t.connect(BridgeEvent::Reached(ConnectOutcome::Connected)),
            BridgeStep::Ask(line.to_string())
        );
        t.connect(asked(reply))
    };
    let installed = BridgeResponse { status: Some("installed".into()), ..response(true) };
    assert_eq!(ready(RequestOutcome::Answered(installed)), BridgeStep::Ready);
    assert_eq!(ready(RequestOutcome::Answered(response(true))), BridgeStep::Ready);
    let missing = BridgeResponse { status: Some("supported".into()), ..response(true) };
    for reply in [
        RequestOutcome::Answered(missing),
        RequestOutcome::Answered(response(false)),
        RequestOutcome::Closed,
        RequestOutcome::TimedOut,
    ] {
        assert!(matches!(ready(reply), BridgeStep::Failed(_)));
    }
}

#[test]
fn translating_reconnects_after_a_failure() {
    let mut t = apple();
    t.connect(BridgeEvent::Reached(ConnectOutcome::Connected));
    assert_eq!(t.translate(" \n", BridgeEvent::Start), BridgeStep::Translated(String::new()));
    assert!(matches!(t.translate("hi", BridgeEvent::Start), BridgeStep::Ask(line)
        if line.starts_with("{\"id\":2,\"op\":\"translate\",\"text\":\"hi\"")));
    let good = BridgeResponse { text: Some("你好".into()), ..response(true) };
    assert_eq!(
        t.translate("hi", asked(RequestOutcome::Answered(good))),
        BridgeStep::Translated("你好".into())
    );
    assert_eq!(
        t.translate("hi", asked(RequestOutcome::Answered(response(false)))),
        BridgeStep::Failed(CoreError::Provider("apple-translate failed: unknown error".into()))
    );
    assert!(!t.needs_connection());
    assert_eq!(
        t.translate("hi", asked(RequestOutcome::Closed)),
        BridgeStep::Failed(CoreError::Provider(
            "apple-translate bridge closed the connection".into()
        ))
    );
    assert_eq!(t.translate("hi", BridgeEvent::Start), BridgeStep::Reach);
    assert!(matches!(
        t.translate("hi", BridgeEvent::Reached(ConnectOutcome::TimedOut)),
        BridgeStep::Failed(_)
    ));
    assert!(matches!(
        t.translate("hi", BridgeEvent::Reached(ConnectOutcome::Connected)),
        BridgeStep::Ask(line) if line.starts_with("{\"id\":3,")
    ));
}
