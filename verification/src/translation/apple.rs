//! Client for the macOS translation bridge (`translator-bridge`).
//!
//! The bridge is a separate helper process that serves one JSON line per request over
//! a Unix socket:
//!
//! ```text
//! -> {"id":1,"op":"translate","text":"...","source":"en","target":"zh-Hans"}
//! <- {"id":1,"ok":true,"text":"你好"}
//! ```
//!
//! `capabilities` carries the system version and the availability of the requested
//! pair, so a misconfigured session fails fast with a clear error instead of producing
//! untranslated subtitles.
//!
//! What is said over the socket is decided here; connecting, sending and receiving is
//! the caller's.

use crate::error::{CoreError, ErrorView, IoFailure, Result};
use crate::text;
use crate::translation::TranslatorOptions;
use vstd::prelude::*;

verus! {

/// Socket the bridge listens on unless the environment says otherwise.
pub const DEFAULT_SOCKET: &'static str = "/tmp/translator-bridge-v1.sock";

/// How long connecting may take, in seconds.
pub const CONNECT_TIMEOUT_SECS: u64 = 5;

/// How long an answer may take, in seconds. Long enough to cover a first-use language
/// asset download.
pub const REQUEST_TIMEOUT_SECS: u64 = 120;

/// The request that asks what the bridge can do.
pub const PROBE_OP: &'static str = "capabilities";

/// The request that asks for a translation.
pub const TRANSLATE_OP: &'static str = "translate";

// ---------------------------------------------------------------------------
// JSON strings
// ---------------------------------------------------------------------------

/// The type that `serde_json` reports failures with.
#[verifier::external_type_specification]
#[verifier::external_body]
pub struct ExJsonError(serde_json::Error);

/// A hexadecimal digit, in lower case.
pub open spec fn hex_digit(d: int) -> char {
    if d < 10 {
        ('0' as u32 + d) as char
    } else {
        ('a' as u32 + (d - 10)) as char
    }
}

/// A character inside a JSON string: quotes, backslashes and control characters are
/// escaped.
pub open spec fn json_char(c: char) -> Seq<char> {
    let code = c as u32;
    if c == '"' || c == '\\' {
        seq!['\\', c]
    } else if code == 0x08 {
        seq!['\\', 'b']
    } else if code == 0x09 {
        seq!['\\', 't']
    } else if code == 0x0A {
        seq!['\\', 'n']
    } else if code == 0x0C {
        seq!['\\', 'f']
    } else if code == 0x0D {
        seq!['\\', 'r']
    } else if code < 0x20 {
        seq!['\\', 'u', '0', '0', hex_digit(code as int / 16), hex_digit(code as int % 16)]
    } else {
        seq![c]
    }
}

/// The characters of a text inside a JSON string.
pub open spec fn json_chars(s: Seq<char>) -> Seq<char>
    decreases s.len(),
{
    if s.len() == 0 {
        Seq::empty()
    } else {
        json_chars(s.drop_last()) + json_char(s.last())
    }
}

/// A text as a JSON string.
pub open spec fn json_string(s: Seq<char>) -> Seq<char> {
    seq!['"'] + json_chars(s) + seq!['"']
}

/// `serde_json::to_string` of a `str` puts it between quotes and escapes quotes,
/// backslashes and control characters, which [`json_char`] lists. It writes into
/// memory and does not fail.
#[verifier::external_body]
fn quote(text: &str) -> (quoted: std::result::Result<String, serde_json::Error>)
    ensures
        quoted matches Ok(quoted) && quoted@ == json_string(text@),
{
    serde_json::to_string(text)
}

/// A text as a JSON string.
fn quoted(text: &str) -> (quoted: String)
    ensures
        quoted@ == json_string(text@),
{
    match quote(text) {
        Ok(quoted) => quoted,
        Err(_) => String::new(),
    }
}

// ---------------------------------------------------------------------------
// The conversation
// ---------------------------------------------------------------------------

/// An answer of the bridge.
#[derive(Debug, PartialEq)]
pub struct BridgeResponse {
    pub id: u64,
    pub ok: bool,
    pub text: Option<String>,
    pub error: Option<String>,
    pub system_version: Option<String>,
    pub status: Option<String>,
}

/// What came of connecting.
#[derive(Debug, PartialEq)]
pub enum ConnectOutcome {
    Connected,
    TimedOut,
    Failed { reason: String },
}

/// What came of a request.
#[derive(Debug, PartialEq)]
pub enum RequestOutcome {
    /// An answer.
    Answered(BridgeResponse),
    /// The connection ended without one.
    Closed,
    /// The answer is none that the bridge gives.
    Malformed { reason: String },
    /// Sending or receiving failed.
    Failed(IoFailure),
    /// No answer came in time.
    TimedOut,
}

/// What happens while the bridge is talked to.
#[derive(Debug, PartialEq)]
pub enum BridgeEvent {
    /// Nothing yet.
    Start,
    /// The bridge was to be reached.
    Reached(ConnectOutcome),
    /// The bridge was asked.
    Asked(RequestOutcome),
}

/// What is to be done next.
#[derive(Debug, PartialEq)]
pub enum BridgeStep {
    /// Connect to the bridge.
    Reach,
    /// Send the line and wait for the answer.
    Ask(String),
    /// Nothing: the translator can be used.
    Ready,
    /// Nothing: this is the translation.
    Translated(String),
    /// Nothing: it did not work.
    Failed(CoreError),
}

/// The model of [`BridgeStep`].
#[verifier::ext_equal]
pub enum BridgeStepView {
    Reach,
    Ask(Seq<char>),
    Ready,
    Translated(Seq<char>),
    Failed(ErrorView),
}

impl View for BridgeStep {
    type V = BridgeStepView;

    open spec fn view(&self) -> BridgeStepView {
        match self {
            BridgeStep::Reach => BridgeStepView::Reach,
            BridgeStep::Ask(line) => BridgeStepView::Ask(line@),
            BridgeStep::Ready => BridgeStepView::Ready,
            BridgeStep::Translated(text) => BridgeStepView::Translated(text@),
            BridgeStep::Failed(error) => BridgeStepView::Failed(error@),
        }
    }
}

/// The model of [`AppleTranslator`].
#[verifier::ext_equal]
pub struct AppleView {
    pub connected: bool,
    pub path: Seq<char>,
    pub source: Seq<char>,
    pub target: Seq<char>,
    /// The number of the last request.
    pub next_id: u64,
}

impl AppleView {
    /// A translator that is not connected yet.
    pub open spec fn initial(
        source: Seq<char>,
        target: Seq<char>,
        socket: Option<Seq<char>>,
    ) -> AppleView {
        AppleView {
            connected: false,
            path: match socket {
                Some(path) => path,
                None => DEFAULT_SOCKET@,
            },
            source,
            target,
            next_id: 0,
        }
    }

    /// The line that asks for `op`.
    pub open spec fn line(self, id: u64, op: Seq<char>, text: Seq<char>) -> Seq<char> {
        "{\"id\":"@ + text::decimal_text(id as nat) + ",\"op\":"@ + json_string(op)
            + ",\"text\":"@ + json_string(text) + ",\"source\":"@ + json_string(self.source)
            + ",\"target\":"@ + json_string(self.target) + "}\n"@
    }

    /// The next request is sent.
    pub open spec fn asking(self, op: Seq<char>, text: Seq<char>) -> (AppleView, BridgeStepView) {
        let id = self.next_id.wrapping_add(1);
        (AppleView { next_id: id, ..self }, BridgeStepView::Ask(self.line(id, op, text)))
    }

    /// What follows before an answer to `op` is there: the bridge is reached first where
    /// there is no connection.
    pub open spec fn towards(
        self,
        op: Seq<char>,
        text: Seq<char>,
        reached: Option<ConnectOutcome>,
    ) -> (AppleView, BridgeStepView) {
        match reached {
            None => if self.connected {
                self.asking(op, text)
            } else {
                (self, BridgeStepView::Reach)
            },
            Some(outcome) => match self.connect_error(outcome) {
                Some(error) => (self, BridgeStepView::Failed(error)),
                None => AppleView { connected: true, ..self }.asking(op, text),
            },
        }
    }

    /// What follows while connecting: the bridge is reached and asked what it can do, and
    /// its answer says whether the translator can be used.
    pub open spec fn connecting(self, event: BridgeEvent) -> (AppleView, BridgeStepView) {
        match event {
            BridgeEvent::Start => self.towards(PROBE_OP@, Seq::empty(), None),
            BridgeEvent::Reached(outcome) => self.towards(PROBE_OP@, Seq::empty(), Some(outcome)),
            BridgeEvent::Asked(RequestOutcome::Answered(response)) => (
                self,
                match self.probe_error(response) {
                    Some(error) => BridgeStepView::Failed(error),
                    None => BridgeStepView::Ready,
                },
            ),
            BridgeEvent::Asked(outcome) => (
                AppleView { connected: false, ..self },
                BridgeStepView::Failed(request_error(PROBE_OP@, outcome)->0),
            ),
        }
    }

    /// What follows while a text is translated. One that says nothing is not asked about.
    pub open spec fn translating(self, text: Seq<char>, event: BridgeEvent) -> (
        AppleView,
        BridgeStepView,
    ) {
        match event {
            BridgeEvent::Start => if text::trimmed(text).len() == 0 {
                (self, BridgeStepView::Translated(Seq::empty()))
            } else {
                self.towards(TRANSLATE_OP@, text, None)
            },
            BridgeEvent::Reached(outcome) => self.towards(TRANSLATE_OP@, text, Some(outcome)),
            BridgeEvent::Asked(RequestOutcome::Answered(response)) => (
                self,
                translation_in(response),
            ),
            BridgeEvent::Asked(outcome) => (
                AppleView { connected: false, ..self },
                BridgeStepView::Failed(request_error(TRANSLATE_OP@, outcome)->0),
            ),
        }
    }

    /// The error where the bridge did not let connect; `None` where it did.
    pub open spec fn connect_error(self, outcome: ConnectOutcome) -> Option<ErrorView> {
        match outcome {
            ConnectOutcome::Connected => None,
            ConnectOutcome::TimedOut => Some(
                ErrorView::Provider(
                    "connecting to the apple-translate bridge at "@ + self.path
                        + " timed out; is translator-bridge running?"@,
                ),
            ),
            ConnectOutcome::Failed { reason } => Some(
                ErrorView::Provider(
                    "cannot reach the apple-translate bridge at "@ + self.path + ": "@ + reason@,
                ),
            ),
        }
    }

    /// The error where the bridge cannot translate the pair; `None` where it can.
    pub open spec fn probe_error(self, response: BridgeResponse) -> Option<ErrorView> {
        if !response.ok {
            Some(
                ErrorView::Unsupported(
                    "apple-translate bridge rejected language pair "@ + self.source + "→"@
                        + self.target + ": "@ + reason_of(response),
                ),
            )
        } else {
            match response.status {
                Some(status) => if status@ == "installed"@ {
                    None
                } else {
                    Some(
                        ErrorView::Unsupported(
                            "language assets for "@ + self.source + " → "@ + self.target
                                + " are not installed (status: "@ + status@ + INSTALL_HINT@,
                        ),
                    )
                },
                None => None,
            }
        }
    }
}

/// The translation in an answer.
pub open spec fn translation_in(response: BridgeResponse) -> BridgeStepView {
    if response.ok {
        BridgeStepView::Translated(
            match response.text {
                Some(text) => text@,
                None => Seq::empty(),
            },
        )
    } else {
        BridgeStepView::Failed(
            ErrorView::Provider("apple-translate failed: "@ + reason_of(response)),
        )
    }
}

/// What to do about missing language assets.
pub const INSTALL_HINT: &'static str =
    "); install them once via any app that offers system translation (e.g. Safari's translate button), then restart the session";

/// Why the bridge refused.
pub open spec fn reason_of(response: BridgeResponse) -> Seq<char> {
    match response.error {
        Some(error) => error@,
        None => "unknown error"@,
    }
}

/// The error where a request brought no answer; `None` where it did.
pub open spec fn request_error(op: Seq<char>, outcome: RequestOutcome) -> Option<ErrorView> {
    match outcome {
        RequestOutcome::Answered(_) => None,
        RequestOutcome::Closed => Some(
            ErrorView::Provider("apple-translate bridge closed the connection"@),
        ),
        RequestOutcome::Malformed { reason } => Some(
            ErrorView::Provider("bad bridge response: "@ + reason@),
        ),
        RequestOutcome::Failed(io) => Some(CoreError::Io(io)@),
        RequestOutcome::TimedOut => Some(
            ErrorView::Provider(
                "apple-translate bridge did not answer `"@ + op + "` within "@
                    + text::decimal_text(REQUEST_TIMEOUT_SECS as nat) + "s"@,
            ),
        ),
    }
}

/// Talks to the bridge about one language pair.
#[derive(Debug, PartialEq)]
pub struct AppleTranslator {
    /// Whether there is a live connection; not after a failure, so the next request
    /// reconnects once.
    connected: bool,
    path: String,
    source: String,
    target: String,
    next_id: u64,
}

impl View for AppleTranslator {
    type V = AppleView;

    closed spec fn view(&self) -> AppleView {
        AppleView {
            connected: self.connected,
            path: self.path@,
            source: self.source@,
            target: self.target@,
            next_id: self.next_id,
        }
    }
}

impl AppleTranslator {
    /// A translator that is not connected yet. `socket` is where the environment says
    /// that the bridge listens.
    pub fn new(opts: TranslatorOptions, socket: Option<String>) -> (apple: AppleTranslator)
        ensures
            apple@ == AppleView::initial(
                opts.source_language@,
                opts.target_language@,
                text::optional(socket),
            ),
    {
        let path: String = match socket {
            Some(path) => path,
            None => DEFAULT_SOCKET.to_string(),
        };
        AppleTranslator {
            connected: false,
            path,
            source: opts.source_language,
            target: opts.target_language,
            next_id: 0,
        }
    }

    /// The name of the provider.
    pub fn name(&self) -> (name: &'static str)
        ensures
            name@ == "apple-translate"@,
    {
        "apple-translate"
    }

    /// Where the bridge listens.
    pub fn path(&self) -> (path: &str)
        ensures
            path@ == self@.path,
    {
        self.path.as_str()
    }

    /// Whether a connection has to be made before the next request.
    pub fn needs_connection(&self) -> (needed: bool)
        ensures
            needed == !self@.connected,
    {
        !self.connected
    }

    /// What came of reaching the bridge.
    pub fn reached(&mut self, outcome: ConnectOutcome) -> (result: Result<()>)
        ensures
            crate::error::failure(result) == old(self)@.connect_error(outcome),
            final(self)@ == (AppleView {
                connected: old(self)@.connected || outcome is Connected,
                ..old(self)@
            }),
    {
        match outcome {
            ConnectOutcome::Connected => {
                self.connected = true;
                Ok(())
            },
            ConnectOutcome::TimedOut => {
                let mut message: String = text::appended(
                    "connecting to the apple-translate bridge at ",
                    self.path.as_str(),
                );
                message.append(" timed out; is translator-bridge running?");
                Err(CoreError::Provider(message))
            },
            ConnectOutcome::Failed { reason } => {
                let mut message: String = text::appended(
                    "cannot reach the apple-translate bridge at ",
                    self.path.as_str(),
                );
                message.append(": ");
                message.append(reason.as_str());
                Err(CoreError::Provider(message))
            },
        }
    }

    /// The next request: the line to send.
    pub fn request(&mut self, op: &str, text: &str) -> (line: String)
        ensures
            final(self)@ == (AppleView {
                next_id: old(self)@.next_id.wrapping_add(1),
                ..old(self)@
            }),
            line@ == old(self)@.line(final(self)@.next_id, op@, text@),
    {
        self.next_id = self.next_id.wrapping_add(1);
        let mut line: String = text::appended("{\"id\":", text::decimal(self.next_id).as_str());
        line.append(",\"op\":");
        line.append(quoted(op).as_str());
        line.append(",\"text\":");
        line.append(quoted(text).as_str());
        line.append(",\"source\":");
        line.append(quoted(self.source.as_str()).as_str());
        line.append(",\"target\":");
        line.append(quoted(self.target.as_str()).as_str());
        line.append("}\n");
        line
    }

    /// What came of a request. The connection is given up on any failure; the socket
    /// state is no longer trustworthy then.
    pub fn answered(&mut self, op: &str, outcome: RequestOutcome) -> (result: Result<
        BridgeResponse,
    >)
        ensures
            final(self)@ == (AppleView {
                connected: old(self)@.connected && outcome is Answered,
                ..old(self)@
            }),
            match result {
                Ok(response) => outcome == RequestOutcome::Answered(response),
                Err(error) => request_error(op@, outcome) == Some(error@),
            },
    {
        let error: CoreError = match outcome {
            RequestOutcome::Answered(response) => {
                return Ok(response);
            },
            RequestOutcome::Closed => CoreError::Provider(
                "apple-translate bridge closed the connection".to_string(),
            ),
            RequestOutcome::Malformed { reason } => CoreError::Provider(
                text::appended("bad bridge response: ", reason.as_str()),
            ),
            RequestOutcome::Failed(io) => CoreError::Io(io),
            RequestOutcome::TimedOut => {
                let mut message: String = text::appended(
                    "apple-translate bridge did not answer `",
                    op,
                );
                message.append("` within ");
                message.append(text::decimal(REQUEST_TIMEOUT_SECS).as_str());
                message.append("s");
                CoreError::Provider(message)
            },
        };
        self.connected = false;
        Err(error)
    }

    /// Whether the answer to `capabilities` says that the pair can be translated.
    pub fn probed(&self, response: &BridgeResponse) -> (result: Result<()>)
        ensures
            crate::error::failure(result) == self@.probe_error(*response),
    {
        if !response.ok {
            let mut message: String = text::appended(
                "apple-translate bridge rejected language pair ",
                self.source.as_str(),
            );
            message.append("→");
            message.append(self.target.as_str());
            message.append(": ");
            message.append(refusal_reason(response).as_str());
            return Err(CoreError::Unsupported(message));
        }
        if let Some(status) = &response.status {
            if !text::same_text(status.as_str(), "installed") {
                let mut message: String = text::appended(
                    "language assets for ",
                    self.source.as_str(),
                );
                message.append(" → ");
                message.append(self.target.as_str());
                message.append(" are not installed (status: ");
                message.append(status.as_str());
                message.append(INSTALL_HINT);
                return Err(CoreError::Unsupported(message));
            }
        }
        Ok(())
    }

    /// Ask for `op`, or reach the bridge first where there is no connection.
    fn start(&mut self, op: &str, text: &str) -> (step: BridgeStep)
        ensures
            (final(self)@, step@) == old(self)@.towards(op@, text@, None),
    {
        if self.connected {
            BridgeStep::Ask(self.request(op, text))
        } else {
            BridgeStep::Reach
        }
    }

    /// Ask for `op` once the bridge was reached.
    fn go_on(&mut self, op: &str, text: &str, outcome: ConnectOutcome) -> (step: BridgeStep)
        ensures
            (final(self)@, step@) == old(self)@.towards(op@, text@, Some(outcome)),
    {
        match self.reached(outcome) {
            Ok(_) => BridgeStep::Ask(self.request(op, text)),
            Err(error) => BridgeStep::Failed(error),
        }
    }

    /// Connect to the bridge and probe the language pair, so a bad session fails at
    /// start and not mid-subtitle: what is to be done after `event`.
    pub fn connect(&mut self, event: BridgeEvent) -> (step: BridgeStep)
        ensures
            (final(self)@, step@) == old(self)@.connecting(event),
    {
        proof {
            reveal_strlit("");
            assert(""@ =~= Seq::empty());
        }
        match event {
            BridgeEvent::Start => self.start(PROBE_OP, ""),
            BridgeEvent::Reached(outcome) => self.go_on(PROBE_OP, "", outcome),
            BridgeEvent::Asked(outcome) => match self.answered(PROBE_OP, outcome) {
                Ok(response) => match self.probed(&response) {
                    Ok(_) => BridgeStep::Ready,
                    Err(error) => BridgeStep::Failed(error),
                },
                Err(error) => BridgeStep::Failed(error),
            },
        }
    }

    /// Translate one stable segment: what is to be done after `event`.
    pub fn translate(&mut self, text: &str, event: BridgeEvent) -> (step: BridgeStep)
        ensures
            (final(self)@, step@) == old(self)@.translating(text@, event),
    {
        match event {
            BridgeEvent::Start => {
                if text::is_blank(text::trim(text).as_str()) {
                    return BridgeStep::Translated(String::new());
                }
                self.start(TRANSLATE_OP, text)
            },
            BridgeEvent::Reached(outcome) => self.go_on(TRANSLATE_OP, text, outcome),
            BridgeEvent::Asked(outcome) => match self.answered(TRANSLATE_OP, outcome) {
                Ok(response) => match self.translated(response) {
                    Ok(translated) => BridgeStep::Translated(translated),
                    Err(error) => BridgeStep::Failed(error),
                },
                Err(error) => BridgeStep::Failed(error),
            },
        }
    }

    /// The translation in the answer to `translate`.
    pub fn translated(&self, response: BridgeResponse) -> (result: Result<String>)
        ensures
            match result {
                Ok(translated) => response.ok && translated@ == match response.text {
                    Some(text) => text@,
                    None => Seq::empty(),
                },
                Err(error) => !response.ok && error@ == ErrorView::Provider(
                    "apple-translate failed: "@ + reason_of(response),
                ),
            },
    {
        if response.ok {
            return Ok(
                match response.text {
                    Some(text) => text,
                    None => String::new(),
                },
            );
        }
        Err(
            CoreError::Provider(
                text::appended("apple-translate failed: ", refusal_reason(&response).as_str()),
            ),
        )
    }
}

/// Why the bridge refused.
fn refusal_reason(response: &BridgeResponse) -> (reason: String)
    ensures
        reason@ == reason_of(*response),
{
    match &response.error {
        Some(error) => error.clone(),
        None => "unknown error".to_string(),
    }
}

// ---------------------------------------------------------------------------
// Laws
// ---------------------------------------------------------------------------

/// Whether a text holds no line feed.
pub open spec fn one_line(s: Seq<char>) -> bool {
    forall|i: int| 0 <= i < s.len() ==> #[trigger] s[i] != '\n'
}

/// A JSON string holds no line feed, whatever the text.
pub proof fn law_json_one_line(s: Seq<char>)
    ensures
        one_line(json_chars(s)),
        one_line(json_string(s)),
    decreases s.len(),
{
    if s.len() > 0 {
        law_json_one_line(s.drop_last());
        assert(one_line(json_char(s.last())));
    }
}

/// Decimal digits hold no line feed.
proof fn lemma_decimal_one_line(n: nat)
    ensures
        one_line(text::decimal_text(n)),
    decreases n,
{
    if n >= 10 {
        lemma_decimal_one_line(n / 10);
    }
}

/// The protocol is line framed: a request is exactly one line, whatever is asked and
/// whatever the languages are called.
pub proof fn law_request_is_one_line(state: AppleView, id: u64, op: Seq<char>, said: Seq<char>)
    ensures
        ({
            let line = state.line(id, op, said);
            &&& line.len() > 0
            &&& line.last() == '\n'
            &&& one_line(line.drop_last())
        }),
{
    reveal_strlit("{\"id\":");
    reveal_strlit(",\"op\":");
    reveal_strlit(",\"text\":");
    reveal_strlit(",\"source\":");
    reveal_strlit(",\"target\":");
    reveal_strlit("}\n");
    lemma_decimal_one_line(id as nat);
    law_json_one_line(op);
    law_json_one_line(said);
    law_json_one_line(state.source);
    law_json_one_line(state.target);
}

/// Connecting succeeds only after a probe that was answered well: the bridge was reached,
/// it was asked what it can do, and it can translate the pair. Anything else fails, and
/// every request is made over a connection.
pub proof fn law_connect(state: AppleView, outcome: ConnectOutcome, reply: RequestOutcome)
    requires
        !state.connected,
    ensures
        state.connecting(BridgeEvent::Start) == (state, BridgeStepView::Reach),
        ({
            let (asked, step) = state.connecting(BridgeEvent::Reached(outcome));
            let (after, last) = asked.connecting(BridgeEvent::Asked(reply));
            &&& outcome is Connected <==> step == BridgeStepView::Ask(
                state.line(asked.next_id, PROBE_OP@, Seq::empty()),
            )
            &&& outcome is Connected <==> asked.connected
            &&& !(outcome is Connected) ==> step is Failed
            &&& last is Ready <==> {
                &&& reply matches RequestOutcome::Answered(response)
                &&& response.ok
                &&& response.status matches Some(status) ==> status@ == "installed"@
            }
            &&& last is Ready || last is Failed
            &&& after.connected ==> asked.connected && reply is Answered
        }),
        forall|event: BridgeEvent|
            (#[trigger] state.connecting(event)).1 is Ready ==> (event matches BridgeEvent::Asked(
                RequestOutcome::Answered(response),
            ) && state.probe_error(response) is None),
{
}

/// After a failed request the next one reaches the bridge again, once, and is asked for
/// over the new connection.
pub proof fn law_reconnect(state: AppleView, said: Seq<char>, reply: RequestOutcome)
    requires
        !(reply is Answered),
        text::trimmed(said).len() > 0,
    ensures
        ({
            let failed = state.translating(said, BridgeEvent::Asked(reply)).0;
            let again = failed.translating(said, BridgeEvent::Start);
            let reached = again.0.translating(
                said,
                BridgeEvent::Reached(ConnectOutcome::Connected),
            );
            &&& !failed.connected
            &&& again == (failed, BridgeStepView::Reach)
            &&& reached.0.connected
            &&& reached.1 is Ask
        }),
{
}

/// Quoting goes character by character.
pub proof fn law_json_chars(a: Seq<char>, b: Seq<char>)
    ensures
        json_chars(a + b) == json_chars(a) + json_chars(b),
    decreases b.len(),
{
    if b.len() == 0 {
        assert(a + b =~= a);
        assert(json_chars(a) + json_chars(b) =~= json_chars(a));
    } else {
        law_json_chars(a, b.drop_last());
        assert((a + b).drop_last() =~= a + b.drop_last());
        assert(json_chars(a + b) =~= json_chars(a) + json_chars(b));
    }
}

/// A character that needs no escape is quoted as itself, every other one begins with a
/// backslash.
pub proof fn law_json_char(c: char)
    ensures
        c as u32 >= 0x20 && c != '"' && c != '\\' ==> json_chars(seq![c]) == seq![c],
        (c as u32) < 0x20 || c == '"' || c == '\\' ==> json_chars(seq![c]).len() > 1 && json_chars(
            seq![c],
        )[0] == '\\',
{
    assert(seq![c].drop_last() =~= Seq::empty());
    assert(json_chars(seq![c].drop_last()) =~= Seq::empty());
    assert(json_chars(seq![c]) =~= json_char(c));
}

/// A request's line holds the text quoted and whole, between two parts that do not depend
/// on it.
pub proof fn law_line_text(state: AppleView, id: u64, op: Seq<char>) -> (around: (
    Seq<char>,
    Seq<char>,
))
    ensures
        forall|said: Seq<char>| #[trigger]
            state.line(id, op, said) == around.0 + json_string(said) + around.1,
{
    let before = "{\"id\":"@ + text::decimal_text(id as nat) + ",\"op\":"@ + json_string(op)
        + ",\"text\":"@;
    let behind = ",\"source\":"@ + json_string(state.source) + ",\"target\":"@ + json_string(
        state.target,
    ) + "}\n"@;
    assert forall|said: Seq<char>| #[trigger]
        state.line(id, op, said) == before + json_string(said) + behind by {
        assert(state.line(id, op, said) =~= before + json_string(said) + behind);
    }
    (before, behind)
}

/// What is sent is the text as it was given, untrimmed, under the next number, over the
/// connection that stands; text without a letter is answered at once and nothing changes.
pub proof fn law_translate_start(state: AppleView, said: Seq<char>)
    ensures
        ({
            let (after, step) = state.translating(said, BridgeEvent::Start);
            &&& text::trimmed(said).len() == 0 ==> after == state && step
                == BridgeStepView::Translated(Seq::empty())
            &&& text::trimmed(said).len() > 0 && !state.connected ==> after == state && step
                == BridgeStepView::Reach
            &&& text::trimmed(said).len() > 0 && state.connected ==> {
                &&& after.next_id == if state.next_id == u64::MAX {
                    0
                } else {
                    state.next_id + 1
                }
                &&& after == (AppleView { next_id: after.next_id, ..state })
                &&& step == BridgeStepView::Ask(state.line(after.next_id, TRANSLATE_OP@, said))
            }
        }),
{
}

/// Once the bridge is reached the same request goes out as over a standing connection; one
/// that cannot be reached changes nothing and sends nothing.
pub proof fn law_translate_reached(state: AppleView, said: Seq<char>, outcome: ConnectOutcome)
    requires
        text::trimmed(said).len() > 0,
    ensures
        outcome is Connected ==> state.translating(said, BridgeEvent::Reached(outcome))
            == (AppleView { connected: true, ..state }).translating(said, BridgeEvent::Start),
        !(outcome is Connected) ==> {
            &&& state.translating(said, BridgeEvent::Reached(outcome)).0 == state
            &&& state.translating(said, BridgeEvent::Reached(outcome)).1 is Failed
        },
{
}

/// An answer is handed on as it came: the text of a good one, empty where it has none, and
/// the reason of a bad one, at the end of the message; either keeps the connection. Any
/// other outcome drops it.
pub proof fn law_translate_answer(state: AppleView, said: Seq<char>, reply: RequestOutcome)
    ensures
        ({
            let (after, step) = state.translating(said, BridgeEvent::Asked(reply));
            &&& after == (AppleView { connected: state.connected && reply is Answered, ..state })
            &&& step is Translated <==> (reply matches RequestOutcome::Answered(response)
                && response.ok)
            &&& step is Translated || step is Failed
            &&& reply matches RequestOutcome::Answered(response) ==> {
                &&& response.ok ==> step == BridgeStepView::Translated(
                    if response.text is Some {
                        response.text->0@
                    } else {
                        Seq::empty()
                    },
                )
                &&& !response.ok && response.error is Some ==> {
                    &&& step is Failed
                    &&& step->Failed_0 is Provider
                    &&& step->Failed_0->Provider_0.len() >= response.error->0@.len()
                    &&& step->Failed_0->Provider_0.skip(
                        step->Failed_0->Provider_0.len() - response.error->0@.len(),
                    ) == response.error->0@
                }
            }
        }),
{
    if let RequestOutcome::Answered(response) = reply {
        if response.error is Some {
            let reason = response.error->0@;
            let message = "apple-translate failed: "@ + reason;
            assert(message.skip(message.len() - reason.len()) =~= reason);
        }
    }
}

/// A bridge that cannot be reached is told with its path, and a failure ends with the
/// reason as it was given.
pub proof fn law_connect_error(state: AppleView, outcome: ConnectOutcome)
    ensures
        state.connect_error(outcome) is None <==> outcome is Connected,
        state.connect_error(outcome) matches Some(error) ==> error is Provider,
        outcome matches ConnectOutcome::Failed { reason } ==> {
            let message = (state.connect_error(outcome)->0)->Provider_0;
            &&& message.len() >= reason@.len()
            &&& message.skip(message.len() - reason@.len()) == reason@
            &&& message.take(message.len() - reason@.len()) == "cannot reach the apple-translate bridge at "@
                + state.path + ": "@
        },
{
    if let ConnectOutcome::Failed { reason } = outcome {
        let head = "cannot reach the apple-translate bridge at "@ + state.path + ": "@;
        let message = head + reason@;
        assert(message.skip(message.len() - reason@.len()) =~= reason@);
        assert(message.take(message.len() - reason@.len()) =~= head);
    }
}

/// A language pair is ready exactly where the bridge says so and names no state but
/// `installed`; a refusal is always one of the pair and never of the connection.
pub proof fn law_probe(state: AppleView, response: BridgeResponse)
    ensures
        state.probe_error(response) is None <==> response.ok && (response.status is None || (
        response.status->0)@ == "installed"@),
        state.probe_error(response) matches Some(error) ==> error is Unsupported,
        state.connecting(BridgeEvent::Asked(RequestOutcome::Answered(response))).0 == state,
{
}

/// A request that was not answered fails, and only one that took too long is told with the
/// name of what was asked; trouble with input and output is passed on as it is.
pub proof fn law_request_error(a: Seq<char>, b: Seq<char>, outcome: RequestOutcome)
    ensures
        request_error(a, outcome) is None <==> outcome is Answered,
        !(outcome is TimedOut) ==> request_error(a, outcome) == request_error(b, outcome),
        outcome matches RequestOutcome::Failed(io) ==> request_error(a, outcome) == Some(
            CoreError::Io(io)@,
        ),
        request_error(a, outcome) matches Some(error) ==> error is Io || error is Provider,
        request_error(a, outcome) matches Some(error) ==> (error is Io <==> outcome is Failed),
        outcome matches RequestOutcome::Malformed { reason } ==> {
            let message = (request_error(a, outcome)->0)->Provider_0;
            &&& message.len() >= reason@.len()
            &&& message.skip(message.len() - reason@.len()) == reason@
        },
{
    if let RequestOutcome::Malformed { reason } = outcome {
        let message = "bad bridge response: "@ + reason@;
        assert(message.skip(message.len() - reason@.len()) =~= reason@);
    }
}

} // verus!
