//! The runtime: a client that sends commands, and the thread that runs
//! scripts and answers each command with one response.
use vstd::prelude::*;
use vstd::string::*;

use crate::codec;
use crate::js::dom;
use crate::js::dom::{Document, DocumentView, DomMutation, DomSnapshot};
use crate::js::fetch_api::FetchRequestMsg;
use crate::js::history::HistoryCommandType;
use crate::js::storage;
use crate::js::storage::{LocalStorageMsg, StorageArea};
use crate::js::value;
use crate::js::value::ScriptValue;
use crate::js::weburl;
use crate::js::weburl::Location;
use crate::json::{Json, JsonView};
use crate::strmap::StringMap;
use crate::text;

verus! {

/// Limits and timeouts of the runtime.
#[derive(Debug, Clone, Copy, PartialEq, Eq, Structural)]
pub struct JsRuntimeConfig {
    /// Default timeout in ms for each evaluation.
    pub timeout_ms: u64,
    /// Max recursion depth.
    pub max_recursion: usize,
    /// Max loop iterations.
    pub max_loop_iterations: u64,
    /// Max operand stack size.
    pub max_stack_size: usize,
    /// Viewport width (pixels, 0 = headless).
    pub viewport_width: u32,
    /// Viewport height (pixels, 0 = headless).
    pub viewport_height: u32,
}

impl Default for JsRuntimeConfig {
    fn default() -> (r: Self)
        ensures
            r == (JsRuntimeConfig {
                timeout_ms: 5000,
                max_recursion: 100,
                max_loop_iterations: 100_000,
                max_stack_size: 1024,
                viewport_width: 1280,
                viewport_height: 720,
            }),
    {
        JsRuntimeConfig {
            timeout_ms: 5000,
            max_recursion: 100,
            max_loop_iterations: 100_000,
            max_stack_size: 1024,
            viewport_width: 1280,
            viewport_height: 720,
        }
    }
}

/// What the browser's configuration says of scripts and the viewport.
#[derive(Debug, Clone, Copy, PartialEq, Eq, Structural)]
pub struct BrowserConfig {
    pub js_timeout_ms: u64,
    pub js_max_recursion: usize,
    pub js_max_loop_iterations: u64,
    pub js_max_stack_size: usize,
    pub viewport_width: u32,
    pub viewport_height: u32,
}

impl From<&BrowserConfig> for JsRuntimeConfig {
    fn from(config: &BrowserConfig) -> (r: Self) {
        JsRuntimeConfig {
            timeout_ms: config.js_timeout_ms,
            max_recursion: config.js_max_recursion,
            max_loop_iterations: config.js_max_loop_iterations,
            max_stack_size: config.js_max_stack_size,
            viewport_width: config.viewport_width,
            viewport_height: config.viewport_height,
        }
    }
}

impl vstd::std_specs::convert::FromSpecImpl<&BrowserConfig> for JsRuntimeConfig {
    open spec fn obeys_from_spec() -> bool {
        true
    }

    open spec fn from_spec(config: &BrowserConfig) -> JsRuntimeConfig {
        JsRuntimeConfig {
            timeout_ms: config.js_timeout_ms,
            max_recursion: config.js_max_recursion,
            max_loop_iterations: config.js_max_loop_iterations,
            max_stack_size: config.js_max_stack_size,
            viewport_width: config.viewport_width,
            viewport_height: config.viewport_height,
        }
    }
}

/// Why an evaluation has no result.
#[derive(Debug, Clone, Copy, PartialEq, Eq, Structural)]
pub enum CoreError {
    /// The evaluation took longer than this many milliseconds.
    JsTimeout(u64),
}

/// The result of an evaluation.
pub struct JsEvalResult {
    /// The value as JSON (if any).
    pub value: Option<Json>,
    /// Exception message (if an error occurred).
    pub exception: Option<String>,
    /// Console output captured during the evaluation.
    pub console_output: Vec<String>,
    /// Whether the evaluation was aborted due to a timeout.
    pub timed_out: bool,
}

/// What the result of an evaluation says.
#[verifier::ext_equal]
pub struct EvalView {
    pub value: Option<JsonView>,
    pub exception: Option<Seq<char>>,
    pub console_output: Seq<Seq<char>>,
    pub timed_out: bool,
}

/// What a value says, if there is one.
pub open spec fn value_view(j: Option<Json>) -> Option<JsonView> {
    match j {
        Some(v) => Some(v@),
        None => None,
    }
}

impl View for JsEvalResult {
    type V = EvalView;

    open spec fn view(&self) -> EvalView {
        EvalView {
            value: value_view(self.value),
            exception: codec::text_view(self.exception),
            console_output: text::views(self.console_output@),
            timed_out: self.timed_out,
        }
    }
}

/// The message of an evaluation that took `ms` milliseconds, too many.
pub open spec fn timeout_message(ms: nat) -> Seq<char> {
    "JS execution timed out after "@ + text::decimal(ms)
        + "ms — context was reset, previous state lost"@
}

fn timeout_text(ms: u128) -> (r: String)
    ensures
        r@ == timeout_message(ms as nat),
{
    text::concat3(
        "JS execution timed out after ",
        text::decimal_text(ms).as_str(),
        "ms — context was reset, previous state lost",
    )
}

impl JsEvalResult {
    /// A successful result with a value.
    pub fn ok(value: Json) -> (r: JsEvalResult)
        ensures
            r@ == (EvalView {
                value: Some(value@),
                exception: None,
                console_output: Seq::empty(),
                timed_out: false,
            }),
    {
        let r: JsEvalResult = JsEvalResult {
            value: Some(value),
            exception: None,
            console_output: Vec::new(),
            timed_out: false,
        };
        assert(r@.console_output =~= Seq::empty());
        r
    }

    /// A result without a value.
    pub fn void() -> (r: JsEvalResult)
        ensures
            r@ == (EvalView {
                value: None,
                exception: None,
                console_output: Seq::empty(),
                timed_out: false,
            }),
    {
        let r: JsEvalResult = JsEvalResult {
            value: None,
            exception: None,
            console_output: Vec::new(),
            timed_out: false,
        };
        assert(r@.console_output =~= Seq::empty());
        r
    }

    /// A result that is an error.
    pub fn error(msg: String) -> (r: JsEvalResult)
        ensures
            r@ == (EvalView {
                value: None,
                exception: Some(msg@),
                console_output: Seq::empty(),
                timed_out: false,
            }),
    {
        let r: JsEvalResult = JsEvalResult {
            value: None,
            exception: Some(msg),
            console_output: Vec::new(),
            timed_out: false,
        };
        assert(r@.console_output =~= Seq::empty());
        r
    }

    /// The result of an evaluation that took too long.
    pub fn timeout(timeout_ms: u64) -> (r: JsEvalResult)
        ensures
            r@ == (EvalView {
                value: None,
                exception: Some(timeout_message(timeout_ms as nat)),
                console_output: Seq::empty(),
                timed_out: true,
            }),
    {
        let r: JsEvalResult = JsEvalResult {
            value: None,
            exception: Some(timeout_text(timeout_ms as u128)),
            console_output: Vec::new(),
            timed_out: true,
        };
        assert(r@.console_output =~= Seq::empty());
        r
    }

    /// Whether the evaluation succeeded (no exception).
    pub fn is_ok(&self) -> (r: bool)
        ensures
            r == (self@.exception is None),
    {
        self.exception.is_none()
    }
}

/// A command to the thread that runs scripts.
#[allow(inconsistent_fields)]
pub enum JsCommand {
    /// Evaluate an expression. A limit that is missing is the default one.
    Eval {
        expression: String,
        timeout_ms: Option<u64>,
        max_loop_iterations: Option<u64>,
        max_recursion: Option<usize>,
        max_stack_size: Option<usize>,
    },
    /// Set a global variable.
    SetGlobal { name: String, value: Json },
    /// Set the snapshot that `document` shows.
    SetDom { snapshot: Option<DomSnapshot> },
    /// Set the page's URL, for `window.location`.
    SetPageUrl { url: String },
    /// Set the channel for requests of scripts.
    SetFetchChannel { tx: std::sync::mpsc::Sender<FetchRequestMsg> },
    /// Set the channel for changes of `localStorage`.
    SetLocalStorageChannel { tx: std::sync::mpsc::Sender<LocalStorageMsg> },
    /// Set the channel for commands to the history.
    SetHistoryChannel { tx: std::sync::mpsc::Sender<HistoryCommandType> },
    /// End the thread.
    Shutdown,
}

/// A response of the thread that runs scripts.
pub enum JsResponse {
    /// The result of an evaluation.
    EvalResult {
        value: Option<Json>,
        exception: Option<String>,
        console_output: Vec<String>,
        timed_out: bool,
    },
    /// Any other command is done.
    Done,
}

/// What a response says; nothing of one that says only that a command is done.
pub open spec fn response_view(r: JsResponse) -> Option<EvalView> {
    match r {
        JsResponse::EvalResult { value, exception, console_output, timed_out } => Some(
            EvalView {
                value: value_view(value),
                exception: codec::text_view(exception),
                console_output: text::views(console_output@),
                timed_out,
            },
        ),
        JsResponse::Done => None,
    }
}

/// The limits of an evaluation.
#[derive(Debug, Clone, Copy, PartialEq, Eq, Structural)]
pub struct Limits {
    pub timeout_ms: u64,
    pub loop_iterations: u64,
    pub recursion: usize,
    pub stack_size: usize,
}

/// A number, or the default in place of none.
pub open spec fn or_default<T>(n: Option<T>, default: T) -> T {
    match n {
        Some(m) => m,
        None => default,
    }
}

/// What the thread has to do for a command, with the script engine.
pub enum Step {
    /// Evaluate an expression within limits, then ask how it ended.
    Evaluate { expression: String, limits: Limits },
    /// Define a global variable, then answer that it is done.
    DefineGlobal { name: String, value: ScriptValue },
    /// Define the globals that hold the title and URL of the snapshot, then
    /// answer that it is done.
    DefineDomGlobals { title: String, url: String },
    /// Define `window` anew, with this location and with empty storage areas,
    /// then answer that it is done.
    DefineWindow { location: Location },
    /// Answer that it is done.
    Acknowledge,
    /// Answer that it is done, and end.
    Stop,
}

/// The state of the thread that runs scripts.
pub struct ScriptThread {
    pub console: Vec<String>,
    pub document: Document,
    /// `localStorage`, once the page's URL is known.
    pub local_storage: Option<StorageArea>,
    /// `sessionStorage`, once the page's URL is known.
    pub session_storage: Option<StorageArea>,
    pub fetch_tx: Option<std::sync::mpsc::Sender<FetchRequestMsg>>,
    pub local_storage_tx: Option<std::sync::mpsc::Sender<LocalStorageMsg>>,
    pub history_tx: Option<std::sync::mpsc::Sender<HistoryCommandType>>,
}

/// What the state of the thread is.
#[verifier::ext_equal]
pub struct ThreadView {
    pub console: Seq<Seq<char>>,
    pub document: DocumentView,
    pub local_storage: Option<storage::Contents>,
    pub session_storage: Option<storage::Contents>,
    pub fetch_tx: Option<std::sync::mpsc::Sender<FetchRequestMsg>>,
    pub local_storage_tx: Option<std::sync::mpsc::Sender<LocalStorageMsg>>,
    pub history_tx: Option<std::sync::mpsc::Sender<HistoryCommandType>>,
}

/// What an area holds, if there is one.
pub open spec fn area_view(a: Option<StorageArea>) -> Option<storage::Contents> {
    match a {
        Some(s) => Some(s@),
        None => None,
    }
}

impl View for ScriptThread {
    type V = ThreadView;

    open spec fn view(&self) -> ThreadView {
        ThreadView {
            console: text::views(self.console@),
            document: self.document@,
            local_storage: area_view(self.local_storage),
            session_storage: area_view(self.session_storage),
            fetch_tx: self.fetch_tx,
            local_storage_tx: self.local_storage_tx,
            history_tx: self.history_tx,
        }
    }
}

/// The limits of an evaluation: those that are given, or the default ones.
pub open spec fn limits_of(
    timeout_ms: Option<u64>,
    max_loop_iterations: Option<u64>,
    max_recursion: Option<usize>,
    max_stack_size: Option<usize>,
) -> Limits {
    Limits {
        timeout_ms: or_default(timeout_ms, 5000),
        loop_iterations: or_default(max_loop_iterations, 100_000),
        recursion: or_default(max_recursion, 100),
        stack_size: or_default(max_stack_size, 1024),
    }
}

/// The state after a command has come.
pub open spec fn state_after(t: ThreadView, cmd: JsCommand) -> ThreadView {
    match cmd {
        JsCommand::Eval { .. } => ThreadView {
            console: Seq::empty(),
            document: DocumentView { mutations: Seq::empty(), ..t.document },
            ..t
        },
        JsCommand::SetGlobal { .. } => t,
        JsCommand::SetDom { snapshot } => ThreadView {
            document: DocumentView {
                dom: match snapshot {
                    Some(s) => Some(s@),
                    None => None,
                },
                mutations: Seq::empty(),
            },
            ..t
        },
        JsCommand::SetPageUrl { .. } => ThreadView {
            local_storage: Some(Map::empty()),
            session_storage: Some(Map::empty()),
            ..t
        },
        JsCommand::SetFetchChannel { tx } => ThreadView { fetch_tx: Some(tx), ..t },
        JsCommand::SetLocalStorageChannel { tx } => ThreadView { local_storage_tx: Some(tx), ..t },
        JsCommand::SetHistoryChannel { tx } => ThreadView { history_tx: Some(tx), ..t },
        JsCommand::Shutdown => t,
    }
}

/// A step is the one that a command asks for.
pub open spec fn asked_for(cmd: JsCommand, step: Step) -> bool {
    match cmd {
        JsCommand::Eval {
            expression,
            timeout_ms,
            max_loop_iterations,
            max_recursion,
            max_stack_size,
        } => step matches Step::Evaluate { expression: e, limits } && e == expression && limits
            == limits_of(timeout_ms, max_loop_iterations, max_recursion, max_stack_size),
        JsCommand::SetGlobal { name, value } => step matches Step::DefineGlobal {
            name: n,
            value: v,
        } && n == name && value::says(v, value@),
        JsCommand::SetDom { snapshot } => match snapshot {
            Some(s) => step matches Step::DefineDomGlobals { title, url } && title@ == s.title@
                && url@ == s.url@,
            None => step is Acknowledge,
        },
        JsCommand::SetPageUrl { url } => step matches Step::DefineWindow { location } && location@
            == weburl::location_view(url@, weburl::parsed_url(url@)),
        JsCommand::SetFetchChannel { .. } => step is Acknowledge,
        JsCommand::SetLocalStorageChannel { .. } => step is Acknowledge,
        JsCommand::SetHistoryChannel { .. } => step is Acknowledge,
        JsCommand::Shutdown => step is Stop,
    }
}

/// The response to an evaluation that took too long.
pub open spec fn late_response(elapsed: u128, console: Seq<Seq<char>>) -> EvalView {
    EvalView {
        value: None,
        exception: Some(timeout_message(elapsed as nat)),
        console_output: console,
        timed_out: true,
    }
}

/// The response to an evaluation that ended within its time, with a value or
/// an error message, when the console showed `console`.
pub open spec fn timely_response(
    ended: Result<JsonView, Seq<char>>,
    console: Seq<Seq<char>>,
) -> EvalView {
    match ended {
        Ok(v) => EvalView {
            value: Some(v),
            exception: None,
            console_output: console,
            timed_out: false,
        },
        Err(m) => EvalView {
            value: None,
            exception: Some(m),
            console_output: console,
            timed_out: false,
        },
    }
}

/// The response to an evaluation that took `elapsed` milliseconds and ended
/// with a value or an error message, when the console showed `console`.
pub open spec fn eval_response(
    timeout_ms: u64,
    elapsed: u128,
    ended: Result<JsonView, Seq<char>>,
    console: Seq<Seq<char>>,
) -> EvalView {
    if elapsed > timeout_ms {
        late_response(elapsed, console)
    } else {
        timely_response(ended, console)
    }
}

/// The state after an evaluation that took too long, whose context is lost.
pub open spec fn state_after_loss(t: ThreadView) -> ThreadView {
    ThreadView { local_storage: None, session_storage: None, ..t }
}

/// How an evaluation ended, as the response says it.
pub open spec fn ended_view(e: Result<Json, String>) -> Result<JsonView, Seq<char>> {
    match e {
        Ok(j) => Ok(j@),
        Err(m) => Err(m@),
    }
}

/// The answer to an evaluation that ended within its time.
pub fn answer_eval(ended: Result<Json, String>, console_output: Vec<String>) -> (r: JsResponse)
    ensures
        response_view(r) == Some(timely_response(ended_view(ended), text::views(console_output@))),
        forall|step: Step| step is Evaluate ==> #[trigger] answers(step, r),
{
    match ended {
        Ok(v) => JsResponse::EvalResult {
            value: Some(v),
            exception: None,
            console_output,
            timed_out: false,
        },
        Err(m) => JsResponse::EvalResult {
            value: None,
            exception: Some(m),
            console_output,
            timed_out: false,
        },
    }
}

fn copy_texts(v: &Vec<String>) -> (r: Vec<String>)
    ensures
        text::views(r@) == text::views(v@),
{
    let mut r: Vec<String> = Vec::new();
    let mut i: usize = 0;
    while i < v.len()
        invariant
            i <= v.len(),
            r@.len() == i,
            forall|j: int| 0 <= j < i ==> r@[j]@ == v@[j]@,
        decreases v.len() - i,
    {
        r.push(v[i].clone());
        i = i + 1;
    }
    assert(text::views(r@) =~= text::views(v@));
    r
}

/// A response answers a step: an evaluation its result, any other that it is done.
pub open spec fn answers(step: Step, r: JsResponse) -> bool {
    if step is Evaluate {
        response_view(r) is Some
    } else {
        r is Done
    }
}

impl Step {
    /// The answer that a step leads to; an evaluation is answered once it has ended.
    pub fn answer(&self) -> (r: Option<JsResponse>)
        ensures
            r is None <==> self is Evaluate,
            r is Some ==> r == Some(JsResponse::Done),
            r matches Some(a) ==> answers(*self, a),
    {
        match self {
            Step::Evaluate { .. } => None,
            _ => Some(JsResponse::Done),
        }
    }

    /// Whether the thread goes on after a step.
    pub fn goes_on(&self) -> (r: bool)
        ensures
            r == !(self is Stop),
    {
        match self {
            Step::Stop => false,
            _ => true,
        }
    }
}

impl ScriptThread {
    /// The storage areas and the document's nodes hold nothing twice.
    pub open spec fn wf(&self) -> bool {
        &&& self.document.wf()
        &&& self.local_storage matches Some(a) ==> a.wf()
        &&& self.session_storage matches Some(a) ==> a.wf()
    }

    /// The state in which a thread begins.
    pub fn new() -> (r: ScriptThread)
        ensures
            r.wf(),
            r@ == (ThreadView {
                console: Seq::empty(),
                document: DocumentView { dom: None, mutations: Seq::empty() },
                local_storage: None,
                session_storage: None,
                fetch_tx: None,
                local_storage_tx: None,
                history_tx: None,
            }),
    {
        let r: ScriptThread = ScriptThread {
            console: Vec::new(),
            document: Document::new(),
            local_storage: None,
            session_storage: None,
            fetch_tx: None,
            local_storage_tx: None,
            history_tx: None,
        };
        assert(r@.console =~= Seq::empty());
        r
    }

    /// Takes a command, and says what to do for it.
    pub fn accept(&mut self, cmd: JsCommand) -> (r: Step)
        requires
            old(self).wf(),
            cmd matches JsCommand::SetDom { snapshot: Some(s) } ==> s.wf(),
        ensures
            final(self).wf(),
            final(self)@ == state_after(old(self)@, cmd),
            asked_for(cmd, r),
    {
        match cmd {
            JsCommand::Eval {
                expression,
                timeout_ms,
                max_loop_iterations,
                max_recursion,
                max_stack_size,
            } => {
                self.console = Vec::new();
                self.document.clear_mutations();
                assert(self@.console =~= Seq::empty());
                let limits: Limits = Limits {
                    timeout_ms: timeout_ms.unwrap_or(5000),
                    loop_iterations: max_loop_iterations.unwrap_or(100_000),
                    recursion: max_recursion.unwrap_or(100),
                    stack_size: max_stack_size.unwrap_or(1024),
                };
                Step::Evaluate { expression, limits }
            },
            JsCommand::SetGlobal { name, value } => {
                let v: ScriptValue = value::json_to_js_value(&value);
                Step::DefineGlobal { name, value: v }
            },
            JsCommand::SetDom { snapshot } => {
                let step: Step = match &snapshot {
                    Some(s) => Step::DefineDomGlobals { title: s.title.clone(), url: s.url.clone() },
                    None => Step::Acknowledge,
                };
                self.document.set_snapshot(snapshot);
                step
            },
            JsCommand::SetPageUrl { url } => {
                self.local_storage = Some(StorageArea::new());
                self.session_storage = Some(StorageArea::new());
                Step::DefineWindow { location: weburl::location(url.as_str()) }
            },
            JsCommand::SetFetchChannel { tx } => {
                self.fetch_tx = Some(tx);
                Step::Acknowledge
            },
            JsCommand::SetLocalStorageChannel { tx } => {
                self.local_storage_tx = Some(tx);
                Step::Acknowledge
            },
            JsCommand::SetHistoryChannel { tx } => {
                self.history_tx = Some(tx);
                Step::Acknowledge
            },
            JsCommand::Shutdown => Step::Stop,
        }
    }

    /// Takes how long an evaluation took. Within its time: what the console
    /// shows, for the answer. Else the answer itself; the script engine's
    /// context is then to be made anew, which loses what scripts have defined,
    /// the storage areas with it.
    pub fn end_eval(&mut self, timeout_ms: u64, elapsed: u128) -> (r: Result<
        Vec<String>,
        JsResponse,
    >)
        requires
            old(self).wf(),
        ensures
            final(self).wf(),
            match r {
                Ok(console) => elapsed <= timeout_ms && text::views(console@)
                    == old(self)@.console && final(self)@ == old(self)@,
                Err(response) => elapsed > timeout_ms && response_view(response) == Some(
                    late_response(elapsed, old(self)@.console),
                ) && final(self)@ == state_after_loss(old(self)@) && forall|step: Step| step is Evaluate ==> #[trigger] answers(step, response),
            },
    {
        let console_output: Vec<String> = copy_texts(&self.console);
        if elapsed > timeout_ms as u128 {
            self.local_storage = None;
            self.session_storage = None;
            return Err(
                JsResponse::EvalResult {
                    value: None,
                    exception: Some(timeout_text(elapsed)),
                    console_output,
                    timed_out: true,
                },
            );
        }
        Ok(console_output)
    }

    /// What the console shows.
    pub fn console_output(&self) -> (r: Vec<String>)
        ensures
            text::views(r@) == self@.console,
    {
        copy_texts(&self.console)
    }

    /// Empties the console.
    pub fn clear_console(&mut self)
        requires
            old(self).wf(),
        ensures
            final(self).wf(),
            final(self)@ == (ThreadView { console: Seq::empty(), ..old(self)@ }),
    {
        self.console = Vec::new();
        assert(self@.console =~= Seq::empty());
    }

    /// Hands out the changes that scripts made to the document; none are left.
    pub fn drain_mutations(&mut self) -> (r: Vec<DomMutation>)
        requires
            old(self).wf(),
        ensures
            final(self).wf(),
            dom::mutation_views(r@) == old(self)@.document.mutations,
            final(self)@ == (ThreadView {
                document: DocumentView { mutations: Seq::empty(), ..old(self)@.document },
                ..old(self)@
            }),
    {
        self.document.drain_mutations()
    }

    /// Adds a line to the console.
    pub fn log(&mut self, line: String)
        requires
            old(self).wf(),
        ensures
            final(self).wf(),
            final(self)@ == (ThreadView { console: old(self)@.console.push(line@), ..old(self)@ }),
    {
        let ghost l = line@;
        self.console.push(line);
        assert(self@.console =~= old(self)@.console.push(l));
    }
}

/// A message of an error that says that a limit was hit: of loop iterations,
/// of the call stack, or of recursion. The context stays as it is.
pub open spec fn limit_message(m: Seq<char>) -> bool {
    ||| text::contains_text(m, "Maximum loop iteration limit"@)
    ||| text::contains_text(m, "exceeded the maximum call stack size"@)
    ||| text::contains_text(m, "recursion limit"@)
}

/// Whether a message of an error says that a limit was hit.
pub fn is_runtime_limit(msg: &str) -> (r: bool)
    ensures
        r == limit_message(msg@),
{
    text::contains(msg, "Maximum loop iteration limit") || text::contains(
        msg,
        "exceeded the maximum call stack size",
    ) || text::contains(msg, "recursion limit")
}

/// The client's side of the runtime: its configuration, and the global
/// variables it has set. Its methods give the commands to send.
pub struct JsRuntime {
    pub config: JsRuntimeConfig,
    pub globals: StringMap<Json>,
}

/// What global variables hold.
pub open spec fn global_views(m: Map<Seq<char>, Json>) -> Map<Seq<char>, JsonView> {
    m.map_values(|j: Json| j@)
}

/// What a response to an evaluation means to the one who asked for it.
pub open spec fn evaluated(r: Option<EvalView>, timeout_ms: u64) -> Result<EvalView, CoreError> {
    match r {
        Some(e) => if e.timed_out {
            Err(CoreError::JsTimeout(timeout_ms))
        } else {
            Ok(e)
        },
        None => Ok(
            EvalView {
                value: None,
                exception: None,
                console_output: Seq::empty(),
                timed_out: false,
            },
        ),
    }
}

/// What the outcome of an evaluation says.
pub open spec fn outcome_view(r: Result<JsEvalResult, CoreError>) -> Result<EvalView, CoreError> {
    match r {
        Ok(e) => Ok(e@),
        Err(e) => Err(e),
    }
}

impl JsRuntime {
    /// No global variable is kept twice.
    pub open spec fn wf(&self) -> bool {
        self.globals.wf()
    }

    /// A client with the default configuration.
    pub fn new() -> (r: JsRuntime)
        ensures
            r.wf(),
            r.config == (JsRuntimeConfig {
                timeout_ms: 5000,
                max_recursion: 100,
                max_loop_iterations: 100_000,
                max_stack_size: 1024,
                viewport_width: 1280,
                viewport_height: 720,
            }),
            r.globals@ == Map::<Seq<char>, Json>::empty(),
    {
        JsRuntime::with_config(JsRuntimeConfig::default())
    }

    /// A client with a configuration.
    pub fn with_config(config: JsRuntimeConfig) -> (r: JsRuntime)
        ensures
            r.wf(),
            r.config == config,
            r.globals@ == Map::<Seq<char>, Json>::empty(),
    {
        JsRuntime { config, globals: StringMap::new() }
    }

    /// The timeout of an evaluation: the one asked for, or the configured one.
    pub open spec fn timeout(&self, asked: Option<u64>) -> u64 {
        or_default(asked, self.config.timeout_ms)
    }

    /// A command evaluates an expression within the configured limits.
    pub open spec fn evaluates(&self, cmd: JsCommand, expression: Seq<char>, asked: Option<u64>) -> bool {
        cmd matches JsCommand::Eval {
            expression: e,
            timeout_ms,
            max_loop_iterations,
            max_recursion,
            max_stack_size,
        } && e@ == expression && timeout_ms == Some(self.timeout(asked)) && max_loop_iterations
            == Some(self.config.max_loop_iterations) && max_recursion == Some(
            self.config.max_recursion,
        ) && max_stack_size == Some(self.config.max_stack_size)
    }

    /// The command that evaluates an expression.
    pub fn evaluate(&self, expression: &str) -> (r: JsCommand)
        ensures
            self.evaluates(r, expression@, None),
    {
        self.evaluate_with_timeout(expression, None)
    }

    /// The command that evaluates an expression, with a timeout in place of
    /// the configured one where one is given.
    pub fn evaluate_with_timeout(&self, expression: &str, timeout_ms: Option<u64>) -> (r: JsCommand)
        ensures
            self.evaluates(r, expression@, timeout_ms),
    {
        JsCommand::Eval {
            expression: expression.to_owned(),
            timeout_ms: Some(timeout_ms.unwrap_or(self.config.timeout_ms)),
            max_loop_iterations: Some(self.config.max_loop_iterations),
            max_recursion: Some(self.config.max_recursion),
            max_stack_size: Some(self.config.max_stack_size),
        }
    }

    /// The command that runs a script.
    pub fn execute(&self, script: &str) -> (r: JsCommand)
        ensures
            self.evaluates(r, script@, None),
    {
        self.evaluate(script)
    }

    /// The command that sets the channel for requests of scripts.
    pub fn set_fetch_channel(&self, tx: std::sync::mpsc::Sender<FetchRequestMsg>) -> (r: JsCommand)
        ensures
            r == (JsCommand::SetFetchChannel { tx }),
    {
        JsCommand::SetFetchChannel { tx }
    }

    /// The command that sets the channel for changes of `localStorage`.
    pub fn set_local_storage_channel(&self, tx: std::sync::mpsc::Sender<LocalStorageMsg>) -> (r:
        JsCommand)
        ensures
            r == (JsCommand::SetLocalStorageChannel { tx }),
    {
        JsCommand::SetLocalStorageChannel { tx }
    }

    /// The command that sets the channel for commands to the history.
    pub fn set_history_channel(&self, tx: std::sync::mpsc::Sender<HistoryCommandType>) -> (r:
        JsCommand)
        ensures
            r == (JsCommand::SetHistoryChannel { tx }),
    {
        JsCommand::SetHistoryChannel { tx }
    }

    /// The command that sets the snapshot that `document` shows.
    pub fn set_dom_snapshot(&self, snapshot: Option<DomSnapshot>) -> (r: JsCommand)
        ensures
            r == (JsCommand::SetDom { snapshot }),
    {
        JsCommand::SetDom { snapshot }
    }

    /// The command that sets the page's URL.
    pub fn set_page_url(&self, url: &str) -> (r: JsCommand)
        ensures
            r matches JsCommand::SetPageUrl { url: u } && u@ == url@,
    {
        JsCommand::SetPageUrl { url: url.to_owned() }
    }

    /// What the response to an evaluation means.
    pub fn interpret(&self, response: JsResponse, timeout_ms: Option<u64>) -> (r: Result<
        JsEvalResult,
        CoreError,
    >)
        ensures
            outcome_view(r) == evaluated(response_view(response), self.timeout(timeout_ms)),
    {
        match response {
            JsResponse::EvalResult { value, exception, console_output, timed_out } => {
                if timed_out {
                    return Err(
                        CoreError::JsTimeout(timeout_ms.unwrap_or(self.config.timeout_ms)),
                    );
                }
                Ok(JsEvalResult { value, exception, console_output, timed_out: false })
            },
            JsResponse::Done => Ok(JsEvalResult::void()),
        }
    }

    /// Keeps a global variable, and gives the command that sets it.
    pub fn set_global(&mut self, name: &str, value: Json) -> (r: JsCommand)
        requires
            old(self).wf(),
        ensures
            final(self).wf(),
            final(self).config == old(self).config,
            global_views(final(self).globals@) == global_views(old(self).globals@).insert(
                name@,
                value@,
            ),
            r matches JsCommand::SetGlobal { name: n, value: v } && n@ == name@ && v@ == value@,
    {
        self.globals.insert(name.to_owned(), value.duplicate());
        assert(global_views(self.globals@) =~= global_views(old(self).globals@).insert(
            name@,
            value@,
        ));
        JsCommand::SetGlobal { name: name.to_owned(), value }
    }

    /// A global variable that was set.
    pub fn get_global(&self, name: &str) -> (r: Option<Json>)
        requires
            self.wf(),
        ensures
            value_view(r) == if global_views(self.globals@).contains_key(name@) {
                Some(global_views(self.globals@)[name@])
            } else {
                None
            },
    {
        match self.globals.get(name) {
            Some(v) => Some(v.duplicate()),
            None => None,
        }
    }
}

/// An evaluation is reported as a timeout exactly if it took longer than it was
/// allowed to; else the one who asked gets the value or the message of the
/// error, with what the console showed.
pub proof fn lemma_evaluation(
    timeout_ms: u64,
    elapsed: u128,
    ended: Result<JsonView, Seq<char>>,
    console: Seq<Seq<char>>,
)
    ensures
        ({
            let r = evaluated(
                Some(eval_response(timeout_ms, elapsed, ended, console)),
                timeout_ms,
            );
            &&& r == Err::<EvalView, CoreError>(CoreError::JsTimeout(timeout_ms)) <==> elapsed
                > timeout_ms
            &&& elapsed <= timeout_ms ==> (r matches Ok(e) && e.console_output == console
                && !e.timed_out && match ended {
                Ok(v) => e.value == Some(v) && e.exception is None,
                Err(m) => e.value is None && e.exception == Some(m),
            })
        }),
{
}

/// A run of the thread on commands that were sent to it: it takes them one
/// after another, does for each the step that it asks for, and sends one
/// response that answers the step. It takes another command exactly as long as
/// the step before goes on and there is one.
pub open spec fn run(cmds: Seq<JsCommand>, steps: Seq<Step>, responses: Seq<JsResponse>) -> bool {
    &&& steps.len() <= cmds.len()
    &&& responses.len() == steps.len()
    &&& forall|i: int|
        0 <= i < steps.len() ==> asked_for(cmds[i], #[trigger] steps[i]) && answers(
            steps[i],
            responses[i],
        )
    &&& forall|i: int| 0 <= i < steps.len() - 1 ==> !((#[trigger] steps[i]) is Stop)
    &&& steps.len() < cmds.len() ==> steps.len() > 0 && steps.last() is Stop
}

/// Of commands of which the one at `last` is the first to say that the thread
/// is to end, each up to that one gets one response: the result of an
/// evaluation where it asks for one, else that it is done. None behind it is taken.
pub proof fn lemma_one_response_each(
    cmds: Seq<JsCommand>,
    last: int,
    steps: Seq<Step>,
    responses: Seq<JsResponse>,
)
    requires
        0 <= last < cmds.len(),
        cmds[last] is Shutdown,
        forall|i: int| 0 <= i < last ==> !((#[trigger] cmds[i]) is Shutdown),
        run(cmds, steps, responses),
    ensures
        steps.len() == last + 1,
        responses.len() == last + 1,
        forall|i: int|
            0 <= i <= last ==> ((#[trigger] responses[i]) is EvalResult <==> cmds[i] is Eval) && (
            responses[i] is Done <==> !(cmds[i] is Eval)),
{
    if steps.len() > last + 1 {
        assert(asked_for(cmds[last], steps[last]));
        assert(!(steps[last] is Stop));
    }
    if steps.len() < last + 1 {
        let n = steps.len() - 1;
        assert(asked_for(cmds[n], steps[n]));
        assert(!(cmds[n] is Shutdown));
    }
    assert forall|i: int| 0 <= i <= last implies ((#[trigger] responses[i]) is EvalResult <==> cmds[i]
        is Eval) && (responses[i] is Done <==> !(cmds[i] is Eval)) by {
        assert(asked_for(cmds[i], steps[i]));
        assert(answers(steps[i], responses[i]));
    }
}

/// What scripts logged or changed before an evaluation is not taken for its
/// own: an evaluation begins with an empty console and no changes, and the
/// page's nodes, the storage areas and the channels stay as they are.
pub proof fn lemma_evaluation_begins_clean(t: ThreadView, cmd: JsCommand)
    requires
        cmd is Eval,
    ensures
        ({
            let u = state_after(t, cmd);
            &&& u.console.len() == 0
            &&& u.document.mutations.len() == 0
            &&& u.document.dom == t.document.dom
            &&& u.local_storage == t.local_storage
            &&& u.session_storage == t.session_storage
            &&& u.fetch_tx == t.fetch_tx
            &&& u.local_storage_tx == t.local_storage_tx
            &&& u.history_tx == t.history_tx
        }),
{
}

/// A global variable that was set is what is got under its name, until it is
/// set again; others keep their values.
pub proof fn lemma_global_read_back(
    globals: Map<Seq<char>, JsonView>,
    name: Seq<char>,
    value: JsonView,
    other: Seq<char>,
)
    requires
        other != name,
    ensures
        globals.insert(name, value).contains_key(name),
        globals.insert(name, value)[name] == value,
        globals.insert(name, value).contains_key(other) == globals.contains_key(other),
        globals.contains_key(other) ==> globals.insert(name, value)[other] == globals[other],
{
}

/// Setting a snapshot drops the changes that were made to the one before.
pub proof fn lemma_snapshot_drops_changes(t: ThreadView, snapshot: Option<DomSnapshot>)
    ensures
        state_after(t, JsCommand::SetDom { snapshot }).document.mutations.len() == 0,
        state_after(t, JsCommand::SetDom { snapshot }).console == t.console,
{
}

/// A change of page empties the storage areas, and nothing else does but the
/// loss of the whole context.
pub proof fn lemma_page_empties_storage(t: ThreadView, cmd: JsCommand)
    ensures
        cmd is SetPageUrl ==> state_after(t, cmd).local_storage == Some(storage::Contents::empty())
            && state_after(t, cmd).session_storage == Some(storage::Contents::empty()),
        !(cmd is SetPageUrl) ==> state_after(t, cmd).local_storage == t.local_storage
            && state_after(t, cmd).session_storage == t.session_storage,
{
}

/// What a client asks for is what the thread does: the very expression, within
/// the timeout that was asked for or else the configured one, and within the
/// configured limits.
pub proof fn lemma_evaluated_as_asked(
    client: JsRuntime,
    cmd: JsCommand,
    expression: Seq<char>,
    asked: Option<u64>,
    step: Step,
)
    requires
        client.evaluates(cmd, expression, asked),
        asked_for(cmd, step),
    ensures
        (step matches Step::Evaluate { expression: e, limits } && {
            &&& e@ == expression
            &&& asked matches Some(ms) ==> limits.timeout_ms == ms
            &&& asked is None ==> limits.timeout_ms == client.config.timeout_ms
            &&& limits.loop_iterations == client.config.max_loop_iterations
            &&& limits.recursion == client.config.max_recursion
            &&& limits.stack_size == client.config.max_stack_size
        }),
{
}

/// Each limit of an evaluation is the one that was given for it, and the default
/// one where none was.
pub proof fn lemma_limits(t: Option<u64>, l: Option<u64>, r: Option<usize>, s: Option<usize>)
    ensures
        ({
            let m = limits_of(t, l, r, s);
            &&& t is Some ==> m.timeout_ms == t->0
            &&& l is Some ==> m.loop_iterations == l->0
            &&& r is Some ==> m.recursion == r->0
            &&& s is Some ==> m.stack_size == s->0
            &&& t is None ==> m.timeout_ms == 5000
            &&& l is None ==> m.loop_iterations == 100_000
            &&& r is None ==> m.recursion == 100
            &&& s is None ==> m.stack_size == 1024
        }),
{
}

/// Every other command is done as it says: a global variable is defined under
/// its name with what its value says, the globals of a page hold its title and
/// URL, a page's URL is the `href` of its location.
pub proof fn lemma_done_as_asked(cmd: JsCommand, step: Step)
    requires
        asked_for(cmd, step),
    ensures
        cmd matches JsCommand::SetGlobal { name, value } ==> (step matches Step::DefineGlobal {
            name: n,
            value: v,
        } && n@ == name@ && value::says(v, value@)),
        (cmd matches JsCommand::SetGlobal { name, value } ==> (value matches Json::Text(t) ==> (
        step matches Step::DefineGlobal { name: _, value: v } && (v matches ScriptValue::Text(u) && u@
            == t@)))),
        cmd matches JsCommand::SetDom { snapshot: Some(s) } ==> (
        step matches Step::DefineDomGlobals { title, url } && title@ == s.title@ && url@ == s.url@),
        cmd matches JsCommand::SetPageUrl { url } ==> (step matches Step::DefineWindow { location }
            && location.href@ == url@),
        step is Stop <==> cmd is Shutdown,
        step is Evaluate <==> cmd is Eval,
{
}

/// A channel that was set is the one that is used, and setting one leaves the
/// others, the console, the document and the storage areas as they are.
pub proof fn lemma_channels(t: ThreadView, cmd: JsCommand)
    ensures
        ({
            let u = state_after(t, cmd);
            &&& cmd matches JsCommand::SetFetchChannel { tx } ==> u.fetch_tx == Some(tx)
            &&& !(cmd is SetFetchChannel) ==> u.fetch_tx == t.fetch_tx
            &&& cmd matches JsCommand::SetLocalStorageChannel { tx } ==> u.local_storage_tx == Some(tx)
            &&& !(cmd is SetLocalStorageChannel) ==> u.local_storage_tx == t.local_storage_tx
            &&& cmd matches JsCommand::SetHistoryChannel { tx } ==> u.history_tx == Some(tx)
            &&& !(cmd is SetHistoryChannel) ==> u.history_tx == t.history_tx
            &&& !(cmd is Eval) ==> u.console == t.console
            &&& !(cmd is Eval) && !(cmd is SetDom) ==> u.document == t.document
            &&& !(cmd is SetDom) ==> u.document.dom == t.document.dom
            &&& cmd matches JsCommand::SetDom { snapshot: Some(s) } ==> u.document.dom == Some(s@)
            &&& cmd matches JsCommand::SetDom { snapshot: None } ==> u.document.dom is None
        }),
{
}

/// A timeout is told with how long the evaluation took, and an evaluation that
/// ended within its time never is one.
pub proof fn lemma_timeout_told(elapsed: u128, console: Seq<Seq<char>>, ended: Result<JsonView, Seq<char>>)
    ensures
        late_response(elapsed, console).timed_out,
        late_response(elapsed, console).value is None,
        late_response(elapsed, console).console_output == console,
        (late_response(elapsed, console).exception matches Some(m) && text::contains_text(
            m,
            text::decimal(elapsed as nat),
        )),
        !timely_response(ended, console).timed_out,
        timely_response(ended, console).console_output == console,
        ended matches Ok(v) ==> timely_response(ended, console).value == Some(v) && timely_response(
            ended,
            console,
        ).exception is None,
        ended matches Err(m) ==> timely_response(ended, console).exception == Some(m)
            && timely_response(ended, console).value is None,
{
    let m = timeout_message(elapsed as nat);
    let d = text::decimal(elapsed as nat);
    let i = "JS execution timed out after "@.len() as int;
    assert(m.subrange(i, i + d.len()) =~= d);
    assert(text::occurs_at(m, d, i));
}

/// A message says that a limit was hit if one of the engine's phrases for that
/// stands in it anywhere, and only then.
pub proof fn lemma_limit_message(a: Seq<char>, b: Seq<char>, m: Seq<char>)
    ensures
        limit_message(a + "Maximum loop iteration limit"@ + b),
        limit_message(a + "exceeded the maximum call stack size"@ + b),
        limit_message(a + "recursion limit"@ + b),
        limit_message(m) ==> m.len() >= 15,
{
    let p = "Maximum loop iteration limit"@;
    let q = "exceeded the maximum call stack size"@;
    let r = "recursion limit"@;
    reveal_strlit("Maximum loop iteration limit");
    reveal_strlit("exceeded the maximum call stack size");
    reveal_strlit("recursion limit");
    let n = a.len() as int;
    assert((a + p + b).subrange(n, n + p.len()) =~= p);
    assert(text::occurs_at(a + p + b, p, n));
    assert((a + q + b).subrange(n, n + q.len()) =~= q);
    assert(text::occurs_at(a + q + b, q, n));
    assert((a + r + b).subrange(n, n + r.len()) =~= r);
    assert(text::occurs_at(a + r + b, r, n));
}

/// A response that says only that something is done is a result that holds
/// nothing; any other that did not time out is the result, as it is.
pub proof fn lemma_result_taken(e: EvalView, timeout_ms: u64)
    ensures
        (evaluated(None, timeout_ms) matches Ok(r) && r.value is None && r.exception is None
            && r.console_output.len() == 0 && !r.timed_out),
        !e.timed_out ==> evaluated(Some(e), timeout_ms) == Ok::<EvalView, CoreError>(e),
        e.timed_out ==> evaluated(Some(e), timeout_ms) == Err::<EvalView, CoreError>(
            CoreError::JsTimeout(timeout_ms),
        ),
{
}

/// An evaluation that takes too long loses the storage areas with the context;
/// the console, the document, its changes and the channels outlive it.
pub proof fn lemma_loss(t: ThreadView)
    ensures
        state_after_loss(t).local_storage is None,
        state_after_loss(t).session_storage is None,
        state_after_loss(t).console == t.console,
        state_after_loss(t).document == t.document,
        state_after_loss(t).fetch_tx == t.fetch_tx,
        state_after_loss(t).local_storage_tx == t.local_storage_tx,
        state_after_loss(t).history_tx == t.history_tx,
{
}

} // verus!
