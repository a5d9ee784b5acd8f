//! The client runtime's decision core: the diagnostic cache fed by
//! server pushes, the dispatch of each inbound message against the
//! pending-request table and the handler registries, and the lifecycle
//! machine that keeps `initialize` before `initialized`, `shutdown`
//! before `exit`, and nothing after `exit`.

use vstd::prelude::*;
use vstd::string::*;

use crate::protocol::{Message, MessageClass, MessageID, classify, spec_classify};
use crate::renders::Diagnostic;
use crate::requests::RequestTracker;

verus! {

struct DiagEntry {
    uri: String,
    diags: Vec<Diagnostic>,
}

/// The per-URI diagnostic cache: each `publishDiagnostics` replaces the
/// URI's entry wholesale; a URI never published reads as an empty list.
pub struct DiagnosticsCache {
    entries: Vec<DiagEntry>,
}

spec fn diag_map_of(entries: Seq<DiagEntry>) -> Map<Seq<char>, Seq<Diagnostic>>
    decreases entries.len(),
{
    if entries.len() == 0 {
        Map::empty()
    } else {
        diag_map_of(entries.drop_last()).insert(
            entries.last().uri@,
            entries.last().diags@,
        )
    }
}

fn copy_diag(d: &Diagnostic) -> (r: Diagnostic)
    ensures
        r == *d,
{
    Diagnostic {
        start_line: d.start_line,
        start_char: d.start_char,
        end_line: d.end_line,
        end_char: d.end_char,
        severity: match &d.severity {
            Some(s) => Some(*s),
            None => None,
        },
        message: d.message.clone(),
        source: match &d.source {
            Some(s) => Some(s.clone()),
            None => None,
        },
    }
}

impl DiagnosticsCache {
    /// The abstract cache: URI to its last published diagnostics.
    pub closed spec fn view(&self) -> Map<Seq<char>, Seq<Diagnostic>> {
        diag_map_of(self.entries@)
    }

    /// URIs are distinct.
    pub closed spec fn wf(&self) -> bool {
        forall|i: int, j: int|
            0 <= i < j < self.entries@.len() ==> self.entries@[i].uri@ != self.entries@[j].uri@
    }

    pub fn new() -> (r: DiagnosticsCache)
        ensures
            r.wf(),
            r@ == Map::<Seq<char>, Seq<Diagnostic>>::empty(),
    {
        DiagnosticsCache { entries: Vec::new() }
    }

    fn find_idx(&self, uri: &String) -> (r: Option<usize>)
        ensures
            match r {
                Some(i) => i < self.entries@.len() && self.entries@[i as int].uri@ == uri@,
                None => forall|j: int|
                    0 <= j < self.entries@.len() ==> self.entries@[j].uri@ != uri@,
            },
    {
        let mut i: usize = 0;
        while i < self.entries.len()
            invariant
                i <= self.entries@.len(),
                forall|j: int| 0 <= j < i ==> self.entries@[j].uri@ != uri@,
            decreases self.entries@.len() - i,
        {
            if self.entries[i].uri == *uri {
                return Some(i);
            }
            i = i + 1;
        }
        None
    }

    /// Replaces the diagnostics for a URI wholesale, as each
    /// `publishDiagnostics` notification demands.
    pub fn publish(&mut self, uri: String, diags: Vec<Diagnostic>)
        requires
            old(self).wf(),
        ensures
            final(self).wf(),
            final(self)@ == old(self)@.insert(uri@, diags@),
    {
        proof {
            lemma_diag_map_contains(self.entries@, uri@);
        }
        match self.find_idx(&uri) {
            None => {
                self.entries.push(DiagEntry { uri, diags });
                proof {
                    assert(self.entries@.drop_last() =~= old(self).entries@);
                }
            },
            Some(i) => {
                let e = self.entries.remove(i);
                self.entries.insert(i, DiagEntry { uri, diags });
                proof {
                    assert(self.entries@ =~= old(self).entries@.update(
                        i as int,
                        self.entries@[i as int],
                    ));
                    lemma_diag_map_update(old(self).entries@, i as int, self.entries@[i as int]);
                }
            },
        }
    }

    /// The current snapshot for a URI: what was last published, or an
    /// empty list for a URI never seen in a publish.
    pub fn get(&self, uri: &String) -> (r: Vec<Diagnostic>)
        requires
            self.wf(),
        ensures
            self@.contains_key(uri@) ==> r@ == self@[uri@],
            !self@.contains_key(uri@) ==> r@.len() == 0,
    {
        proof {
            lemma_diag_map_contains(self.entries@, uri@);
            lemma_diag_map_value(self.entries@, uri@);
        }
        match self.find_idx(uri) {
            None => Vec::new(),
            Some(i) => {
                let src = &self.entries[i].diags;
                let mut r: Vec<Diagnostic> = Vec::new();
                let mut k: usize = 0;
                while k < src.len()
                    invariant
                        k <= src@.len(),
                        r@.len() == k,
                        forall|j: int| 0 <= j < k ==> r@[j] == src@[j],
                    decreases src@.len() - k,
                {
                    r.push(copy_diag(&src[k]));
                    k = k + 1;
                }
                proof {
                    assert(r@ =~= src@);
                }
                r
            },
        }
    }
}

proof fn lemma_diag_map_contains(entries: Seq<DiagEntry>, u: Seq<char>)
    ensures
        diag_map_of(entries).contains_key(u) <==> exists|i: int|
            0 <= i < entries.len() && entries[i].uri@ == u,
    decreases entries.len(),
{
    if entries.len() > 0 {
        lemma_diag_map_contains(entries.drop_last(), u);
        if entries.last().uri@ == u {
            assert(entries[entries.len() - 1].uri@ == u);
        } else {
            if diag_map_of(entries).contains_key(u) {
                let i = choose|i: int|
                    0 <= i < entries.drop_last().len() && entries.drop_last()[i].uri@ == u;
                assert(entries[i].uri@ == u);
            }
            if exists|i: int| 0 <= i < entries.len() && entries[i].uri@ == u {
                let i = choose|i: int| 0 <= i < entries.len() && entries[i].uri@ == u;
                assert(i < entries.len() - 1);
                assert(entries.drop_last()[i].uri@ == u);
            }
        }
    }
}

proof fn lemma_diag_map_value(entries: Seq<DiagEntry>, u: Seq<char>)
    requires
        forall|i: int, j: int| 0 <= i < j < entries.len() ==> entries[i].uri@ != entries[j].uri@,
    ensures
        forall|i: int|
            0 <= i < entries.len() && (#[trigger] entries[i].uri@) == u ==> diag_map_of(
                entries,
            ).contains_key(u) && diag_map_of(entries)[u] == entries[i].diags@,
    decreases entries.len(),
{
    if entries.len() > 0 {
        lemma_diag_map_value(entries.drop_last(), u);
        lemma_diag_map_contains(entries.drop_last(), u);
        assert forall|i: int|
            0 <= i < entries.len() && (#[trigger] entries[i].uri@) == u implies diag_map_of(
            entries,
        ).contains_key(u) && diag_map_of(entries)[u] == entries[i].diags@ by {
            if i == entries.len() - 1 {
                if diag_map_of(entries.drop_last()).contains_key(u) {
                    let j = choose|j: int|
                        0 <= j < entries.drop_last().len() && entries.drop_last()[j].uri@ == u;
                    assert(entries[j].uri@ == u);
                    assert(false);
                }
            } else {
                assert(entries.drop_last()[i].uri@ == u);
                assert(entries.last().uri@ != u);
            }
        }
    }
}

proof fn lemma_diag_map_update(entries: Seq<DiagEntry>, i: int, e2: DiagEntry)
    requires
        0 <= i < entries.len(),
        forall|a: int, b: int| 0 <= a < b < entries.len() ==> entries[a].uri@ != entries[b].uri@,
        e2.uri@ == entries[i].uri@,
    ensures
        diag_map_of(entries.update(i, e2)) == diag_map_of(entries).insert(e2.uri@, e2.diags@),
    decreases entries.len(),
{
    let updated = entries.update(i, e2);
    if i == entries.len() - 1 {
        assert(updated.drop_last() =~= entries.drop_last());
        assert(updated.last() == e2);
        assert(diag_map_of(updated) =~= diag_map_of(entries).insert(e2.uri@, e2.diags@));
    } else {
        assert(updated.drop_last() =~= entries.drop_last().update(i, e2));
        lemma_diag_map_update(entries.drop_last(), i, e2);
        assert(updated.last() == entries.last());
        assert(entries.last().uri@ != entries[i].uri@);
        assert(diag_map_of(updated) =~= diag_map_of(entries).insert(e2.uri@, e2.diags@));
    }
}

/// What a delivered response carries to its awaiting caller.
pub enum ResponsePayload {
    /// The server's `result`, as raw JSON text.
    Success(String),
    /// The server's error, verbatim.
    Failure { code: i32, message: String },
}

/// What the message loop must do with one inbound message.
pub enum LoopAction {
    /// Hand the payload to the caller named by the token.
    Deliver { token: u64, payload: ResponsePayload },
    /// A response whose ID no caller awaits: log it and drop it.
    DropUnknownResponse,
    /// Run the registered handler for this server request, then answer
    /// with the same ID.
    RunRequestHandler { id: MessageID, method: String, params: String },
    /// No handler for this server request: answer at once with this
    /// error response.
    WriteResponse(Message),
    /// A `publishDiagnostics` push: decode its params and feed them to
    /// the cache.
    UpdateDiagnostics { params: String },
    /// Run the registered handler for this notification.
    RunNotificationHandler { method: String, params: String },
    /// A notification nobody registered for: log it at debug level.
    LogUnhandledNotification,
    /// Not a request, notification or response: log it and drop it.
    LogInvalid,
}

/// The registries of server-to-client handlers, by method name.
pub struct HandlerRegistry {
    methods: Vec<String>,
}

impl HandlerRegistry {
    /// The registered method names.
    pub closed spec fn view(&self) -> Seq<Seq<char>> {
        self.methods@.map(|i: int, m: String| m@)
    }

    pub fn new() -> (r: HandlerRegistry)
        ensures
            r@ == Seq::<Seq<char>>::empty(),
    {
        let r = HandlerRegistry { methods: Vec::new() };
        proof {
            assert(r@ =~= Seq::<Seq<char>>::empty());
        }
        r
    }

    /// Registers a method; the rim keeps the callable under the same
    /// name.
    pub fn register(&mut self, method: String)
        ensures
            final(self)@ == old(self)@.push(method@),
    {
        self.methods.push(method);
        proof {
            assert(self@ =~= old(self)@.push(method@));
        }
    }

    /// Whether a handler is registered for the method.
    pub fn is_registered(&self, method: &String) -> (r: bool)
        ensures
            r == self@.contains(method@),
    {
        let mut i: usize = 0;
        while i < self.methods.len()
            invariant
                i <= self.methods@.len(),
                forall|j: int| 0 <= j < i ==> self.methods@[j]@ != method@,
            decreases self.methods@.len() - i,
        {
            if self.methods[i] == *method {
                proof {
                    assert(self@[i as int] == method@);
                }
                return true;
            }
            i = i + 1;
        }
        proof {
            assert(forall|j: int| 0 <= j < self@.len() ==> self@[j] != method@);
        }
        false
    }
}

/// The method of a `publishDiagnostics` push.
pub open spec fn publish_diagnostics_method() -> Seq<char> {
    "textDocument/publishDiagnostics"@
}

/// The numeric ID of a message, for the pending-table lookup; responses
/// to this side's requests always carry one.
pub open spec fn numeric_id(m: &Message) -> int {
    match m.id {
        Some(MessageID::Number(n)) => n as int,
        _ => 0,
    }
}

/// Whether a message is a response carrying a numeric ID this side
/// awaits.
pub open spec fn is_awaited_response(m: &Message, pending: Map<int, u64>) -> bool {
    spec_classify(m) is Response && (m.id matches Some(MessageID::Number(n)) && pending.contains_key(
        n as int,
    ))
}

/// The dispatch decision for one inbound message, per the classification:
/// a response resolves (or fails to resolve) a pending caller; a server
/// request runs its handler or is answered method-not-found; a
/// notification updates the diagnostic cache, runs its handler, or is
/// logged; anything else is logged and dropped.
pub fn handle_inbound(
    pending: &mut RequestTracker,
    notification_handlers: &HandlerRegistry,
    request_handlers: &HandlerRegistry,
    m: Message,
) -> (r: LoopAction)
    requires
        old(pending).wf(),
    ensures
        final(pending).wf(),
        final(pending).next_id() == old(pending).next_id(),
        // A response is delivered to exactly the caller whose request
        // bore its ID, and that caller alone stops waiting.
        is_awaited_response(&m, old(pending)@) ==> (r matches LoopAction::Deliver {
            token,
            payload,
        } && token == old(pending)@[numeric_id(&m)] && final(pending)@ == old(pending)@.remove(
            numeric_id(&m),
        ) && (m.error matches Some(e) ==> payload matches ResponsePayload::Failure {
            code,
            message,
        } && code == e.code && message@ == e.message@) && (m.error is None ==> (
        m.result matches Some(res) && payload == ResponsePayload::Success(res)))),
        // Everything else leaves the pending table untouched.
        !(spec_classify(&m) is Response) ==> final(pending)@ == old(pending)@,
        spec_classify(&m) is Response && !is_awaited_response(&m, old(pending)@) ==> (
        r is DropUnknownResponse && final(pending)@ == old(pending)@),
        // Server requests: run the handler when one is registered, else
        // answer method-not-found with the same ID.
        (spec_classify(&m) is ServerRequest && request_handlers@.contains(
            m.method.unwrap()@,
        )) ==> (r matches LoopAction::RunRequestHandler { id, method, params } && Some(id)
            == m.id && method@ == m.method.unwrap()@ && (m.params matches Some(p) ==> params
            == p)),
        (spec_classify(&m) is ServerRequest && !request_handlers@.contains(
            m.method.unwrap()@,
        )) ==> (r matches LoopAction::WriteResponse(resp) && resp.id == m.id && (
        resp.error matches Some(e) && e.code == -32603)),
        // Notifications: the diagnostics push is always taken
        // internally; others run their handler or are logged.
        (spec_classify(&m) is ServerNotification && m.method.unwrap()@
            == publish_diagnostics_method()) ==> (r matches LoopAction::UpdateDiagnostics {
            params,
        } && (m.params matches Some(p) ==> params == p)),
        (spec_classify(&m) is ServerNotification && m.method.unwrap()@
            != publish_diagnostics_method() && notification_handlers@.contains(
            m.method.unwrap()@,
        )) ==> (r matches LoopAction::RunNotificationHandler { method, params } && method@
            == m.method.unwrap()@ && (m.params matches Some(p) ==> params == p)),
        (spec_classify(&m) is ServerNotification && m.method.unwrap()@
            != publish_diagnostics_method() && !notification_handlers@.contains(
            m.method.unwrap()@,
        )) ==> r is LogUnhandledNotification,
        spec_classify(&m) is Invalid ==> r is LogInvalid,
{
    match classify(&m) {
        MessageClass::Response => {
            match &m.id {
                Some(MessageID::Number(n)) => {
                    match pending.take(*n) {
                        Some(token) => {
                            let payload = match m.error {
                                Some(e) => ResponsePayload::Failure {
                                    code: e.code,
                                    message: e.message,
                                },
                                None => match m.result {
                                    Some(res) => ResponsePayload::Success(res),
                                    // A response carries a result or an error.
                                    None => vstd::pervasive::unreached(),
                                },
                            };
                            LoopAction::Deliver { token, payload }
                        },
                        None => LoopAction::DropUnknownResponse,
                    }
                },
                _ => LoopAction::DropUnknownResponse,
            }
        },
        MessageClass::ServerRequest => {
            let method = match m.method {
                Some(s) => s,
                None => String::new(),
            };
            let id = match m.id {
                Some(i) => i,
                None => MessageID::Null,
            };
            let params = match m.params {
                Some(p) => p,
                None => {
                    let mut s = String::new();
                    s.append("null");
                    s
                },
            };
            if request_handlers.is_registered(&method) {
                LoopAction::RunRequestHandler { id, method, params }
            } else {
                let mut msg = String::new();
                msg.append("No handler for request method: ");
                msg.append(method.as_str());
                LoopAction::WriteResponse(Message::new_error_response(id, -32603, msg.as_str()))
            }
        },
        MessageClass::ServerNotification => {
            let method = match m.method {
                Some(s) => s,
                None => String::new(),
            };
            let params = match m.params {
                Some(p) => p,
                None => {
                    let mut s = String::new();
                    s.append("null");
                    s
                },
            };
            let mut pd = String::new();
            pd.append("textDocument/publishDiagnostics");
            if method == pd {
                LoopAction::UpdateDiagnostics { params }
            } else if notification_handlers.is_registered(&method) {
                LoopAction::RunNotificationHandler { method, params }
            } else {
                LoopAction::LogUnhandledNotification
            }
        },
        MessageClass::Invalid => LoopAction::LogInvalid,
    }
}

/// A handler's outcome turned into the response owed for a server
/// request: the handler's value on success, the internal-error code with
/// the handler's message on failure — always under the request's own ID.
pub fn handler_response(id: MessageID, outcome: Result<String, String>) -> (r: Message)
    ensures
        r.id == Some(id),
        r.method is None,
        outcome matches Ok(v) ==> r.result == Some(v) && r.error is None,
        outcome matches Err(e) ==> r.result is None && (r.error matches Some(re) && re.code
            == -32603 && re.message@ == e@),
{
    match outcome {
        Ok(v) => Message::new_response(id, v),
        Err(e) => Message::new_error_response(id, -32603, e.as_str()),
    }
}

/// Where the session stands in its lifecycle.
pub enum Lifecycle {
    /// Nothing sent yet.
    Fresh,
    /// `initialize` sent, its response not yet seen.
    Initializing,
    /// `initialized` sent: requests may flow.
    Ready,
    /// `shutdown` sent, its response not yet seen.
    ShuttingDown,
    /// `exit` sent: nothing may follow.
    Exited,
}

/// The lifecycle machine: its transitions are the only way to obtain the
/// four lifecycle method names, so `initialize` goes out first,
/// `initialized` only after it, `shutdown` only from a ready session, and
/// nothing after `exit`.
pub struct Session {
    state: Lifecycle,
}

impl Session {
    /// The current lifecycle state.
    pub closed spec fn state(&self) -> Lifecycle {
        self.state
    }

    pub fn new() -> (r: Session)
        ensures
            r.state() is Fresh,
    {
        Session { state: Lifecycle::Fresh }
    }

    /// The first outbound traffic of a session: the `initialize` request.
    pub fn begin_initialize(&mut self) -> (method: String)
        requires
            old(self).state() is Fresh,
        ensures
            final(self).state() is Initializing,
            method@ == "initialize"@,
    {
        self.state = Lifecycle::Initializing;
        let mut s = String::new();
        s.append("initialize");
        s
    }

    /// After the server answers `initialize`: the `initialized`
    /// notification, before any other request.
    pub fn finish_initialize(&mut self) -> (method: String)
        requires
            old(self).state() is Initializing,
        ensures
            final(self).state() is Ready,
            method@ == "initialized"@,
    {
        self.state = Lifecycle::Ready;
        let mut s = String::new();
        s.append("initialized");
        s
    }

    /// Whether tool-issued requests may be sent now.
    pub fn is_ready(&self) -> (r: bool)
        ensures
            r == self.state() is Ready,
    {
        match self.state {
            Lifecycle::Ready => true,
            _ => false,
        }
    }

    /// The `shutdown` request; only a ready session may send it.
    pub fn begin_shutdown(&mut self) -> (method: String)
        requires
            old(self).state() is Ready,
        ensures
            final(self).state() is ShuttingDown,
            method@ == "shutdown"@,
    {
        self.state = Lifecycle::ShuttingDown;
        let mut s = String::new();
        s.append("shutdown");
        s
    }

    /// The `exit` notification, after `shutdown`; the session ends and no
    /// transition leads out of the final state.
    pub fn finish_shutdown(&mut self) -> (method: String)
        requires
            old(self).state() is ShuttingDown,
        ensures
            final(self).state() is Exited,
            method@ == "exit"@,
    {
        self.state = Lifecycle::Exited;
        let mut s = String::new();
        s.append("exit");
        s
    }
}

} // verus!
