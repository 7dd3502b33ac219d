//! The transfer server as the console sees it: the port it was started on,
//! and what became of the listener launched for it, learnt from the listener
//! itself.

use vstd::prelude::*;

verus! {

/// The lowest port the server may be started on.
pub const MIN_PORT: u16 = 1024;

/// The highest port the server may be started on.
pub const MAX_PORT: u16 = 49151;

/// A port the server may be started on: a registered port, 1024 to 49151.
pub open spec fn port_in_range(port: u16) -> bool {
    MIN_PORT <= port <= MAX_PORT
}

/// What became of the server's listener.
#[derive(Debug, Clone, Copy, PartialEq, Eq)]
pub enum ListenerState {
    /// No listener was ever launched.
    Idle,
    /// A listener was launched and has not bound its port yet.
    Launched,
    /// The listener has bound its port and accepts connections.
    Listening,
    /// The listener has ended (it could not bind its port, or it stopped).
    Ended,
}

/// What the console knows of the server.
pub struct ServeView {
    pub listener: ListenerState,
    /// The port of the last start that was taken.
    pub port: Option<u16>,
    /// Whether a listener has bound its port: once set, it stays set.
    pub bound: bool,
}

/// A listener that is alive and has not failed: launched or listening.
pub open spec fn active(l: ListenerState) -> bool {
    l == ListenerState::Launched || l == ListenerState::Listening
}

/// What became of a request to start the server.
#[derive(Debug, Clone, Copy, PartialEq, Eq)]
pub enum StartOutcome {
    /// The server takes the port; its listener is to be launched on it.
    Started,
    /// The server is running; nothing changes.
    AlreadyRunning,
    /// The port is outside 1024 to 49151; nothing changes.
    PortOutOfRange,
}

/// A start request on `port`: the server afterwards, and the outcome.
pub open spec fn start_step(s: ServeView, port: u16) -> (ServeView, StartOutcome) {
    if active(s.listener) {
        (s, StartOutcome::AlreadyRunning)
    } else if !port_in_range(port) {
        (s, StartOutcome::PortOutOfRange)
    } else {
        (
            ServeView { listener: ListenerState::Launched, port: Some(port), bound: s.bound },
            StartOutcome::Started,
        )
    }
}

/// The server after its listener reports that it bound its port.
pub open spec fn bound_step(s: ServeView) -> ServeView {
    if s.listener == ListenerState::Launched {
        ServeView { listener: ListenerState::Listening, port: s.port, bound: true }
    } else {
        s
    }
}

/// The server after its listener reports that it ended.
pub open spec fn ended_step(s: ServeView) -> ServeView {
    if active(s.listener) {
        ServeView { listener: ListenerState::Ended, port: s.port, bound: s.bound }
    } else {
        s
    }
}

/// The status text: running from the moment a listener bound its port on.
pub open spec fn state_text(s: ServeView) -> Seq<char> {
    if s.bound {
        "The serve is running"@
    } else {
        "The serve is not running"@
    }
}

/// A port is known exactly when a listener was launched; only a launched
/// listener can have bound, and a listening one has.
pub open spec fn serve_wf(s: ServeView) -> bool {
    &&& (s.listener == ListenerState::Idle) <==> s.port is None
    &&& s.listener == ListenerState::Idle ==> !s.bound
    &&& s.listener == ListenerState::Listening ==> s.bound
}

/// The server's side of the console.
pub struct Serve {
    listener: ListenerState,
    port: Option<u16>,
    bound: bool,
}

impl View for Serve {
    type V = ServeView;

    closed spec fn view(&self) -> ServeView {
        ServeView { listener: self.listener, port: self.port, bound: self.bound }
    }
}

impl Serve {
    /// What a server that was never started is.
    pub open spec fn new_view() -> ServeView {
        ServeView { listener: ListenerState::Idle, port: None, bound: false }
    }

    #[verifier::type_invariant]
    closed spec fn wf(self) -> bool {
        serve_wf(self@)
    }

    /// A server that was never started.
    pub fn new() -> (r: Serve)
        ensures
            r@ == Self::new_view(),
    {
        Serve { listener: ListenerState::Idle, port: None, bound: false }
    }

    /// Whether the server is active and operational: its listener was
    /// launched and has not ended.
    pub fn is_running(&self) -> (r: bool)
        ensures
            r == active(self@.listener),
    {
        match self.listener {
            ListenerState::Launched | ListenerState::Listening => true,
            _ => false,
        }
    }

    /// The port of the last start that was taken.
    pub fn port(&self) -> (r: Option<u16>)
        ensures
            r == self@.port,
            serve_wf(self@),
    {
        proof {
            use_type_invariant(self);
        }
        self.port
    }

    /// The status text: running once a listener has bound its port.
    pub fn state(&self) -> (r: &'static str)
        ensures
            r@ == state_text(self@),
    {
        if self.bound {
            "The serve is running"
        } else {
            "The serve is not running"
        }
    }

    /// Starts the server on `port`, unless it is running or the port is
    /// outside 1024 to 49151.
    pub fn start(&mut self, port: u16) -> (r: StartOutcome)
        ensures
            (final(self)@, r) == start_step(old(self)@, port),
    {
        if self.is_running() {
            return StartOutcome::AlreadyRunning;
        }
        if port < MIN_PORT || port > MAX_PORT {
            return StartOutcome::PortOutOfRange;
        }
        *self = Serve { listener: ListenerState::Launched, port: Some(port), bound: self.bound };
        StartOutcome::Started
    }

    /// Takes the listener's report that it bound its port.
    pub fn listener_bound(&mut self)
        ensures
            final(self)@ == bound_step(old(self)@),
    {
        proof {
            use_type_invariant(&*self);
        }
        if let ListenerState::Launched = self.listener {
            *self = Serve { listener: ListenerState::Listening, port: self.port, bound: true };
        }
    }

    /// Takes the listener's report that it ended.
    pub fn listener_ended(&mut self)
        ensures
            final(self)@ == ended_step(old(self)@),
    {
        proof {
            use_type_invariant(&*self);
        }
        if self.is_running() {
            self.listener = ListenerState::Ended;
        }
    }
}

impl Default for Serve {
    /// A server that was never started.
    fn default() -> (r: Serve)
        ensures
            r@ == Serve::new_view(),
    {
        Serve::new()
    }
}

/// While a launched listener has not ended, every later start is refused as
/// the server running, whatever its port, and changes nothing; the listener
/// binding its port changes that not.
pub proof fn law_start_succeeds_once(s: ServeView, port: u16, later: u16)
    requires
        start_step(s, port).1 == StartOutcome::Started,
    ensures
        ({
            let t = start_step(s, port).0;
            &&& start_step(t, later) == (t, StartOutcome::AlreadyRunning)
            &&& start_step(bound_step(t), later) == (bound_step(t), StartOutcome::AlreadyRunning)
        }),
{
}

/// A start succeeds exactly when the server is not running and the port is
/// in range, and then the server holds that port with a launched listener.
pub proof fn law_start_success(s: ServeView, port: u16)
    ensures
        (start_step(s, port).1 == StartOutcome::Started) <==> (!active(s.listener)
            && port_in_range(port)),
        start_step(s, port).1 == StartOutcome::Started ==> start_step(s, port).0 == (ServeView {
            listener: ListenerState::Launched,
            port: Some(port),
            bound: s.bound,
        }),
{
}

/// A refused start leaves the server as it was.
pub proof fn law_refused_start_changes_nothing(s: ServeView, port: u16)
    requires
        start_step(s, port).1 != StartOutcome::Started,
    ensures
        start_step(s, port).0 == s,
{
}

/// A listener that ends, for instance because it could not bind its port,
/// leaves the server not running, and a start on a port in range is then
/// taken again.
pub proof fn law_ended_listener_not_running(s: ServeView, port: u16)
    requires
        port_in_range(port),
    ensures
        !active(ended_step(s).listener),
        start_step(ended_step(s), port).1 == StartOutcome::Started,
{
}

/// The status text says running exactly when a listener has bound its port;
/// it says so from that report on, whatever comes after, also after the
/// listener ends or the server is started again.
pub proof fn law_state_follows_binding(s: ServeView, port: u16)
    ensures
        (state_text(s) == "The serve is running"@) <==> s.bound,
        s.listener == ListenerState::Launched ==> state_text(bound_step(s))
            == "The serve is running"@,
        s.bound ==> state_text(ended_step(s)) == "The serve is running"@,
        s.bound ==> state_text(start_step(s, port).0) == "The serve is running"@,
        s.bound ==> state_text(bound_step(s)) == "The serve is running"@,
{
    reveal_strlit("The serve is running");
    reveal_strlit("The serve is not running");
    assert("The serve is running"@ != "The serve is not running"@) by {
        assert("The serve is running"@[13] != "The serve is not running"@[13]);
    }
}

/// The server after the starts `ports`, one after another, from `s`.
pub open spec fn after_starts(s: ServeView, ports: Seq<u16>) -> ServeView
    decreases ports.len(),
{
    if ports.len() == 0 {
        s
    } else {
        start_step(after_starts(s, ports.drop_last()), ports.last()).0
    }
}

/// The first port of `ports` in range, if any.
pub open spec fn first_in_range(ports: Seq<u16>) -> Option<u16>
    decreases ports.len(),
{
    if ports.len() == 0 {
        None
    } else if port_in_range(ports[0]) {
        Some(ports[0])
    } else {
        first_in_range(ports.drop_first())
    }
}

/// After any starts on a server that was never started, with no report from
/// the listener in between: the port is known exactly while the server is
/// running, and it is the first port in range that was asked for.
pub proof fn law_starts_keep_first_port(ports: Seq<u16>)
    ensures
        after_starts(Serve::new_view(), ports).port is Some <==> active(
            after_starts(Serve::new_view(), ports).listener,
        ),
        after_starts(Serve::new_view(), ports).port == first_in_range(ports),
        serve_wf(after_starts(Serve::new_view(), ports)),
    decreases ports.len(),
{
    if ports.len() > 0 {
        let front = ports.drop_last();
        law_starts_keep_first_port(front);
        lemma_first_in_range_push(front, ports.last());
        assert(front.push(ports.last()) =~= ports);
        let prev = after_starts(Serve::new_view(), front);
        assert(prev.listener == ListenerState::Idle || prev.listener == ListenerState::Launched)
            by {
            lemma_starts_launched_or_idle(front);
        }
    }
}

/// Starts alone leave the listener never launched or launched.
proof fn lemma_starts_launched_or_idle(ports: Seq<u16>)
    ensures
        after_starts(Serve::new_view(), ports).listener == ListenerState::Idle
            || after_starts(Serve::new_view(), ports).listener == ListenerState::Launched,
        !after_starts(Serve::new_view(), ports).bound,
    decreases ports.len(),
{
    if ports.len() > 0 {
        lemma_starts_launched_or_idle(ports.drop_last());
    }
}

/// The first port in range of `ports` followed by `p`.
proof fn lemma_first_in_range_push(ports: Seq<u16>, p: u16)
    ensures
        first_in_range(ports.push(p)) == match first_in_range(ports) {
            Some(q) => Some(q),
            None => if port_in_range(p) {
                Some(p)
            } else {
                None
            },
        },
    decreases ports.len(),
{
    if ports.len() > 0 {
        assert(ports.push(p)[0] == ports[0]);
        assert(ports.push(p).drop_first() =~= ports.drop_first().push(p));
        lemma_first_in_range_push(ports.drop_first(), p);
    } else {
        assert(ports.push(p)[0] == p);
        assert(ports.push(p).drop_first() =~= Seq::<u16>::empty());
        assert(first_in_range(Seq::<u16>::empty()) is None);
    }
}

} // verus!
