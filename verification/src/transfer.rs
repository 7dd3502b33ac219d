//! The console: what each command does to the server and what it answers.

use vstd::prelude::*;
use vstd::utf8::encode_utf8;

use crate::cli::Commands;
use crate::serve::{
    active, port_in_range, bound_step, ended_step, start_step, state_text, Serve, ServeView, StartOutcome,
};
use crate::text::{append_bytes, ascii, decimal, decimal_bytes, literal_bytes};

verus! {

broadcast use vstd::string::is_ascii_spec_bytes;

/// What a command answers.
pub struct Reply {
    /// Whether the console is to be left.
    pub quit: bool,
    /// The text to show, as UTF-8 bytes, if any.
    pub message: Option<Vec<u8>>,
    /// The port to launch the server's listener on, if the command started it.
    pub launch: Option<u16>,
}

/// What a reply holds.
pub struct ReplyView {
    pub quit: bool,
    pub message: Option<Seq<u8>>,
    pub launch: Option<u16>,
}

impl View for Reply {
    type V = ReplyView;

    open spec fn view(&self) -> ReplyView {
        ReplyView {
            quit: self.quit,
            message: match self.message {
                Some(m) => Some(m@),
                None => None,
            },
            launch: self.launch,
        }
    }
}

/// A reply that only shows `text`.
pub open spec fn say(text: Seq<u8>) -> ReplyView {
    ReplyView { quit: false, message: Some(text), launch: None }
}

/// The command `cmd` on the server `current`: the server afterwards, and
/// the reply.
pub open spec fn respond_step(current: ServeView, cmd: Commands) -> (ServeView, ReplyView) {
    match cmd {
        Commands::Exit => (
            current,
            ReplyView { quit: true, message: Some(ascii("Exiting server"@)), launch: None },
        ),
        Commands::Start { port } => {
            let (next, outcome) = start_step(current, port);
            (
                next,
                match outcome {
                    StartOutcome::Started => ReplyView {
                        quit: false,
                        message: None,
                        launch: Some(port),
                    },
                    StartOutcome::AlreadyRunning => say(ascii("serve is already running"@)),
                    StartOutcome::PortOutOfRange => say(
                        ascii("port "@) + decimal(port as nat) + ascii(" is not in range"@),
                    ),
                },
            )
        },
        Commands::Status => (current, say(encode_utf8(state_text(current)))),
        Commands::Port => (
            current,
            say(
                match current.port {
                    Some(p) => decimal(p as nat),
                    None => ascii("No listening port"@),
                },
            ),
        ),
    }
}

/// The console's state: the server it drives.
pub struct Transfer {
    serve: Serve,
}

impl View for Transfer {
    type V = ServeView;

    closed spec fn view(&self) -> ServeView {
        self.serve@
    }
}

impl Transfer {
    /// A console whose server was never started.
    pub fn new() -> (r: Transfer)
        ensures
            r@ == Serve::new_view(),
    {
        Transfer { serve: Serve::new() }
    }

    /// The server.
    pub fn serve(&self) -> (r: &Serve)
        ensures
            r@ == self@,
    {
        &self.serve
    }

    /// Takes the listener's report that it bound its port.
    pub fn listener_bound(&mut self)
        ensures
            final(self)@ == bound_step(old(self)@),
    {
        self.serve.listener_bound();
    }

    /// Takes the listener's report that it ended.
    pub fn listener_ended(&mut self)
        ensures
            final(self)@ == ended_step(old(self)@),
    {
        self.serve.listener_ended();
    }

    /// Carries out one command.
    pub fn respond(&mut self, cmd: Commands) -> (r: Reply)
        ensures
            (final(self)@, r@) == respond_step(old(self)@, cmd),
    {
        match cmd {
            Commands::Exit => {
                proof {
                    reveal_strlit("Exiting server");
                }
                Reply { quit: true, message: Some(literal_bytes("Exiting server")), launch: None }
            },
            Commands::Start { port } => {
                match self.serve.start(port) {
                    StartOutcome::Started => Reply { quit: false, message: None, launch: Some(port) },
                    StartOutcome::AlreadyRunning => {
                        proof {
                            reveal_strlit("serve is already running");
                        }
                        Reply {
                            quit: false,
                            message: Some(literal_bytes("serve is already running")),
                            launch: None,
                        }
                    },
                    StartOutcome::PortOutOfRange => {
                        proof {
                            reveal_strlit("port ");
                            reveal_strlit(" is not in range");
                        }
                        let mut m = literal_bytes("port ");
                        append_bytes(&mut m, decimal_bytes(port as u64).as_slice());
                        append_bytes(&mut m, literal_bytes(" is not in range").as_slice());
                        Reply { quit: false, message: Some(m), launch: None }
                    },
                }
            },
            Commands::Status => {
                let text = self.serve.state();
                let mut m: Vec<u8> = Vec::new();
                append_bytes(&mut m, text.as_bytes());
                assert(m@ =~= encode_utf8(state_text(self@)));
                Reply { quit: false, message: Some(m), launch: None }
            },
            Commands::Port => {
                let m = match self.serve.port() {
                    Some(p) => decimal_bytes(p as u64),
                    None => {
                        proof {
                            reveal_strlit("No listening port");
                        }
                        literal_bytes("No listening port")
                    },
                };
                Reply { quit: false, message: Some(m), launch: None }
            },
        }
    }
}

impl Default for Transfer {
    /// A console whose server was never started.
    fn default() -> (r: Transfer)
        ensures
            r@ == Serve::new_view(),
    {
        Transfer::new()
    }
}

/// Only `exit` leaves the console, and it leaves the server as it was.
pub proof fn law_only_exit_quits(current: ServeView, cmd: Commands)
    ensures
        respond_step(current, cmd).1.quit <==> cmd == Commands::Exit,
        cmd == Commands::Exit ==> respond_step(current, cmd).0 == current,
{
}

/// Only `start` changes the server.
pub proof fn law_only_start_changes_serve(current: ServeView, cmd: Commands)
    requires
        !(cmd is Start),
    ensures
        respond_step(current, cmd).0 == current,
{
}

/// After a `start` that launched the listener, `port` answers that port,
/// and every later `start` answers that the server is already running, until
/// the listener ends.
pub proof fn law_port_after_start(current: ServeView, port: u16, later: u16)
    requires
        respond_step(current, Commands::Start { port }).1.launch is Some,
    ensures
        ({
            let next = respond_step(current, Commands::Start { port }).0;
            &&& respond_step(next, Commands::Port).1 == say(decimal(port as nat))
            &&& respond_step(next, Commands::Start { port: later }) == (
                next,
                say(ascii("serve is already running"@)),
            )
            &&& respond_step(bound_step(next), Commands::Start { port: later }) == (
                bound_step(next),
                say(ascii("serve is already running"@)),
            )
        }),
{
}

/// A `start` that is taken launches the listener on exactly the port it
/// names, and the server then reports that port; a `start` that is not taken
/// launches nothing.
pub proof fn law_launch_on_named_port(current: ServeView, port: u16)
    ensures
        respond_step(current, Commands::Start { port }).1.launch is Some ==> respond_step(
            current,
            Commands::Start { port },
        ).1.launch == Some(port) && respond_step(current, Commands::Start { port }).0.port == Some(
            port,
        ),
        respond_step(current, Commands::Start { port }).1.launch is None ==> respond_step(
            current,
            Commands::Start { port },
        ).0 == current,
        (respond_step(current, Commands::Start { port }).1.launch is Some) <==> (!active(
            current.listener,
        ) && port_in_range(port)),
        forall|c: Commands| !(c is Start) ==> (#[trigger] respond_step(current, c)).1.launch is None,
{
}

/// What the console does with one attempt to read a line.
pub enum ReadOutcome {
    /// A line was read.
    Line(String),
    /// The user pressed CTRL-C.
    Interrupted,
    /// The input ended (CTRL-D).
    Eof,
    /// Reading failed otherwise.
    Failed,
}

/// The console's next step after an attempt to read a line.
pub enum LoopStep {
    /// Read the next line.
    Skip,
    /// Carry out the line read.
    Respond,
    /// Show the text and leave.
    Stop(Vec<u8>),
    /// Show the text followed by the reading error, and read the next line.
    Report(Vec<u8>),
}

/// The console's next step: an empty line is skipped, another line is
/// carried out, CTRL-C and CTRL-D leave with their names shown, a failed read
/// is reported.
pub fn read_step(outcome: &ReadOutcome) -> (r: LoopStep)
    ensures
        match outcome {
            ReadOutcome::Line(l) => if l@.len() == 0 {
                r is Skip
            } else {
                r is Respond
            },
            ReadOutcome::Interrupted => r matches LoopStep::Stop(m) && m@ == ascii("CTRL-C"@),
            ReadOutcome::Eof => r matches LoopStep::Stop(m) && m@ == ascii("CTRL-D"@),
            ReadOutcome::Failed => r matches LoopStep::Report(m) && m@ == ascii(
                "readline error: "@,
            ),
        },
{
    match outcome {
        ReadOutcome::Line(l) => {
            if l.as_str().is_empty() {
                LoopStep::Skip
            } else {
                LoopStep::Respond
            }
        },
        ReadOutcome::Interrupted => {
            proof {
                reveal_strlit("CTRL-C");
            }
            LoopStep::Stop(literal_bytes("CTRL-C"))
        },
        ReadOutcome::Eof => {
            proof {
                reveal_strlit("CTRL-D");
            }
            LoopStep::Stop(literal_bytes("CTRL-D"))
        },
        ReadOutcome::Failed => {
            proof {
                reveal_strlit("readline error: ");
            }
            LoopStep::Report(literal_bytes("readline error: "))
        },
    }
}

} // verus!
