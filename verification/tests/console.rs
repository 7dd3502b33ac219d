use transfer::serve::StartOutcome;
use transfer::transfer::{read_step, LoopStep, ReadOutcome};
use transfer::{Cli, Commands, Serve, Transfer};

#[test]
fn serve_starts_once_in_range() {
    let mut serve = Serve::new();
    assert!(!serve.is_running());
    assert_eq!(serve.port(), None);
    assert_eq!(serve.start(8080), StartOutcome::Started);
    assert!(serve.is_running());
    assert_eq!(serve.port(), Some(8080));
    assert_eq!(serve.start(9090), StartOutcome::AlreadyRunning);
    assert_eq!(serve.port(), Some(8080));
}

#[test]
fn serve_port_bounds() {
    let mut serve = Serve::new();
    assert_eq!(serve.start(1023), StartOutcome::PortOutOfRange);
    assert_eq!(serve.start(49152), StartOutcome::PortOutOfRange);
    assert_eq!(serve.start(0), StartOutcome::PortOutOfRange);
    assert!(!serve.is_running());
    assert_eq!(serve.start(1024), StartOutcome::Started);
    let mut other = Serve::new();
    assert_eq!(other.start(49151), StartOutcome::Started);
}

#[test]
fn serve_state_text() {
    let mut serve = Serve::default();
    assert_eq!(serve.state(), "The serve is not running");
    serve.listener_bound();
    assert_eq!(serve.state(), "The serve is not running");
    assert_eq!(serve.start(8080), StartOutcome::Started);
    assert_eq!(serve.state(), "The serve is not running");
    serve.listener_bound();
    assert_eq!(serve.state(), "The serve is running");
    assert!(serve.is_running());
    serve.listener_ended();
    assert_eq!(serve.state(), "The serve is running");
    assert!(!serve.is_running());
    assert_eq!(serve.start(8080), StartOutcome::Started);
    assert_eq!(serve.state(), "The serve is running");
}

#[test]
fn failed_bind_is_not_running_and_start_is_taken_again() {
    let mut serve = Serve::new();
    assert_eq!(serve.start(8080), StartOutcome::Started);
    assert!(serve.is_running());
    serve.listener_ended();
    assert!(!serve.is_running());
    assert_eq!(serve.port(), Some(8080));
    assert_eq!(serve.start(8081), StartOutcome::Started);
    assert_eq!(serve.port(), Some(8081));
    assert!(serve.is_running());
}

fn text(m: &Option<Vec<u8>>) -> String {
    String::from_utf8(m.clone().unwrap()).unwrap()
}

#[test]
fn respond_exit() {
    let mut t = Transfer::new();
    let r = t.respond(Commands::Exit);
    assert!(r.quit);
    assert_eq!(text(&r.message), "Exiting server");
    assert_eq!(r.launch, None);
}

#[test]
fn respond_start_then_port_and_status() {
    let mut t = Transfer::new();
    let r = t.respond(Commands::Port);
    assert_eq!(text(&r.message), "No listening port");
    let r = t.respond(Commands::Start { port: 8080 });
    assert!(!r.quit);
    assert_eq!(r.message, None);
    assert_eq!(r.launch, Some(8080));
    let r = t.respond(Commands::Port);
    assert_eq!(text(&r.message), "8080");
    let r = t.respond(Commands::Status);
    assert_eq!(text(&r.message), "The serve is not running");
    t.listener_bound();
    let r = t.respond(Commands::Status);
    assert_eq!(text(&r.message), "The serve is running");
    let r = t.respond(Commands::Start { port: 9000 });
    assert_eq!(text(&r.message), "serve is already running");
    assert_eq!(r.launch, None);
    assert_eq!(t.serve().port(), Some(8080));
}

#[test]
fn respond_start_out_of_range() {
    let mut t = Transfer::new();
    let r = t.respond(Commands::Start { port: 80 });
    assert_eq!(text(&r.message), "port 80 is not in range");
    assert_eq!(r.launch, None);
    assert!(!t.serve().is_running());
}

#[test]
fn cli_holds_its_command() {
    let cli = Cli::new(Commands::Start { port: transfer::cli::DEFAULT_PORT });
    assert_eq!(cli.cmd, Commands::Start { port: 8080 });
}

#[test]
fn respond_after_listener_ended() {
    let mut t = Transfer::default();
    assert_eq!(t.respond(Commands::Start { port: 8080 }).launch, Some(8080));
    t.listener_ended();
    let r = t.respond(Commands::Status);
    assert_eq!(text(&r.message), "The serve is not running");
    assert_eq!(t.respond(Commands::Start { port: 8080 }).launch, Some(8080));
    t.listener_bound();
    t.listener_ended();
    let r = t.respond(Commands::Status);
    assert_eq!(text(&r.message), "The serve is running");
    assert_eq!(t.respond(Commands::Start { port: 8080 }).launch, Some(8080));
}

#[test]
fn read_steps() {
    assert!(matches!(read_step(&ReadOutcome::Line(String::new())), LoopStep::Skip));
    assert!(matches!(read_step(&ReadOutcome::Line("status".to_string())), LoopStep::Respond));
    match read_step(&ReadOutcome::Interrupted) {
        LoopStep::Stop(m) => assert_eq!(m, b"CTRL-C".to_vec()),
        _ => panic!("expected stop"),
    }
    match read_step(&ReadOutcome::Eof) {
        LoopStep::Stop(m) => assert_eq!(m, b"CTRL-D".to_vec()),
        _ => panic!("expected stop"),
    }
    match read_step(&ReadOutcome::Failed) {
        LoopStep::Report(m) => assert_eq!(m, b"readline error: ".to_vec()),
        _ => panic!("expected report"),
    }
}
