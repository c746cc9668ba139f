use pkgbuild::error::Error;
use pkgbuild::pump::{take_child_io, Action, Pipe, Pump};

#[test]
fn pipe_that_is_there_is_taken() {
    let mut pipe = Some(5);
    assert_eq!(take_child_io(&mut pipe), Ok(5));
    assert_eq!(pipe, None);
}

#[test]
fn pipe_that_is_missing() {
    let mut pipe: Option<u8> = None;
    assert_eq!(take_child_io(&mut pipe), Err(Error::ChildStdioIncomplete));
}

#[test]
fn pump_serves_the_pipes_in_turns() {
    let mut pump = Pump::new(10, 4);
    assert_eq!(pump.action(), Action::Write { start: 0, end: 4 });
    pump.wrote(4);
    assert_eq!(pump.action(), Action::ReadStdout);
    pump.read(b"ab");
    assert_eq!(pump.action(), Action::ReadStderr);
    pump.blocked();
    assert_eq!(pump.action(), Action::Write { start: 4, end: 8 });
    pump.wrote(3);
    assert_eq!(pump.action(), Action::ReadStdout);
    pump.blocked();
    assert_eq!(pump.action(), Action::ReadStderr);
    pump.read(b"warn");
    assert_eq!(pump.action(), Action::Write { start: 7, end: 10 });
    pump.blocked();
    assert_eq!(pump.pipe(), Some(Pipe::Stdout));
    pump.read(b"cd");
    pump.blocked();
    assert_eq!(pump.action(), Action::Write { start: 7, end: 10 });
    pump.wrote(3);
    pump.read(b"");
    pump.blocked();
    assert_eq!(pump.action(), Action::CloseStdin);
    pump.closed_stdin();
    assert_eq!(pump.action(), Action::ReadStderr);
    pump.read(b"ing");
    assert_eq!(pump.action(), Action::ReadStderr);
    pump.read(b"");
    assert_eq!(pump.action(), Action::Finish);
    assert_eq!(pump.pipe(), None);
    assert_eq!(pump.finish(), (b"abcd".to_vec(), b"warning".to_vec()));
}

#[test]
fn pump_without_input_closes_it_first() {
    let mut pump = Pump::new(0, 4096);
    assert_eq!(pump.action(), Action::CloseStdin);
    pump.closed_stdin();
    assert_eq!(pump.action(), Action::ReadStdout);
}

#[test]
fn pipe_turns() {
    assert_eq!(Pipe::Stdin.successor(), Pipe::Stdout);
    assert_eq!(Pipe::Stdout.successor(), Pipe::Stderr);
    assert_eq!(Pipe::Stderr.successor(), Pipe::Stdin);
}
