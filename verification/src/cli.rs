//! The command line: what was asked for, and whether it can be done.
use vstd::prelude::*;

verus! {

/// What the command line asks for besides running the gateway.
#[derive(Debug, PartialEq, Eq, Clone)]
pub enum Command {
    /// `-t`, `--test`: validate the configuration's syntax.
    Test,
    /// `--doctor`: run diagnostics and system health checks.
    Doctor,
    /// `--upgrade`: hot-reload and upgrade the gateway binary.
    Upgrade,
    /// `-s`, `--signal`: send the named control signal to the running instance.
    Signal(String),
    /// `--systemd-setup`: install the systemd unit files.
    SystemdSetup,
}

/// The parsed command line.
#[derive(Debug)]
pub struct CliApp {
    /// `-c`, `--config`: the configuration file.
    pub config: Option<String>,
    /// `-P`, `--pid-file`: the PID file, in place of the default one.
    pub pid_file: Option<String>,
    pub cmd: Option<Command>,
}

/// The message of a test run that names no configuration file.
pub open spec fn spec_test_needs_config() -> Seq<char> {
    "The '--test' flag requires a configuration file via '-c' or '--config'."@
}

impl CliApp {
    /// A test run (`--test`) needs a configuration file; every other
    /// combination is accepted.
    pub fn validate(&self) -> (r: Result<(), String>)
        ensures
            match r {
                Ok(()) => !(self.cmd matches Some(Command::Test) && self.config is None),
                Err(m) => self.cmd matches Some(Command::Test) && self.config is None && m@
                    == spec_test_needs_config(),
            },
    {
        let is_test = match &self.cmd {
            Some(Command::Test) => true,
            _ => false,
        };
        if is_test && self.config.is_none() {
            return Err(
                "The '--test' flag requires a configuration file via '-c' or '--config'.".to_owned(),
            );
        }
        Ok(())
    }
}

} // verus!
