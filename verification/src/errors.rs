//! The command-line error kinds the verified decisions report.

use vstd::prelude::*;

verus! {

/// How a plugin lifecycle command failed.
#[derive(Clone, Copy, Debug, PartialEq, Eq, Structural)]
pub enum PluginLifecycleFailureKind {
    Failed,
    NotFound,
    Refused,
}

/// An error of the command-line gateway, by the stage it belongs to.
#[derive(Debug)]
pub enum CliError {
    Config(String),
    Install(String),
    Launch(String),
    /// A failure of the relay runtime, by its message.
    Flow(String),
    /// A plugin lifecycle command (`command`, on `target`) failed.
    PluginLifecycle {
        command: String,
        target: Option<String>,
        kind: PluginLifecycleFailureKind,
        code: Option<String>,
        message: String,
    },
}

impl CliError {
    /// The error's message.
    pub open spec fn text(&self) -> Seq<char> {
        match self {
            CliError::Config(m) => m@,
            CliError::Install(m) => m@,
            CliError::Launch(m) => m@,
            CliError::Flow(m) => m@,
            CliError::PluginLifecycle { message, .. } => message@,
        }
    }

    /// The error's message.
    pub fn message(&self) -> (m: &String)
        ensures
            m@ == self.text(),
    {
        match self {
            CliError::Config(m) => m,
            CliError::Install(m) => m,
            CliError::Launch(m) => m,
            CliError::Flow(m) => m,
            CliError::PluginLifecycle { message, .. } => message,
        }
    }
}

/// A launch error carrying a fixed message.
pub fn launch_error(message: &str) -> (e: CliError)
    ensures
        e is Launch,
        e.text() == message@,
{
    CliError::Launch(message.to_owned())
}

} // verus!
