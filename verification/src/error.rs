//! What can go wrong while a pipeline is read or run.
use vstd::prelude::*;

use crate::text::{copy_text, decimal, to_decimal};

verus! {

#[derive(Debug)]
pub enum Error {
    /// A pipeline file could not be parsed.
    PipelineParse(String),
    /// The stage dependency graph contains a cycle or references an unknown stage.
    InvalidPipeline(String),
    /// A referenced plugin identifier has no registered implementation.
    UnknownPlugin(String),
    /// A plugin's required external binary is not installed / not on PATH.
    MissingBinary { plugin: String, binary: String },
    /// A plugin returned an error while executing.
    PluginExecution { plugin: String, message: String },
    /// A stage did not complete within its configured timeout.
    Timeout { stage: String, secs: u64 },
    /// Underlying I/O failure (spawning a process, reading a file, etc).
    Io(String),
}

/// The mathematical model of an error.
pub enum ErrorView {
    PipelineParse(Seq<char>),
    InvalidPipeline(Seq<char>),
    UnknownPlugin(Seq<char>),
    MissingBinary { plugin: Seq<char>, binary: Seq<char> },
    PluginExecution { plugin: Seq<char>, message: Seq<char> },
    Timeout { stage: Seq<char>, secs: u64 },
    Io(Seq<char>),
}

impl View for Error {
    type V = ErrorView;

    open spec fn view(&self) -> ErrorView {
        match *self {
            Error::PipelineParse(m) => ErrorView::PipelineParse(m@),
            Error::InvalidPipeline(m) => ErrorView::InvalidPipeline(m@),
            Error::UnknownPlugin(m) => ErrorView::UnknownPlugin(m@),
            Error::MissingBinary { plugin, binary } => ErrorView::MissingBinary {
                plugin: plugin@,
                binary: binary@,
            },
            Error::PluginExecution { plugin, message } => ErrorView::PluginExecution {
                plugin: plugin@,
                message: message@,
            },
            Error::Timeout { stage, secs } => ErrorView::Timeout { stage: stage@, secs },
            Error::Io(m) => ErrorView::Io(m@),
        }
    }
}

impl ErrorView {
    /// The message shown to users.
    pub open spec fn message(self) -> Seq<char> {
        match self {
            ErrorView::PipelineParse(m) => "failed to parse pipeline: "@ + m,
            ErrorView::InvalidPipeline(m) => "invalid pipeline definition: "@ + m,
            ErrorView::UnknownPlugin(m) => "unknown plugin: "@ + m,
            ErrorView::MissingBinary { plugin, binary } => "plugin '"@ + plugin
                + "' requires binary '"@ + binary + "' which was not found on PATH"@,
            ErrorView::PluginExecution { plugin, message } => "plugin '"@ + plugin + "' failed: "@
                + message,
            ErrorView::Timeout { stage, secs } => "stage '"@ + stage + "' timed out after "@
                + decimal(secs as nat) + "s"@,
            ErrorView::Io(m) => "io error: "@ + m,
        }
    }
}

impl Error {
    /// The message shown to users.
    pub fn to_string(&self) -> (r: String)
        ensures
            r@ == self@.message(),
    {
        match self {
            Error::PipelineParse(m) => {
                let mut r = copy_text("failed to parse pipeline: ");
                r.append(m.as_str());
                r
            },
            Error::InvalidPipeline(m) => {
                let mut r = copy_text("invalid pipeline definition: ");
                r.append(m.as_str());
                r
            },
            Error::UnknownPlugin(m) => {
                let mut r = copy_text("unknown plugin: ");
                r.append(m.as_str());
                r
            },
            Error::MissingBinary { plugin, binary } => {
                let mut r = copy_text("plugin '");
                r.append(plugin.as_str());
                r.append("' requires binary '");
                r.append(binary.as_str());
                r.append("' which was not found on PATH");
                r
            },
            Error::PluginExecution { plugin, message } => {
                let mut r = copy_text("plugin '");
                r.append(plugin.as_str());
                r.append("' failed: ");
                r.append(message.as_str());
                r
            },
            Error::Timeout { stage, secs } => {
                let mut r = copy_text("stage '");
                r.append(stage.as_str());
                r.append("' timed out after ");
                r.append(to_decimal(*secs).as_str());
                r.append("s");
                r
            },
            Error::Io(m) => {
                let mut r = copy_text("io error: ");
                r.append(m.as_str());
                r
            },
        }
    }
}

/// A failure of the named plugin.
pub fn plugin_failure(plugin: &str, message: String) -> (r: Error)
    ensures
        r@ == (ErrorView::PluginExecution { plugin: plugin@, message: message@ }),
{
    Error::PluginExecution { plugin: copy_text(plugin), message }
}

} // verus!
