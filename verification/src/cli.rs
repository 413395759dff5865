//! Command-line options.
//!
//! The ticket is read from a prompt on stdin by default; `--ticket-stdin`
//! reads one line from a pipe without a prompt.  Passing the ticket as an
//! argument is kept for compatibility only, and warned about, because it ends
//! up in shell history and process lists.
use vstd::prelude::*;

verus! {

/// The parsed command line.
pub struct Cli {
    /// Log metadata such as endpoint ids (debugging only, never in production).
    pub unsafe_debug_log_metadata: bool,
    /// What to do.
    pub mode: Mode,
}

/// The two ways to start a session.
pub enum Mode {
    /// Wait for a peer; a ticket is shown on start.
    Listen,
    /// Connect to the peer named by a ticket.
    Connect(ConnectOpts),
}

/// Options of the connecting side.
pub struct ConnectOpts {
    /// Read exactly one line from stdin, without a prompt (for pipes).
    pub ticket_stdin: bool,
    /// The ticket given on the command line (discouraged).
    pub ticket_arg: Option<String>,
}

/// Where the connecting side takes the ticket from.
#[derive(Debug, Clone, Copy, PartialEq, Eq, Structural)]
pub enum TicketSource {
    /// The command-line argument, after a warning.
    Argument,
    /// One line from stdin, without a prompt.
    StdinLine,
    /// One line from stdin, after a prompt.
    Prompt,
}

impl ConnectOpts {
    /// The source of the ticket: the argument when one was given, otherwise
    /// stdin, with a prompt unless `--ticket-stdin` was set.
    pub fn ticket_source(&self) -> (r: TicketSource)
        ensures
            r == (if self.ticket_arg is Some {
                TicketSource::Argument
            } else if self.ticket_stdin {
                TicketSource::StdinLine
            } else {
                TicketSource::Prompt
            }),
    {
        if self.ticket_arg.is_some() {
            TicketSource::Argument
        } else if self.ticket_stdin {
            TicketSource::StdinLine
        } else {
            TicketSource::Prompt
        }
    }
}

impl Cli {
    /// The log filter: debug output for this program and iroh only when
    /// metadata logging was asked for, warnings only otherwise.
    pub fn log_filter(&self) -> (r: &'static str)
        ensures
            self.unsafe_debug_log_metadata ==> r@ == "bluewren=debug,iroh=debug"@,
            !self.unsafe_debug_log_metadata ==> r@ == "bluewren=warn,iroh=warn"@,
    {
        if self.unsafe_debug_log_metadata {
            "bluewren=debug,iroh=debug"
        } else {
            "bluewren=warn,iroh=warn"
        }
    }
}

} // verus!
