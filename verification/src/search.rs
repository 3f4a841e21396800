//! The search: iterative deepening over an alpha-beta search, bounded by
//! depth and time, and stopped by command.

pub mod alpha_beta;
pub mod defs;
pub mod iter_deep;
pub mod time;

use crate::search::defs::{channel_send, SearchControl, SearchTerminate};
use crossbeam_channel::Sender;
use vstd::prelude::*;

verus! {

/// The caller's end of a search that runs elsewhere: the channel on which
/// commands go to it, once there is one.
pub struct Search {
    control_tx: Option<Sender<SearchControl>>,
}

impl Search {
    /// Whether a channel for commands has been set.
    pub closed spec fn connected(&self) -> bool {
        self.control_tx is Some
    }

    /// A search without a channel yet.
    pub fn new() -> (search: Search)
        ensures
            !search.connected(),
    {
        Self { control_tx: None }
    }

    /// Sets the channel on which commands go to the search.
    pub fn connect(&mut self, control_tx: Sender<SearchControl>)
        ensures
            final(self).connected(),
    {
        self.control_tx = Some(control_tx);
    }

    /// Sends a command to the search, and says whether the channel took it.
    /// Without a channel there is nothing to send, and nothing is amiss.
    pub fn send(&self, cmd: SearchControl) -> (sent: bool)
        ensures
            !self.connected() ==> sent,
    {
        match &self.control_tx {
            Some(tx) => channel_send(tx, cmd),
            None => true,
        }
    }
}

/// What the worker that runs the searches does next: it waits for commands
/// while it is halted, searches when it is told to start, and ends when it
/// is told to quit.
#[derive(Clone, Copy, Debug, PartialEq, Eq, Structural)]
pub struct Worker {
    pub halt: bool,
    pub quit: bool,
}

impl Worker {
    /// The worker before its first command: halted.
    pub fn new() -> (worker: Worker)
        ensures
            worker == (Worker { halt: true, quit: false }),
    {
        Worker { halt: true, quit: false }
    }

    /// The worker after the command `cmd`.
    pub open spec fn after_command(self, cmd: SearchControl) -> Worker {
        match cmd {
            SearchControl::Start => Worker { halt: false, quit: self.quit },
            SearchControl::Stop => Worker { halt: true, quit: self.quit },
            SearchControl::Quit => Worker { halt: self.halt, quit: true },
            SearchControl::Nothing => self,
        }
    }

    /// The worker after a search that ended with `termination`.
    pub open spec fn after_search(self, termination: SearchTerminate) -> Worker {
        match termination {
            SearchTerminate::Stop => Worker { halt: true, quit: self.quit },
            SearchTerminate::Quit => Worker { halt: true, quit: true },
            SearchTerminate::Nothing => self,
        }
    }

    /// Takes a command, and says whether a search is to be run now: after
    /// a start, unless the worker is to quit.
    pub fn command(&mut self, cmd: SearchControl) -> (search: bool)
        ensures
            *final(self) == old(self).after_command(cmd),
            search == (!final(self).halt && !final(self).quit),
    {
        match cmd {
            SearchControl::Start => {
                self.halt = false;
            },
            SearchControl::Stop => {
                self.halt = true;
            },
            SearchControl::Quit => {
                self.quit = true;
            },
            SearchControl::Nothing => {},
        }
        !self.halt && !self.quit
    }

    /// Takes note of how a search ended: a search that was stopped or told
    /// to quit halts the worker, and one told to quit ends it.
    pub fn finished(&mut self, termination: SearchTerminate)
        ensures
            *final(self) == old(self).after_search(termination),
    {
        match termination {
            SearchTerminate::Stop => {
                self.halt = true;
            },
            SearchTerminate::Quit => {
                self.halt = true;
                self.quit = true;
            },
            SearchTerminate::Nothing => {},
        }
    }
}

} // verus!
