//! Process supervisor model: the state and decisions of one managed server
//! process.  The surrounding application spawns the child, pumps its two
//! output pipes into `record_line`, polls liveness, writes the bytes
//! `send_command` hands back, and carries out the shutdown steps a
//! `StopPlan` names; every decision and the bounded console log live here.
//!
//! The console log is bounded-drop: it retains the most recent
//! `MAX_LOG_LINES` lines and discards the oldest first.

use vstd::prelude::*;
use vstd::string::StrSliceExecFns;
use vstd::string::StringExecFns;

use crate::errors::CoreError;
use crate::strutil::joined;

verus! {

/// Retention bound of the console log, in lines.
pub const MAX_LOG_LINES: usize = 1000;

/// Grace period granted to a graceful shutdown before force-termination, in
/// milliseconds.
pub const GRACE_MILLIS: u64 = 500;

/// Mathematical model of a managed process: its liveness flag and the
/// console lines accumulated since the last drain.
pub ghost struct ProcessModel {
    pub running: bool,
    pub pending: Seq<Seq<char>>,
}

/// One managed instance of the external server executable, as the library
/// tracks it: a liveness flag and the bounded console log.
pub struct ServerProcess {
    running: bool,
    pending: Vec<String>,
}

impl View for ServerProcess {
    type V = ProcessModel;

    closed spec fn view(&self) -> ProcessModel {
        ProcessModel { running: self.running, pending: self.pending.deep_view() }
    }
}

/// The shutdown steps the caller carries out: write `exit_command` to the
/// child, wait at most `grace_millis`, then force-terminate and reap the
/// child if it is still alive.
pub struct StopPlan {
    pub exit_command: String,
    pub grace_millis: u64,
}

/// A console line as it is logged: standard-error lines carry a
/// distinguishing prefix.
pub open spec fn tagged_line(line: Seq<char>, from_stderr: bool) -> Seq<char> {
    if from_stderr {
        "[ERROR] "@ + line
    } else {
        line
    }
}

/// A log extended by one line, discarding the oldest line beyond the
/// retention bound.
pub open spec fn push_bounded(log: Seq<Seq<char>>, line: Seq<char>) -> Seq<Seq<char>> {
    let grown = log.push(line);
    if grown.len() <= MAX_LOG_LINES {
        grown
    } else {
        grown.skip(1)
    }
}

/// The platform-specific file name of the server executable.
pub fn executable_name(windows: bool) -> (r: &'static str)
    ensures
        windows ==> r@ == "BeamMP-Server.exe"@,
        !windows ==> r@ == "BeamMP-Server"@,
{
    if windows {
        "BeamMP-Server.exe"
    } else {
        "BeamMP-Server"
    }
}

/// The path of the server executable inside a server directory.
pub fn executable_path(server_path: &str, windows: bool) -> (r: String)
    ensures
        windows ==> r@ == joined(server_path@, "BeamMP-Server.exe"@),
        !windows ==> r@ == joined(server_path@, "BeamMP-Server"@),
{
    crate::strutil::join_path(server_path, executable_name(windows))
}

impl ServerProcess {
    /// The console log never exceeds its retention bound.
    pub closed spec fn wf(&self) -> bool {
        self.pending.deep_view().len() <= MAX_LOG_LINES
    }

    /// Begins supervising a freshly spawned child: live, with an empty
    /// console log.  A server directory without the executable is refused
    /// before anything is spawned.
    pub fn start(exe_exists: bool) -> (r: Result<ServerProcess, CoreError>)
        ensures
            exe_exists ==> {
                &&& r is Ok
                &&& r->Ok_0.wf()
                &&& r->Ok_0@.running
                &&& r->Ok_0@.pending == Seq::<Seq<char>>::empty()
            },
            !exe_exists ==> r == Err::<ServerProcess, CoreError>(CoreError::ExecutableNotFound),
    {
        if !exe_exists {
            return Err(CoreError::ExecutableNotFound);
        }
        let p = ServerProcess { running: true, pending: Vec::new() };
        proof {
            assert(p@.pending =~= Seq::<Seq<char>>::empty());
        }
        Ok(p)
    }

    /// The exact bytes to write (and flush) to the child's input for a
    /// command: the text followed by a line terminator.  Once the child is
    /// known to have exited, the command channel reports `IOFailure` instead
    /// of a silent success.
    pub fn send_command(&self, command: &str) -> (r: Result<String, CoreError>)
        ensures
            self@.running ==> r is Ok && r->Ok_0@ == command@ + "\n"@,
            !self@.running ==> r == Err::<String, CoreError>(CoreError::IOFailure),
    {
        if !self.running {
            return Err(CoreError::IOFailure);
        }
        let mut line = command.to_owned();
        line.append("\n");
        Ok(line)
    }

    /// Logs one line read from the child's standard output or standard
    /// error, tagging error lines and discarding the oldest line beyond the
    /// retention bound.
    pub fn record_line(&mut self, line: String, from_stderr: bool)
        requires
            old(self).wf(),
        ensures
            final(self).wf(),
            final(self)@.running == old(self)@.running,
            final(self)@.pending == push_bounded(old(self)@.pending, tagged_line(line@, from_stderr)),
    {
        let ghost log0 = self.pending.deep_view();
        let tagged = if from_stderr {
            let mut t = String::from_str("[ERROR] ");
            t.append(line.as_str());
            t
        } else {
            line
        };
        if self.pending.len() == MAX_LOG_LINES {
            self.pending.remove(0);
            proof {
                assert(self.pending.deep_view() =~= log0.skip(1));
            }
        }
        let ghost log1 = self.pending.deep_view();
        self.pending.push(tagged);
        proof {
            assert(self.pending.deep_view() =~= log1.push(tagged@));
            if log0.len() == MAX_LOG_LINES {
                assert(log0.skip(1).push(tagged@) =~= log0.push(tagged@).skip(1));
            }
        }
    }

    /// Drains the console lines accumulated since the last drain; a second
    /// drain with no new lines in between returns an empty sequence.
    pub fn read_output(&mut self) -> (r: Vec<String>)
        requires
            old(self).wf(),
        ensures
            final(self).wf(),
            r.deep_view() == old(self)@.pending,
            final(self)@.pending == Seq::<Seq<char>>::empty(),
            final(self)@.running == old(self)@.running,
    {
        let mut drained: Vec<String> = Vec::new();
        core::mem::swap(&mut self.pending, &mut drained);
        proof {
            assert(self.pending.deep_view() =~= Seq::<Seq<char>>::empty());
        }
        drained
    }

    /// Non-blocking liveness, as last observed.
    pub fn is_running(&self) -> (r: bool)
        ensures
            r == self@.running,
    {
        self.running
    }

    /// Notes that a liveness poll found the child exited on its own.  Not an
    /// error: an observed state transition the caller narrates.
    pub fn observe_exit(&mut self)
        requires
            old(self).wf(),
        ensures
            final(self).wf(),
            !final(self)@.running,
            final(self)@.pending == old(self)@.pending,
    {
        self.running = false;
    }

    /// Ends supervision: whether or not the child honours the graceful exit
    /// command, after the returned plan is carried out the child is gone,
    /// so the process is no longer running.  Safe to call again once
    /// stopped.
    pub fn stop(&mut self) -> (r: StopPlan)
        requires
            old(self).wf(),
        ensures
            final(self).wf(),
            !final(self)@.running,
            final(self)@.pending == old(self)@.pending,
            r.exit_command@ == "exit"@,
            r.grace_millis == GRACE_MILLIS,
    {
        self.running = false;
        StopPlan { exit_command: String::from_str("exit"), grace_millis: GRACE_MILLIS }
    }
}

} // verus!
