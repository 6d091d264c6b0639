//! The executor driver's data model and decision rules.
//!
//! The driver proper owns a guest virtual machine and a TCP link to the
//! in-guest agent; that plumbing performs the I/O and feeds every outcome
//! through the functions here, which decide — exactly as the error-handling
//! policy demands — what is reported, what is restarted and what aborts the
//! process.

use crate::text::{contains_memleak, is_memleak};
use vstd::prelude::*;

verus! {

/// What the in-guest agent reported for one program: the per-call raw block
/// traces, or a failure with a reason.
#[derive(Debug)]
pub enum ExecResult {
    Okay(Vec<Vec<u64>>),
    Failed(String),
}

/// A kernel crash harvested from the guest. An `inner` carrying the
/// memory-leak marker is a leak finding, not a guest death.
#[derive(Debug)]
pub struct Crash {
    pub inner: String,
}

impl Clone for Crash {
    fn clone(&self) -> (res: Crash)
        ensures
            res.inner@ == self.inner@,
    {
        Crash { inner: self.inner.clone() }
    }
}

impl Crash {
    /// Does this crash report a kernel memory leak?
    pub fn is_leak(&self) -> (r: bool)
        ensures
            r == is_memleak(self.inner@),
    {
        contains_memleak(self.inner.as_str())
    }
}

/// Configuration of the executor driver.
#[derive(Clone, Debug)]
pub struct ExecutorConf {
    pub path: String,
    pub host_ip: Option<String>,
    pub concurrency: bool,
    pub memleak_check: bool,
}

/// Classify a result received from the agent: with memory-leak checking on,
/// a failure carrying the leak marker is promoted to a crash; everything
/// else passes through unchanged.
pub fn classify_recv_result(memleak_check: bool, result: ExecResult) -> (r: Result<
    ExecResult,
    Crash,
>)
    ensures
        match result {
            ExecResult::Failed(reason) => {
                if memleak_check && is_memleak(reason@) {
                    match r {
                        Err(c) => c.inner@ == reason@,
                        Ok(_) => false,
                    }
                } else {
                    r == Ok::<ExecResult, Crash>(ExecResult::Failed(reason))
                }
            },
            ExecResult::Okay(raw) => r == Ok::<ExecResult, Crash>(ExecResult::Okay(raw)),
        },
{
    match result {
        ExecResult::Failed(reason) => {
            if memleak_check && contains_memleak(reason.as_str()) {
                Err(Crash { inner: reason })
            } else {
                Ok(ExecResult::Failed(reason))
            }
        },
        ExecResult::Okay(raw) => Ok(ExecResult::Okay(raw)),
    }
}

/// How a send to the agent can fail, as the driver's I/O layer saw it.
#[derive(Clone, Copy, Debug, PartialEq, Eq, Structural)]
pub enum SendError {
    WouldBlock,
    Io,
    Serialize,
}

/// What the driver must do about a failed send.
#[derive(Debug)]
pub enum SendDecision {
    /// Restart guest and agent, then report the program as failed with the
    /// carried reason.
    RestartAndReport(String),
    /// Fatal host I/O: abort the process with the OS error code.
    AbortOsErr,
    /// Serialization failure: abort the process with the software error code.
    AbortSoftware,
}

/// The send-error policy: a blocked send restarts the driver and surfaces
/// `Prog send blocked`; any other I/O error or a serialization error aborts.
pub fn classify_send_error(e: SendError) -> (d: SendDecision)
    ensures
        match e {
            SendError::WouldBlock => matches!(d, SendDecision::RestartAndReport(_)),
            SendError::Io => matches!(d, SendDecision::AbortOsErr),
            SendError::Serialize => matches!(d, SendDecision::AbortSoftware),
        },
        match d {
            SendDecision::RestartAndReport(reason) => reason@ == ("Prog send blocked")@,
            _ => true,
        },
{
    match e {
        SendError::WouldBlock => SendDecision::RestartAndReport("Prog send blocked".to_owned()),
        SendError::Io => SendDecision::AbortOsErr,
        SendError::Serialize => SendDecision::AbortSoftware,
    }
}

/// How a receive from the agent can fail.
#[derive(Clone, Copy, Debug, PartialEq, Eq, Structural)]
pub enum RecvError {
    WouldBlock,
    Io,
    Serialize,
}

/// What the driver must do about a failed receive.
#[derive(Debug)]
pub enum RecvDecision {
    /// Restart guest and agent, then report the program as failed with the
    /// carried reason.
    RestartAndReport(String),
    /// Serialization failure: abort the process with the software error code.
    AbortSoftware,
    /// The guest died: harvest and surface its crash.
    SurfaceGuestCrash,
    /// The guest lives, so only the agent crashed: relaunch it and report
    /// the program as failed with the carried reason.
    RelaunchAgentAndReport(String),
}

/// The receive-error policy. A blocked receive surfaces the same
/// `Prog send blocked` reason as a blocked send does.
pub fn classify_recv_error(e: RecvError, guest_alive: bool) -> (d: RecvDecision)
    ensures
        match e {
            RecvError::WouldBlock => matches!(d, RecvDecision::RestartAndReport(_)),
            RecvError::Serialize => matches!(d, RecvDecision::AbortSoftware),
            RecvError::Io => {
                if guest_alive {
                    matches!(d, RecvDecision::RelaunchAgentAndReport(_))
                } else {
                    matches!(d, RecvDecision::SurfaceGuestCrash)
                }
            },
        },
        match d {
            RecvDecision::RestartAndReport(reason) => reason@ == ("Prog send blocked")@,
            RecvDecision::RelaunchAgentAndReport(reason) => reason@ == ("Executor crashed")@,
            _ => true,
        },
{
    match e {
        RecvError::WouldBlock => RecvDecision::RestartAndReport("Prog send blocked".to_owned()),
        RecvError::Serialize => RecvDecision::AbortSoftware,
        RecvError::Io => {
            if guest_alive {
                RecvDecision::RelaunchAgentAndReport("Executor crashed".to_owned())
            } else {
                RecvDecision::SurfaceGuestCrash
            }
        },
    }
}

/// The command line handed to the in-guest agent: target path, host
/// address, and the optional memory-leak and concurrency switches.
pub fn executor_args(target_path: &str, addr: &str, memleak_check: bool, concurrency: bool) -> (r:
    Vec<String>)
    ensures
        r@.len() == 4 + (if memleak_check {
            1int
        } else {
            0int
        }) + (if concurrency {
            1int
        } else {
            0int
        }),
        r@[0]@ == ("-t")@,
        r@[1]@ == target_path@,
        r@[2]@ == ("-a")@,
        r@[3]@ == addr@,
        memleak_check ==> r@[4]@ == ("-m")@,
        concurrency ==> r@[r@.len() - 1]@ == ("-c")@,
        !memleak_check && concurrency ==> r@[4]@ == ("-c")@,
{
    let mut r: Vec<String> = Vec::new();
    r.push("-t".to_owned());
    r.push(target_path.to_owned());
    r.push("-a".to_owned());
    r.push(addr.to_owned());
    if memleak_check {
        r.push("-m".to_owned());
    }
    if concurrency {
        r.push("-c".to_owned());
    }
    r
}

} // verus!
