use vstd::prelude::*;

verus! {

/// `libc::WIFEXITED`: the process ended by exiting. The encoding of the
/// status is the platform's, so the libc functions are named, not written out.
pub uninterp spec fn wifexited(status: i32) -> bool;

/// `libc::WEXITSTATUS`: the status the process exited with.
pub uninterp spec fn wexitstatus(status: i32) -> i32;

/// `libc::WIFSIGNALED`: the process was ended by a signal.
pub uninterp spec fn wifsignaled(status: i32) -> bool;

/// `libc::WTERMSIG`: the signal that ended the process.
pub uninterp spec fn wtermsig(status: i32) -> i32;

/// `libc::WIFSTOPPED`: the process was stopped by a signal.
pub uninterp spec fn wifstopped(status: i32) -> bool;

/// `libc::WSTOPSIG`: the signal that stopped the process.
pub uninterp spec fn wstopsig(status: i32) -> i32;

/// `libc::WIFEXITED` of the libc crate, a function of the status alone: the
/// low seven bits are zero, so a status it accepts is neither one of a
/// process ended by a signal nor one of a stopped process (both have a
/// nonzero low part, on Linux and on the BSDs alike).
#[verifier::external_body]
fn if_exited(status: i32) -> (res: bool)
    ensures
        res == wifexited(status),
        res ==> !wifsignaled(status) && !wifstopped(status),
{
    libc::WIFEXITED(status)
}

/// `libc::WEXITSTATUS` of the libc crate, a function of the status alone:
/// bits 8 to 15 of the status, so from 0 to 255.
#[verifier::external_body]
fn exit_status(status: i32) -> (res: i32)
    ensures
        res == wexitstatus(status),
        0 <= res <= 255,
{
    libc::WEXITSTATUS(status)
}

/// `libc::WIFSIGNALED` of the libc crate, a function of the status alone: the
/// low seven bits are neither zero nor `0x7f`, the mark of a stopped process,
/// so a status it accepts is not one of a stopped process.
#[verifier::external_body]
fn if_signaled(status: i32) -> (res: bool)
    ensures
        res == wifsignaled(status),
        res ==> !wifstopped(status),
{
    libc::WIFSIGNALED(status)
}

/// `libc::WTERMSIG` of the libc crate, a function of the status alone: the
/// low seven bits of the status, so from 0 to 127.
#[verifier::external_body]
fn term_signal(status: i32) -> (res: i32)
    ensures
        res == wtermsig(status),
        0 <= res <= 127,
{
    libc::WTERMSIG(status)
}

/// `libc::WIFSTOPPED` of the libc crate, a function of the status alone.
#[verifier::external_body]
fn if_stopped(status: i32) -> (res: bool)
    ensures
        res == wifstopped(status),
{
    libc::WIFSTOPPED(status)
}

/// `libc::WSTOPSIG` of the libc crate, a function of the status alone: the
/// status shifted right by eight bits, which Linux also masks to 0..=255 and
/// the BSDs do not; either way it lies within 24 signed bits.
#[verifier::external_body]
fn stop_signal(status: i32) -> (res: i32)
    ensures
        res == wstopsig(status),
        -0x80_0000 <= res < 0x80_0000,
{
    libc::WSTOPSIG(status)
}

/// The exit code that a shell reports for a process: `status` when it
/// `exited`, 128 plus the signal `term` when a signal ended it (`signaled`),
/// 128 plus the signal `stop` when one stopped it (`stopped`), and 128
/// otherwise; the first of these that holds decides.
pub open spec fn exit_code_of(exited: bool, status: i32, signaled: bool, term: i32, stopped: bool, stop: i32) -> int {
    if exited {
        status as int
    } else if signaled {
        term + 128
    } else if stopped {
        stop + 128
    } else {
        128
    }
}

/// The exit code of a process from its wait status, as a shell reports it.
pub open spec fn exit_code(status: i32) -> int {
    exit_code_of(
        wifexited(status),
        wexitstatus(status),
        wifsignaled(status),
        wtermsig(status),
        wifstopped(status),
        wstopsig(status),
    )
}

/// The exit code that a shell reports for a process, from what its wait
/// status says: whether it exited and with what status, whether a signal
/// ended it and which, whether a signal stopped it and which.
pub fn exit_code_from(exited: bool, status: i32, signaled: bool, term: i32, stopped: bool, stop: i32) -> (res: i32)
    requires
        exit_code_of(exited, status, signaled, term, stopped, stop) <= i32::MAX,
    ensures
        res == exit_code_of(exited, status, signaled, term, stopped, stop),
{
    if exited {
        status
    } else if signaled {
        term + 128
    } else if stopped {
        stop + 128
    } else {
        128
    }
}

/// The exit code of a process from its wait status, as a shell reports it:
/// the exit status when the process exited, 128 plus the signal when a signal
/// ended or stopped it, 128 otherwise.
pub fn exit_code_of_wait_status(status: i32) -> (res: i32)
    ensures
        res == exit_code(status),
        wifexited(status) ==> 0 <= res <= 255,
        wifsignaled(status) ==> res == wtermsig(status) + 128 && 128 <= res <= 255,
{
    let exited = if_exited(status);
    let signaled = if_signaled(status);
    let stopped = if_stopped(status);
    exit_code_from(
        exited,
        exit_status(status),
        signaled,
        term_signal(status),
        stopped,
        stop_signal(status),
    )
}

} // verus!
