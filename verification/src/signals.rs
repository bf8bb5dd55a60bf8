use vstd::prelude::*;

verus! {

/// The number of signal numbers that have a flag: 0 to 256.
pub const MAX_SIGNAL_COUNT: i32 = 257;

/// The index of the flag of signal `sig`, when it has one.
pub fn signal_slot(sig: i32) -> (res: Option<usize>)
    ensures
        res == if 0 <= sig < MAX_SIGNAL_COUNT {
            Some(sig as usize)
        } else {
            None::<usize>
        },
{
    if sig >= 0 && sig < MAX_SIGNAL_COUNT {
        Some(sig as usize)
    } else {
        None
    }
}

/// What the shell asks the system to do on a signal.
#[derive(Copy, Clone, Debug, PartialEq, Eq, Structural)]
pub enum SignalAction {
    /// Record the signal in its flag.
    Handle,
    /// Ignore the signal.
    Ignore,
    /// Take the default action.
    Default,
}

/// The action for signal `sig`: the shell's handler when asked for; otherwise
/// an interactive shell ignores the signals in `interactive_ignored`
/// (interrupt and the terminal stops), and every other case takes the
/// default action.
pub fn signal_action(sig: i32, is_handler: bool, is_interactive: bool, interactive_ignored: &[i32]) -> (res: SignalAction)
    ensures
        res == if is_handler {
            SignalAction::Handle
        } else if is_interactive && interactive_ignored@.contains(sig) {
            SignalAction::Ignore
        } else {
            SignalAction::Default
        },
{
    if is_handler {
        return SignalAction::Handle;
    }
    if is_interactive {
        let mut i: usize = 0;
        while i < interactive_ignored.len()
            invariant
                !is_handler,
                is_interactive,
                i <= interactive_ignored@.len(),
                forall|j: int| 0 <= j < i ==> interactive_ignored@[j] != sig,
            decreases interactive_ignored@.len() - i,
        {
            if interactive_ignored[i] == sig {
                assert(interactive_ignored@.contains(sig));
                return SignalAction::Ignore;
            }
            i = i + 1;
        }
    }
    SignalAction::Default
}

} // verus!
