//! The switch by which a developer-tools client asks a global scope to
//! report what happens in it while it happens.

use vstd::prelude::*;

verus! {

/// What a global scope keeps for the developer tools.
#[derive(Debug)]
pub struct GlobalScope {
    devtools_wants_updates: bool,
}

impl GlobalScope {
    /// Whether the scope reports to the developer tools as things happen.
    pub closed spec fn spec_live_devtools_updates(&self) -> bool {
        self.devtools_wants_updates
    }

    /// A scope that reports nothing.
    pub fn new() -> (global: GlobalScope)
        ensures
            !global.spec_live_devtools_updates(),
    {
        GlobalScope { devtools_wants_updates: false }
    }

    /// Turns live reports on or off.
    pub fn set_devtools_wants_updates(&mut self, value: bool)
        ensures
            final(self).spec_live_devtools_updates() == value,
    {
        self.devtools_wants_updates = value;
    }

    /// Whether the scope reports to the developer tools as things happen.
    #[verifier::when_used_as_spec(spec_live_devtools_updates)]
    pub fn live_devtools_updates(&self) -> (live: bool)
        ensures
            live == self.spec_live_devtools_updates(),
    {
        self.devtools_wants_updates
    }
}

/// Answers a client that wants live notifications, or wants them no more:
/// from now on `global` reports exactly if `send_notifications` is true.
pub fn handle_wants_live_notifications(global: &mut GlobalScope, send_notifications: bool)
    ensures
        final(global).spec_live_devtools_updates() == send_notifications,
{
    global.set_devtools_wants_updates(send_notifications);
}

} // verus!
