//! What all the connections of a server share.

use crate::clock::{Clock, Reading};
use crate::commands::table::{standard, Command, CommandHandler};
use crate::context::Context;
use crate::storage::value::Data;
use vstd::prelude::*;

verus! {

/// The shared state of a server: the store and the deadline index, the
/// table of commands, and the clocks.
pub struct State {
    pub context: Context,
    pub commands: CommandHandler,
    pub clock: Clock,
}

impl State {
    /// The state of a server that starts now: nothing is stored, and every
    /// command is entered in the table.
    pub fn new() -> (s: State)
        ensures
            s.context.wf(),
            s.context@.store == Map::<Seq<char>, Data>::empty(),
            s.context@.order == Seq::<Seq<char>>::empty(),
            s.context@.deadlines == Seq::<Seq<char>>::empty(),
            s.commands.table() == standard(Seq::<(Seq<char>, Command)>::empty()),
    {
        let mut commands = CommandHandler::new();
        commands.register();
        State { context: Context::new(), commands, clock: Clock::start() }
    }

    /// What the clocks of the server show now.
    pub fn now(&self) -> Reading {
        self.clock.read()
    }

    /// One sweep of the deadline index at the moment of the call: what is
    /// due then is evicted, as `Context::expire_keys_task` does it. Returns
    /// how many keys were evicted.
    pub fn expire_keys_task(&mut self) -> (evicted: usize)
        requires
            old(self).context.wf(),
        ensures
            final(self).context.wf(),
            final(self).commands.table() == old(self).commands.table(),
            exists|now: u64| #[trigger] old(self).context@.swept(now) == final(self).context@,
            evicted == old(self).context@.order.len() - final(self).context@.order.len(),
    {
        let at = self.clock.read();
        self.context.expire_keys_task(at.now)
    }
}

} // verus!
