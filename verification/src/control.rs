//! Lifecycle commands and the control state they drive.

use vstd::prelude::*;
use std::sync::mpsc::{Receiver, TryRecvError};

verus! {

/// The consuming end of a `std::sync::mpsc` channel, taken as it is: nothing
/// is known of what it holds.
#[verifier::external_type_specification]
#[verifier::external_body]
#[verifier::reject_recursive_types(T)]
pub struct ExReceiver<T>(Receiver<T>);

/// A lifecycle command submitted through the control channel.
#[derive(Clone, Copy, Debug, PartialEq, Eq, Structural)]
pub enum Command {
    Pause,
    Resume,
    Stop,
}

/// The lifecycle state of the pipeline.
#[derive(Clone, Copy, Debug, PartialEq, Eq, Structural)]
pub enum ControlState {
    Running,
    Paused,
    Stopped,
}

/// What one look at the control channel found.
#[derive(Clone, Copy, Debug, PartialEq, Eq, Structural)]
pub enum Poll {
    /// A command was waiting.
    Command(Command),
    /// Nothing was waiting.
    Empty,
    /// Every producer handle has been dropped.
    Disconnected,
}

/// Looks at the consuming end of a control channel once, without blocking.
///
/// Calls `std::sync::mpsc::Receiver::try_recv` and names its three outcomes.
/// Nothing is claimed of which outcome comes back: that depends on what the
/// producers have done.
#[verifier::external_body]
pub(crate) fn look(channel: &Receiver<Command>) -> (poll: Poll) {
    match channel.try_recv() {
        Ok(command) => Poll::Command(command),
        Err(TryRecvError::Empty) => Poll::Empty,
        Err(TryRecvError::Disconnected) => Poll::Disconnected,
    }
}

impl ControlState {
    /// The state a pipeline starts in.
    pub open spec fn initial() -> ControlState {
        ControlState::Running
    }

    /// The transition relation: `Stopped` absorbs every command, `Stop`
    /// leads to `Stopped` from anywhere, `Pause` and `Resume` toggle between
    /// the two live states.
    pub open spec fn next(self, command: Command) -> ControlState {
        match (self, command) {
            (ControlState::Stopped, _) => ControlState::Stopped,
            (_, Command::Stop) => ControlState::Stopped,
            (_, Command::Pause) => ControlState::Paused,
            (_, Command::Resume) => ControlState::Running,
        }
    }

    /// The state after one look at the channel. Only a command moves the
    /// state: an empty or disconnected channel leaves it where it was.
    pub open spec fn observed(self, poll: Poll) -> ControlState {
        match poll {
            Poll::Command(c) => self.next(c),
            Poll::Empty => self,
            Poll::Disconnected => self,
        }
    }

    /// The state after a whole sequence of commands, oldest first.
    pub open spec fn after(self, commands: Seq<Command>) -> ControlState
        decreases commands.len(),
    {
        if commands.len() == 0 {
            self
        } else {
            self.next(commands[0]).after(commands.skip(1))
        }
    }

    pub fn new() -> (state: ControlState)
        ensures
            state == ControlState::initial(),
    {
        ControlState::Running
    }

    pub fn apply(self, command: Command) -> (state: ControlState)
        ensures
            state == self.next(command),
    {
        match self {
            ControlState::Stopped => ControlState::Stopped,
            _ => match command {
                Command::Stop => ControlState::Stopped,
                Command::Pause => ControlState::Paused,
                Command::Resume => ControlState::Running,
            },
        }
    }

    pub fn observe(self, poll: Poll) -> (state: ControlState)
        ensures
            state == self.observed(poll),
    {
        match poll {
            Poll::Command(c) => self.apply(c),
            Poll::Empty => self,
            Poll::Disconnected => self,
        }
    }

    /// Looks at the channel once and moves by what was found there. A
    /// channel whose producers are gone is not a `Stop`: the state stays.
    pub fn observe_channel(self, channel: &Receiver<Command>) -> (seen: (Poll, ControlState))
        ensures
            seen.1 == self.observed(seen.0),
            self is Stopped ==> seen.1 is Stopped,
    {
        let poll = look(channel);
        (poll, self.observe(poll))
    }

    pub fn apply_all(self, commands: &Vec<Command>) -> (state: ControlState)
        ensures
            state == self.after(commands@),
    {
        let mut state = self;
        let mut i: usize = 0;
        assert(commands@.skip(0) =~= commands@);
        while i < commands.len()
            invariant
                i <= commands.len(),
                state.after(commands@.skip(i as int)) == self.after(commands@),
            decreases commands.len() - i,
        {
            proof {
                let rest = commands@.skip(i as int);
                assert(rest[0] == commands@[i as int]);
                assert(rest.skip(1) =~= commands@.skip(i + 1));
            }
            state = state.apply(commands[i]);
            i += 1;
        }
        state
    }

    pub fn is_running(self) -> (b: bool)
        ensures
            b == (self == ControlState::Running),
    {
        matches!(self, ControlState::Running)
    }

    pub fn is_paused(self) -> (b: bool)
        ensures
            b == (self == ControlState::Paused),
    {
        matches!(self, ControlState::Paused)
    }

    pub fn is_stopped(self) -> (b: bool)
        ensures
            b == (self == ControlState::Stopped),
    {
        matches!(self, ControlState::Stopped)
    }
}

/// `Stopped` is terminal: no sequence of commands leaves it.
pub proof fn lemma_stopped_is_terminal(commands: Seq<Command>)
    ensures
        ControlState::Stopped.after(commands) == ControlState::Stopped,
    decreases commands.len(),
{
    if commands.len() > 0 {
        lemma_stopped_is_terminal(commands.skip(1));
    }
}

/// A `Stop` once delivered is never undone: whatever came before it and
/// whatever comes after, the state ends `Stopped`.
pub proof fn lemma_stop_is_final(state: ControlState, before: Seq<Command>, later: Seq<Command>)
    ensures
        state.after(before + seq![Command::Stop] + later) == ControlState::Stopped,
    decreases before.len(),
{
    let all = before + seq![Command::Stop] + later;
    if before.len() == 0 {
        assert(all[0] == Command::Stop);
        assert(all.skip(1) =~= later);
        lemma_stopped_is_terminal(later);
    } else {
        assert(all[0] == before[0]);
        assert(all.skip(1) =~= before.skip(1) + seq![Command::Stop] + later);
        lemma_stop_is_final(state.next(before[0]), before.skip(1), later);
    }
}

/// Folding a sequence of commands splits at any point.
pub proof fn lemma_after_concat(state: ControlState, first: Seq<Command>, second: Seq<Command>)
    ensures
        state.after(first + second) == state.after(first).after(second),
    decreases first.len(),
{
    if first.len() == 0 {
        assert(first + second =~= second);
    } else {
        assert((first + second)[0] == first[0]);
        assert((first + second).skip(1) =~= first.skip(1) + second);
        lemma_after_concat(state.next(first[0]), first.skip(1), second);
    }
}

} // verus!
