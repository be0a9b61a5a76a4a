//! The two ends of the channel that carries the window's commands to the
//! player thread, and the record of each send.
//!
//! Each end carries the ghost identity of its channel, and each send leaves a
//! record of what was handed over. Only the functions of this module make
//! them, so code elsewhere cannot build a record of a send it did not make,
//! nor pair the ends of two different channels.

use vstd::prelude::*;
use std::sync::mpsc::{Receiver, Sender};
use crate::command::Command;

verus! {

#[verifier::external_type_specification]
#[verifier::external_body]
#[verifier::reject_recursive_types(T)]
pub struct ExSender<T>(Sender<T>);

#[verifier::external_type_specification]
#[verifier::external_body]
#[verifier::reject_recursive_types(T)]
pub struct ExReceiver<T>(Receiver<T>);

/// The sending end of a command channel.
pub struct CommandSender {
    sender: Sender<Command>,
    channel: Ghost<int>,
}

/// The receiving end of a command channel.
pub struct CommandReceiver {
    receiver: Receiver<Command>,
    channel: Ghost<int>,
}

/// The record of one send: the command handed to the channel, the channel,
/// and whether the channel refused it (its receiving end was gone).
pub struct Sent {
    command: Ghost<Command>,
    channel: Ghost<int>,
    refused: Ghost<bool>,
}

impl CommandSender {
    /// The channel this end sends on.
    pub closed spec fn channel(&self) -> int {
        self.channel@
    }
}

impl CommandReceiver {
    /// The channel this end receives from.
    pub closed spec fn channel(&self) -> int {
        self.channel@
    }

    /// The next command, waiting for it; `None` once every sending end is
    /// gone and nothing is left.
    pub fn recv(&self) -> Option<Command> {
        receive_command(self)
    }
}

impl Sent {
    /// The command that was handed to the channel.
    pub closed spec fn command(&self) -> Command {
        self.command@
    }

    /// The channel it was handed to.
    pub closed spec fn channel(&self) -> int {
        self.channel@
    }

    /// The channel refused it.
    pub closed spec fn refused(&self) -> bool {
        self.refused@
    }
}

/// `std::sync::mpsc::channel`: a new channel. Both ends carry the same ghost
/// identity; nothing else is claimed of them.
#[verifier::external_body]
pub(crate) fn command_channel() -> (r: (CommandSender, CommandReceiver))
    ensures
        r.0.channel() == r.1.channel(),
{
    let (sender, receiver) = std::sync::mpsc::channel();
    let ghost id: int = arbitrary();
    (CommandSender { sender, channel: Ghost(id) }, CommandReceiver { receiver, channel: Ghost(id) })
}

/// `Sender::clone`: another sending end of the same channel.
#[verifier::external_body]
pub(crate) fn clone_sender(s: &CommandSender) -> (r: CommandSender)
    ensures
        r.channel() == s.channel(),
{
    CommandSender { sender: s.sender.clone(), channel: Ghost(s.channel@) }
}

/// `Sender::send`: hands `cmd` to the channel. It fails only when the
/// receiving end is gone, and then gives `cmd` back. The record says what was
/// handed, on which channel, and whether it was refused; whether a send is
/// refused depends on the other thread and is not stated.
#[verifier::external_body]
pub(crate) fn send_command(s: &CommandSender, cmd: Command) -> (r: (Option<Command>, Sent))
    ensures
        r.1.command() == cmd,
        r.1.channel() == s.channel(),
        r.1.refused() == (r.0 is Some),
        r.0 matches Some(c) ==> c == cmd,
{
    let ghost handed = cmd;
    let unsent = match s.sender.send(cmd) {
        Ok(()) => None,
        Err(e) => Some(e.0),
    };
    let refused = Ghost(unsent is Some);
    (unsent, Sent { command: Ghost(handed), channel: Ghost(s.channel@), refused })
}

/// `Receiver::recv`: the next command, or `None` once every sending end is
/// gone and the channel is empty. What comes depends on the other threads;
/// nothing is claimed of it.
#[verifier::external_body]
fn receive_command(r: &CommandReceiver) -> Option<Command> {
    r.receiver.recv().ok()
}

} // verus!
