//! What a worker thread decides about the requests an actor makes.
use vstd::prelude::*;
use crate::event::{Command, EventId, Request, Syscall, Token};

verus! {

/// Identifies a worker thread: its index among the workers.
#[derive(Clone, Copy, Debug, Hash, PartialEq, Eq, Structural)]
pub struct WorkerId(pub usize);

/// What a worker does with one request of the actor it runs.
pub enum Forward<D, P, T, S> {
    /// Post the syscall and go on running the actor.
    Post(Syscall<D, P, S>),
    /// Post the syscall and stop: the actor has ended.
    Last(Syscall<D, P, S>),
    /// Start the task as a new actor, post that the running actor spawned it
    /// (known by the token), and stop running the actor for now.
    Spawn(T, Token),
}

/// What a worker does with `request` of the actor `aid`.
pub fn forward<D, P, T, S>(aid: Token, request: Request<D, P, T>) -> (fwd: Forward<D, P, T, S>)
    ensures
        fwd == (match request {
            Request::Publish(data) => Forward::Post(Syscall::Command(Command::Publish(aid, data))),
            Request::Kill => Forward::Last(Syscall::Command(Command::Kill(aid))),
            Request::Listen(topic) => Forward::Post(Syscall::Command(Command::Listen(aid, topic))),
            Request::Ignore(topic) => Forward::Post(Syscall::Command(Command::Ignore(aid, topic))),
            Request::Open(param, topic) => Forward::Post(Syscall::Open(aid, param, topic)),
            Request::Spawn(task, topic) => Forward::<D, P, T, S>::Spawn(task, topic),
        }),
{
    match request {
        Request::Publish(data) => Forward::Post(Syscall::Command(Command::Publish(aid, data))),
        Request::Kill => Forward::Last(Syscall::Command(Command::Kill(aid))),
        Request::Listen(topic) => Forward::Post(Syscall::Command(Command::Listen(aid, topic))),
        Request::Ignore(topic) => Forward::Post(Syscall::Command(Command::Ignore(aid, topic))),
        Request::Open(param, topic) => Forward::Post(Syscall::Open(aid, param, topic)),
        Request::Spawn(task, topic) => Forward::Spawn(task, topic),
    }
}

/// What worker `wid` posts once it stopped running the actor `aid`: unless
/// the actor ended, that it sleeps until events newer than the newest it was
/// given (event 0 where it was given none).
pub fn sleep_command<D, S>(
    wid: WorkerId,
    aid: Token,
    killed: bool,
    last_eid: Option<EventId>,
) -> (cmd: Option<Command<D, S>>)
    ensures
        killed ==> cmd is None,
        !killed ==> cmd == Some(Command::<D, S>::Sleep(
            wid,
            aid,
            match last_eid {
                Some(eid) => eid,
                None => EventId(0),
            },
        )),
{
    if killed {
        None
    } else {
        let eid = match last_eid {
            Some(eid) => eid,
            None => EventId(0),
        };
        Some(Command::Sleep(wid, aid, eid))
    }
}

/// How a run of an actor ended.
#[derive(Clone, Copy, Debug, PartialEq, Eq, Structural)]
pub enum RunEnd {
    /// The task asked for nothing more until new events arrive.
    Exhausted,
    /// The actor spawned an actor; both are to be run again.
    Spawned,
    /// The actor ended.
    Killed,
}

/// Whether the worker stops running the actor after `fwd`, and how the run ended.
pub fn run_end<D, P, T, S>(fwd: &Forward<D, P, T, S>) -> (end: Option<RunEnd>)
    ensures
        end == (match fwd {
            Forward::Post(_) => None::<RunEnd>,
            Forward::Last(_) => Some(RunEnd::Killed),
            Forward::Spawn(_, _) => Some(RunEnd::Spawned),
        }),
{
    match fwd {
        Forward::Post(_) => None,
        Forward::Last(_) => Some(RunEnd::Killed),
        Forward::Spawn(_, _) => Some(RunEnd::Spawned),
    }
}

/// The syscall telling the central loop that actor `aid` spawned an actor
/// known as `topic`, reached through `sink`.
pub fn spawn_syscall<D, P, S>(aid: Token, topic: Token, sink: S) -> (syscall: Syscall<D, P, S>)
    ensures
        syscall == Syscall::<D, P, S>::Command(Command::Spawn(aid, topic, sink)),
{
    Syscall::Command(Command::Spawn(aid, topic, sink))
}

/// What worker `wid` does once it stopped running actor `aid`: the command it
/// posts (that the actor sleeps, unless it ended), and whether it schedules
/// the actor again (after a spawn).
pub fn finish_run<D, S>(
    wid: WorkerId,
    aid: Token,
    end: RunEnd,
    last_eid: Option<EventId>,
) -> (res: (Option<Command<D, S>>, bool))
    ensures
        end == RunEnd::Killed ==> res.0 is None,
        end != RunEnd::Killed ==> res.0 == Some(Command::<D, S>::Sleep(
            wid,
            aid,
            match last_eid {
                Some(eid) => eid,
                None => EventId(0),
            },
        )),
        res.1 == (end == RunEnd::Spawned),
{
    let killed = match end {
        RunEnd::Killed => true,
        _ => false,
    };
    let again = match end {
        RunEnd::Spawned => true,
        _ => false,
    };
    (sleep_command(wid, aid, killed, last_eid), again)
}

} // verus!
