//! The rules of one viewer's session: what is buffered, what is sent on a
//! batching tick, and what each message from the viewer sets off.
//!
//! The session decides; sending frames, driving the terminal and keeping the
//! shared geometry are the caller's part.

use crate::cast::resize_payload;
use crate::cast::EventKind;
use crate::cast::RawEvt;
use crate::cast::RawEvtView;
use crate::caster::Caster;
use crate::models::ClientMsg;
use crate::trim::line_budget;
use crate::trim::scrollback_lines;
use crate::trim::trim_offset;
use vstd::prelude::*;
use vstd::slice::slice_subrange;
use vstd::slice::slice_to_vec;
use vstd::string::StrSliceExecFns;
use vstd::utf8::encode_utf8;

verus! {

/// Where a session stands.
#[derive(Clone, Copy, Debug, PartialEq, Eq, Structural)]
pub enum Phase {
    /// The history snapshot is on its way to the viewer.
    Opening,
    /// Live output is batched and the viewer's messages are served.
    Running,
    /// The viewer is gone.
    Ended,
}

/// Something to do to the terminal.
#[derive(Clone, Debug, PartialEq, Eq)]
pub enum PtyCommand {
    /// Write the bytes to the terminal's input.
    Write(Vec<u8>),
    /// Change the terminal's window size.
    Resize { rows: u16, cols: u16 },
}

/// What a message from the viewer sets off, in the order in which it is to
/// be done: record the event or the heartbeat, run the command, store the
/// geometry, send the reply.
#[derive(Clone, Debug)]
pub struct Reaction {
    /// The event to hand to the transcript.
    pub event: Option<RawEvt>,
    /// Whether a heartbeat is to be recorded.
    pub heartbeat: bool,
    /// The command for the terminal.
    pub command: Option<PtyCommand>,
    /// The geometry to publish, as rows and columns.
    pub size: Option<(u16, u16)>,
    /// The text frame to send back.
    pub reply: Option<String>,
}

/// What a batching tick sends: the frame for the viewer and the event that
/// records it.
#[derive(Clone, Debug)]
pub struct Flushed {
    pub frame: Vec<u8>,
    pub event: RawEvt,
}

/// The text with which a heartbeat is answered.
pub fn heartbeat_pong() -> (text: String)
    ensures
        text@ == "{\"event\":\"heartbeat-pong\"}"@,
{
    "{\"event\":\"heartbeat-pong\"}".to_owned()
}

/// What a message from the viewer sets off `elapsed` into the session.
///
/// Keystrokes are recorded as input and written to the terminal. A resize is
/// recorded, applied to the terminal and published as the new geometry. A
/// heartbeat is recorded and answered.
pub fn handle(msg: ClientMsg, elapsed: u32) -> (r: Reaction)
    ensures
        match msg {
            ClientMsg::Data { value } => {
                &&& r.event matches Some(e) && e@ == (RawEvtView {
                    elapsed,
                    kind: EventKind::Input,
                    payload: encode_utf8(value@),
                })
                &&& r.command matches Some(PtyCommand::Write(bytes)) && bytes@ == encode_utf8(
                    value@,
                )
                &&& !r.heartbeat
                &&& r.size is None
                &&& r.reply is None
            },
            ClientMsg::Resize { value } => {
                &&& r.event matches Some(e) && e@ == (RawEvtView {
                    elapsed,
                    kind: EventKind::Resize,
                    payload: resize_payload(value.rows, value.cols),
                })
                &&& r.command == Some(PtyCommand::Resize { rows: value.rows, cols: value.cols })
                &&& !r.heartbeat
                &&& r.size == Some((value.rows, value.cols))
                &&& r.reply is None
            },
            ClientMsg::Heartbeat => {
                &&& r.event is None
                &&& r.command is None
                &&& r.heartbeat
                &&& r.size is None
                &&& r.reply matches Some(text) && text@ == "{\"event\":\"heartbeat-pong\"}"@
            },
        },
{
    match msg {
        ClientMsg::Data { value } => {
            let typed: Vec<u8> = value.as_str().as_bytes_vec();
            let copy: Vec<u8> = slice_to_vec(typed.as_slice());
            Reaction {
                event: Some(Caster::input(elapsed, typed)),
                heartbeat: false,
                command: Some(PtyCommand::Write(copy)),
                size: None,
                reply: None,
            }
        },
        ClientMsg::Resize { value } => Reaction {
            event: Some(Caster::resize(elapsed, value.rows, value.cols)),
            heartbeat: false,
            command: Some(PtyCommand::Resize { rows: value.rows, cols: value.cols }),
            size: Some((value.rows, value.cols)),
            reply: None,
        },
        ClientMsg::Heartbeat => Reaction {
            event: None,
            heartbeat: true,
            command: None,
            size: None,
            reply: Some(heartbeat_pong()),
        },
    }
}

/// What a message from the viewer of a debugging session does to the
/// terminal; nothing is recorded or answered there.
pub fn apply_cmd(cmd: ClientMsg) -> (command: Option<PtyCommand>)
    ensures
        match cmd {
            ClientMsg::Data { value } => command matches Some(PtyCommand::Write(bytes))
                && bytes@ == encode_utf8(value@),
            ClientMsg::Resize { value } => command == Some(
                PtyCommand::Resize { rows: value.rows, cols: value.cols },
            ),
            ClientMsg::Heartbeat => command is None,
        },
{
    match cmd {
        ClientMsg::Data { value } => Some(PtyCommand::Write(value.as_str().as_bytes_vec())),
        ClientMsg::Resize { value } => Some(
            PtyCommand::Resize { rows: value.rows, cols: value.cols },
        ),
        ClientMsg::Heartbeat => None,
    }
}

/// One viewer's session: its phase and the output that waits for the next
/// batching tick.
pub struct Session {
    phase: Phase,
    buf: Vec<u8>,
}

impl Session {
    pub closed spec fn phase(&self) -> Phase {
        self.phase
    }

    /// The output that waits for the next batching tick.
    pub closed spec fn buffered(&self) -> Seq<u8> {
        self.buf@
    }

    /// A session whose history snapshot is about to be sent.
    pub fn new() -> (s: Session)
        ensures
            s.phase() == Phase::Opening,
            s.buffered() == Seq::<u8>::empty(),
    {
        Session { phase: Phase::Opening, buf: Vec::new() }
    }

    pub fn current_phase(&self) -> (p: Phase)
        ensures
            p == self.phase(),
    {
        self.phase
    }

    /// The outcome of sending the history snapshot: the session runs when it
    /// was sent and ends when it was not.
    pub fn opened(&mut self, sent: bool)
        ensures
            final(self).buffered() == old(self).buffered(),
            final(self).phase() == if old(self).phase() == Phase::Opening {
                if sent {
                    Phase::Running
                } else {
                    Phase::Ended
                }
            } else {
                old(self).phase()
            },
    {
        if self.phase == Phase::Opening {
            self.phase = if sent {
                Phase::Running
            } else {
                Phase::Ended
            };
        }
    }

    /// Live output arrived: it is kept for the next batching tick. Outside a
    /// running session it is dropped.
    pub fn on_chunk(&mut self, bytes: &[u8])
        ensures
            final(self).phase() == old(self).phase(),
            final(self).buffered() == if old(self).phase() == Phase::Running {
                old(self).buffered() + bytes@
            } else {
                old(self).buffered()
            },
    {
        if self.phase == Phase::Running {
            self.buf.extend_from_slice(bytes);
        }
    }

    /// A batching tick: where a running session has output waiting, what is
    /// left of it after trimming to the viewer's terminal is handed out as a
    /// frame, together with the event that records it, and the buffer is
    /// emptied. Otherwise nothing happens.
    pub fn flush(&mut self, rows: u16, cols: u16, scrollback: u32, elapsed: u32) -> (res: Option<
        Flushed,
    >)
        ensures
            final(self).phase() == old(self).phase(),
            res is Some <==> old(self).phase() == Phase::Running && old(self).buffered().len() > 0,
            match res {
                Some(out) => {
                    &&& out.frame@ == old(self).buffered().skip(
                        trim_offset(old(self).buffered(), cols as nat, line_budget(rows, scrollback)),
                    )
                    &&& out.event@ == (RawEvtView {
                        elapsed,
                        kind: EventKind::Output,
                        payload: out.frame@,
                    })
                    &&& final(self).buffered() == Seq::<u8>::empty()
                },
                None => final(self).buffered() == old(self).buffered(),
            },
    {
        if self.phase != Phase::Running || self.buf.len() == 0 {
            return None;
        }
        let start: usize = scrollback_lines(self.buf.as_slice(), rows, cols, scrollback);
        let frame: Vec<u8> = slice_to_vec(
            slice_subrange(self.buf.as_slice(), start, self.buf.len()),
        );
        let copy: Vec<u8> = slice_to_vec(frame.as_slice());
        self.buf.clear();
        Some(Flushed { frame, event: Caster::output(elapsed, copy) })
    }

    /// A tick of a debugging session: where a running session has output
    /// waiting, all of it is handed out and the buffer is emptied.
    pub fn take(&mut self) -> (res: Option<Vec<u8>>)
        ensures
            final(self).phase() == old(self).phase(),
            res is Some <==> old(self).phase() == Phase::Running && old(self).buffered().len() > 0,
            match res {
                Some(frame) => frame@ == old(self).buffered() && final(self).buffered()
                    == Seq::<u8>::empty(),
                None => final(self).buffered() == old(self).buffered(),
            },
    {
        if self.phase != Phase::Running || self.buf.len() == 0 {
            return None;
        }
        let frame: Vec<u8> = slice_to_vec(self.buf.as_slice());
        self.buf.clear();
        Some(frame)
    }

    /// The viewer closed, the transport failed, or a reaction could not be
    /// carried out: the session ends and what was waiting is dropped.
    pub fn close(&mut self)
        ensures
            final(self).phase() == Phase::Ended,
            final(self).buffered() == Seq::<u8>::empty(),
    {
        self.phase = Phase::Ended;
        self.buf.clear();
    }
}

} // verus!
