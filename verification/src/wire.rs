//! The wire format of requests. A frame is a sequence of bytes: a tag byte
//! and what the tag demands; integers are eight bytes, lowest byte first.
//!
//! | frame                                   | request                    |
//! |-----------------------------------------|----------------------------|
//! | `01`                                    | monitors                   |
//! | `02`                                    | windows                    |
//! | `03 01..04 window`                      | toggle floating, fullscreen, minimized, tiling |
//! | `03 05 window state`                    | set state                  |
//! | `03 06 window parent index`             | move window                |
//! | `04` or `04 filter`                     | subscribe                  |

use vstd::prelude::*;
use vstd::bytes::{
    lemma_auto_spec_u64_to_from_le_bytes, spec_u64_from_le_bytes, spec_u64_to_le_bytes,
    u64_from_le_bytes, u64_to_le_bytes,
};
use vstd::slice::slice_subrange;
use crate::app_command::InvokeCommand;
use crate::error::{ProtocolFault, WmError};
use crate::ipc_server::IpcMessage;
use crate::window_state::WindowState;
use crate::wm_event::EventFilter;

verus! {

pub const TAG_MONITORS: u8 = 1;

pub const TAG_WINDOWS: u8 = 2;

pub const TAG_COMMAND: u8 = 3;

pub const TAG_SUBSCRIBE: u8 = 4;

/// The byte that stands for a window state.
pub open spec fn byte_of_state(s: WindowState) -> u8 {
    match s {
        WindowState::Tiling => 0,
        WindowState::Floating => 1,
        WindowState::Minimized => 2,
        WindowState::Fullscreen => 3,
    }
}

/// The window state a byte stands for, if any.
pub open spec fn state_of_byte(b: u8) -> Option<WindowState> {
    if b == 0 {
        Some(WindowState::Tiling)
    } else if b == 1 {
        Some(WindowState::Floating)
    } else if b == 2 {
        Some(WindowState::Minimized)
    } else if b == 3 {
        Some(WindowState::Fullscreen)
    } else {
        None
    }
}

/// The byte that stands for an event filter.
pub open spec fn byte_of_filter(f: EventFilter) -> u8 {
    match f {
        EventFilter::All => 0,
        EventFilter::WindowState => 1,
        EventFilter::Tree => 2,
    }
}

/// The event filter a byte stands for, if any.
pub open spec fn filter_of_byte(b: u8) -> Option<EventFilter> {
    if b == 0 {
        Some(EventFilter::All)
    } else if b == 1 {
        Some(EventFilter::WindowState)
    } else if b == 2 {
        Some(EventFilter::Tree)
    } else {
        None
    }
}

/// The integer in the eight bytes from position `at`.
pub open spec fn word_at(bytes: Seq<u8>, at: int) -> u64 {
    spec_u64_from_le_bytes(bytes.subrange(at, at + 8))
}

/// The identifier or position in the eight bytes from `at`, if it fits the
/// machine's address width.
pub open spec fn id_at(bytes: Seq<u8>, at: int) -> Option<usize> {
    if word_at(bytes, at) <= usize::MAX {
        Some(word_at(bytes, at) as usize)
    } else {
        None
    }
}

/// The command in a frame whose first byte is the command tag.
pub open spec fn decode_command(bytes: Seq<u8>) -> Result<InvokeCommand, ProtocolFault> {
    if bytes.len() < 2 {
        Err(ProtocolFault::BadLength)
    } else if 1 <= bytes[1] <= 4 {
        if bytes.len() != 10 {
            Err(ProtocolFault::BadLength)
        } else {
            match id_at(bytes, 2) {
                None => Err(ProtocolFault::IdOutOfRange),
                Some(w) => Ok(
                    if bytes[1] == 1 {
                        InvokeCommand::ToggleFloating(w)
                    } else if bytes[1] == 2 {
                        InvokeCommand::ToggleFullscreen(w)
                    } else if bytes[1] == 3 {
                        InvokeCommand::ToggleMinimized(w)
                    } else {
                        InvokeCommand::ToggleTiling(w)
                    },
                ),
            }
        }
    } else if bytes[1] == 5 {
        if bytes.len() != 11 {
            Err(ProtocolFault::BadLength)
        } else {
            match id_at(bytes, 2) {
                None => Err(ProtocolFault::IdOutOfRange),
                Some(w) => match state_of_byte(bytes[10]) {
                    None => Err(ProtocolFault::UnknownState),
                    Some(s) => Ok(InvokeCommand::SetState(w, s)),
                },
            }
        }
    } else if bytes[1] == 6 {
        if bytes.len() != 26 {
            Err(ProtocolFault::BadLength)
        } else {
            match (id_at(bytes, 2), id_at(bytes, 10), id_at(bytes, 18)) {
                (Some(window), Some(parent), Some(index)) => Ok(
                    InvokeCommand::MoveWindow { window, parent, index },
                ),
                _ => Err(ProtocolFault::IdOutOfRange),
            }
        }
    } else {
        Err(ProtocolFault::UnknownCommand)
    }
}

/// The request in a frame, or why the frame holds none.
pub open spec fn decode_request(bytes: Seq<u8>) -> Result<IpcMessage, ProtocolFault> {
    if bytes.len() == 0 {
        Err(ProtocolFault::Empty)
    } else if bytes[0] == TAG_MONITORS {
        if bytes.len() == 1 {
            Ok(IpcMessage::Monitors)
        } else {
            Err(ProtocolFault::BadLength)
        }
    } else if bytes[0] == TAG_WINDOWS {
        if bytes.len() == 1 {
            Ok(IpcMessage::Windows)
        } else {
            Err(ProtocolFault::BadLength)
        }
    } else if bytes[0] == TAG_COMMAND {
        match decode_command(bytes) {
            Ok(c) => Ok(IpcMessage::InvokeCommand(c)),
            Err(f) => Err(f),
        }
    } else if bytes[0] == TAG_SUBSCRIBE {
        if bytes.len() == 1 {
            Ok(IpcMessage::Subscribe(EventFilter::All))
        } else if bytes.len() == 2 {
            match filter_of_byte(bytes[1]) {
                Some(f) => Ok(IpcMessage::Subscribe(f)),
                None => Err(ProtocolFault::UnknownFilter),
            }
        } else {
            Err(ProtocolFault::BadLength)
        }
    } else {
        Err(ProtocolFault::UnknownRequest)
    }
}

/// The frame of a command.
pub open spec fn encoded_command(c: InvokeCommand) -> Seq<u8> {
    match c {
        InvokeCommand::ToggleFloating(w) => seq![TAG_COMMAND, 1u8] + spec_u64_to_le_bytes(
            w as u64,
        ),
        InvokeCommand::ToggleFullscreen(w) => seq![TAG_COMMAND, 2u8] + spec_u64_to_le_bytes(
            w as u64,
        ),
        InvokeCommand::ToggleMinimized(w) => seq![TAG_COMMAND, 3u8] + spec_u64_to_le_bytes(
            w as u64,
        ),
        InvokeCommand::ToggleTiling(w) => seq![TAG_COMMAND, 4u8] + spec_u64_to_le_bytes(w as u64),
        InvokeCommand::SetState(w, s) => seq![TAG_COMMAND, 5u8] + spec_u64_to_le_bytes(w as u64)
            + seq![byte_of_state(s)],
        InvokeCommand::MoveWindow { window, parent, index } => seq![TAG_COMMAND, 6u8]
            + spec_u64_to_le_bytes(window as u64) + spec_u64_to_le_bytes(parent as u64)
            + spec_u64_to_le_bytes(index as u64),
    }
}

/// The frame of a request.
pub open spec fn encoded_request(m: IpcMessage) -> Seq<u8> {
    match m {
        IpcMessage::Monitors => seq![TAG_MONITORS],
        IpcMessage::Windows => seq![TAG_WINDOWS],
        IpcMessage::InvokeCommand(c) => encoded_command(c),
        IpcMessage::Subscribe(f) => seq![TAG_SUBSCRIBE, byte_of_filter(f)],
    }
}

/// Decoding the frame of a request gives the request back.
pub proof fn lemma_request_round_trip(m: IpcMessage)
    ensures
        decode_request(encoded_request(m)) == Ok::<IpcMessage, ProtocolFault>(m),
{
    lemma_auto_spec_u64_to_from_le_bytes();
    let bytes = encoded_request(m);
    match m {
        IpcMessage::InvokeCommand(c) => {
            match c {
                InvokeCommand::SetState(w, s) => {
                    assert(bytes.subrange(2, 10) =~= spec_u64_to_le_bytes(w as u64));
                    assert(bytes[10] == byte_of_state(s));
                },
                InvokeCommand::MoveWindow { window, parent, index } => {
                    assert(bytes.subrange(2, 10) =~= spec_u64_to_le_bytes(window as u64));
                    assert(bytes.subrange(10, 18) =~= spec_u64_to_le_bytes(parent as u64));
                    assert(bytes.subrange(18, 26) =~= spec_u64_to_le_bytes(index as u64));
                },
                InvokeCommand::ToggleFloating(w) => {
                    assert(bytes.subrange(2, 10) =~= spec_u64_to_le_bytes(w as u64));
                },
                InvokeCommand::ToggleFullscreen(w) => {
                    assert(bytes.subrange(2, 10) =~= spec_u64_to_le_bytes(w as u64));
                },
                InvokeCommand::ToggleMinimized(w) => {
                    assert(bytes.subrange(2, 10) =~= spec_u64_to_le_bytes(w as u64));
                },
                InvokeCommand::ToggleTiling(w) => {
                    assert(bytes.subrange(2, 10) =~= spec_u64_to_le_bytes(w as u64));
                },
            }
        },
        _ => {},
    }
}

/// Executable form of [`state_of_byte`].
pub fn state_from_byte(b: u8) -> (s: Option<WindowState>)
    ensures
        s == state_of_byte(b),
{
    if b == 0 {
        Some(WindowState::Tiling)
    } else if b == 1 {
        Some(WindowState::Floating)
    } else if b == 2 {
        Some(WindowState::Minimized)
    } else if b == 3 {
        Some(WindowState::Fullscreen)
    } else {
        None
    }
}

/// Executable form of [`byte_of_state`].
pub fn state_to_byte(s: WindowState) -> (b: u8)
    ensures
        b == byte_of_state(s),
        state_of_byte(b) == Some(s),
{
    match s {
        WindowState::Tiling => 0,
        WindowState::Floating => 1,
        WindowState::Minimized => 2,
        WindowState::Fullscreen => 3,
    }
}

/// Executable form of [`filter_of_byte`].
pub fn filter_from_byte(b: u8) -> (f: Option<EventFilter>)
    ensures
        f == filter_of_byte(b),
{
    if b == 0 {
        Some(EventFilter::All)
    } else if b == 1 {
        Some(EventFilter::WindowState)
    } else if b == 2 {
        Some(EventFilter::Tree)
    } else {
        None
    }
}

/// Executable form of [`byte_of_filter`].
pub fn filter_to_byte(f: EventFilter) -> (b: u8)
    ensures
        b == byte_of_filter(f),
        filter_of_byte(b) == Some(f),
{
    match f {
        EventFilter::All => 0,
        EventFilter::WindowState => 1,
        EventFilter::Tree => 2,
    }
}

fn read_id(frame: &[u8], at: usize) -> (id: Option<usize>)
    requires
        at + 8 <= frame@.len(),
    ensures
        id == id_at(frame@, at as int),
{
    // Reading the length bounds it, and with it `at + 8`, by the address width.
    let _ = frame.len();
    let word = u64_from_le_bytes(slice_subrange(frame, at, at + 8));
    if word > usize::MAX as u64 {
        None
    } else {
        Some(word as usize)
    }
}

/// Appends the eight bytes of an integer.
pub fn push_word(out: &mut Vec<u8>, x: u64)
    ensures
        final(out)@ == old(out)@ + spec_u64_to_le_bytes(x),
{
    let mut word = u64_to_le_bytes(x);
    out.append(&mut word);
}

fn decode_command_frame(frame: &[u8]) -> (r: Result<InvokeCommand, ProtocolFault>)
    ensures
        r == decode_command(frame@),
{
    if frame.len() < 2 {
        return Err(ProtocolFault::BadLength);
    }
    let code = frame[1];
    if 1 <= code && code <= 4 {
        if frame.len() != 10 {
            return Err(ProtocolFault::BadLength);
        }
        match read_id(frame, 2) {
            None => Err(ProtocolFault::IdOutOfRange),
            Some(w) => Ok(
                if code == 1 {
                    InvokeCommand::ToggleFloating(w)
                } else if code == 2 {
                    InvokeCommand::ToggleFullscreen(w)
                } else if code == 3 {
                    InvokeCommand::ToggleMinimized(w)
                } else {
                    InvokeCommand::ToggleTiling(w)
                },
            ),
        }
    } else if code == 5 {
        if frame.len() != 11 {
            return Err(ProtocolFault::BadLength);
        }
        match read_id(frame, 2) {
            None => Err(ProtocolFault::IdOutOfRange),
            Some(w) => match state_from_byte(frame[10]) {
                None => Err(ProtocolFault::UnknownState),
                Some(s) => Ok(InvokeCommand::SetState(w, s)),
            },
        }
    } else if code == 6 {
        if frame.len() != 26 {
            return Err(ProtocolFault::BadLength);
        }
        match (read_id(frame, 2), read_id(frame, 10), read_id(frame, 18)) {
            (Some(window), Some(parent), Some(index)) => Ok(
                InvokeCommand::MoveWindow { window, parent, index },
            ),
            _ => Err(ProtocolFault::IdOutOfRange),
        }
    } else {
        Err(ProtocolFault::UnknownCommand)
    }
}

/// Decodes one inbound frame. Every frame either holds exactly one request
/// or is refused with the reason.
pub fn decode(frame: &[u8]) -> (r: Result<IpcMessage, WmError>)
    ensures
        r == (match decode_request(frame@) {
            Ok(m) => Ok::<IpcMessage, WmError>(m),
            Err(f) => Err::<IpcMessage, WmError>(WmError::Protocol(f)),
        }),
{
    if frame.len() == 0 {
        return Err(WmError::Protocol(ProtocolFault::Empty));
    }
    let tag = frame[0];
    if tag == TAG_MONITORS {
        if frame.len() == 1 {
            Ok(IpcMessage::Monitors)
        } else {
            Err(WmError::Protocol(ProtocolFault::BadLength))
        }
    } else if tag == TAG_WINDOWS {
        if frame.len() == 1 {
            Ok(IpcMessage::Windows)
        } else {
            Err(WmError::Protocol(ProtocolFault::BadLength))
        }
    } else if tag == TAG_COMMAND {
        match decode_command_frame(frame) {
            Ok(c) => Ok(IpcMessage::InvokeCommand(c)),
            Err(f) => Err(WmError::Protocol(f)),
        }
    } else if tag == TAG_SUBSCRIBE {
        if frame.len() == 1 {
            Ok(IpcMessage::Subscribe(EventFilter::All))
        } else if frame.len() == 2 {
            match filter_from_byte(frame[1]) {
                Some(f) => Ok(IpcMessage::Subscribe(f)),
                None => Err(WmError::Protocol(ProtocolFault::UnknownFilter)),
            }
        } else {
            Err(WmError::Protocol(ProtocolFault::BadLength))
        }
    } else {
        Err(WmError::Protocol(ProtocolFault::UnknownRequest))
    }
}

fn encode_command(c: &InvokeCommand, out: &mut Vec<u8>)
    requires
        old(out)@.len() == 0,
    ensures
        final(out)@ == encoded_command(*c),
{
    out.push(TAG_COMMAND);
    match c {
        InvokeCommand::ToggleFloating(w) => {
            out.push(1);
            push_word(out, *w as u64);
        },
        InvokeCommand::ToggleFullscreen(w) => {
            out.push(2);
            push_word(out, *w as u64);
        },
        InvokeCommand::ToggleMinimized(w) => {
            out.push(3);
            push_word(out, *w as u64);
        },
        InvokeCommand::ToggleTiling(w) => {
            out.push(4);
            push_word(out, *w as u64);
        },
        InvokeCommand::SetState(w, s) => {
            out.push(5);
            push_word(out, *w as u64);
            out.push(state_to_byte(*s));
        },
        InvokeCommand::MoveWindow { window, parent, index } => {
            out.push(6);
            push_word(out, *window as u64);
            push_word(out, *parent as u64);
            push_word(out, *index as u64);
        },
    }
    assert(out@ =~= encoded_command(*c));
}

/// Encodes a request as the frame that [`decode`] reads back.
pub fn encode_request(m: &IpcMessage) -> (out: Vec<u8>)
    ensures
        out@ == encoded_request(*m),
        decode_request(out@) == Ok::<IpcMessage, ProtocolFault>(*m),
{
    let mut out: Vec<u8> = Vec::new();
    match m {
        IpcMessage::Monitors => {
            out.push(TAG_MONITORS);
        },
        IpcMessage::Windows => {
            out.push(TAG_WINDOWS);
        },
        IpcMessage::InvokeCommand(c) => {
            encode_command(c, &mut out);
        },
        IpcMessage::Subscribe(f) => {
            out.push(TAG_SUBSCRIBE);
            out.push(filter_to_byte(*f));
        },
    }
    proof {
        assert(out@ =~= encoded_request(*m));
        lemma_request_round_trip(*m);
    }
    out
}

} // verus!
