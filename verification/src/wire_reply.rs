//! The wire format of what the server sends. A frame is a tag byte and what
//! the tag demands; integers are eight bytes, lowest byte first.
//!
//! | frame                              | message                          |
//! |------------------------------------|----------------------------------|
//! | `81 count record*`                 | reply to a monitors query        |
//! | `82 count record*`                 | reply to a windows query         |
//! | `83`                               | command acknowledged             |
//! | `84 class code`                    | command refused                  |
//! | `85`                               | subscribed                       |
//! | `86 01 window from to`             | event: window state changed      |
//! | `86 02 window parent index`        | event: window moved              |
//! | `87`                               | request dropped at shutdown      |
//!
//! A record is 38 bytes: identifier, kind, parent flag, parent, number of
//! children, window flag, state, remembered flag, remembered state, handle.
//! A field behind a flag that is zero is zero too.

use vstd::prelude::*;
use vstd::bytes::{lemma_auto_spec_u64_to_from_le_bytes, spec_u64_to_le_bytes};
use crate::container::{ContainerKind, WindowContainer};
use crate::error::{ConnectionFault, ProtocolFault, StructuralFault, WmError};
use crate::ipc_server::{ServerMessage, ServerMessageView};
use crate::snapshot::ContainerRecord;
use crate::wire::{byte_of_state, push_word, state_to_byte};
use crate::window_state::WindowState;
use crate::wm_event::WmEvent;

verus! {

pub const TAG_MONITORS_REPLY: u8 = 0x81;

pub const TAG_WINDOWS_REPLY: u8 = 0x82;

pub const TAG_ACK: u8 = 0x83;

pub const TAG_FAILED: u8 = 0x84;

pub const TAG_SUBSCRIBED: u8 = 0x85;

pub const TAG_EVENT: u8 = 0x86;

pub const TAG_CANCELLED: u8 = 0x87;

/// Number of bytes of one record.
pub const RECORD_LEN: usize = 38;

/// The byte that stands for a container kind.
pub open spec fn byte_of_kind(k: ContainerKind) -> u8 {
    match k {
        ContainerKind::Root => 0,
        ContainerKind::Monitor => 1,
        ContainerKind::Workspace => 2,
        ContainerKind::Split => 3,
        ContainerKind::Window => 4,
    }
}

/// The two bytes that stand for an error: its class and, within the class,
/// its reason; for a policy rejection the reason is the refused state.
pub open spec fn bytes_of_error(e: WmError) -> (u8, u8) {
    match e {
        WmError::StructuralIntegrity(f) => (
            1u8,
            match f {
                StructuralFault::NoSuchNode => 1u8,
                StructuralFault::NotAWindow => 2u8,
                StructuralFault::AlreadyAttached => 3u8,
                StructuralFault::NotAttached => 4u8,
                StructuralFault::WouldCycle => 5u8,
                StructuralFault::RootImmovable => 6u8,
                StructuralFault::KindMismatch => 7u8,
                StructuralFault::IndexOutOfRange => 8u8,
                StructuralFault::HasChildren => 9u8,
            },
        ),
        WmError::PolicyRejection(s) => (2u8, byte_of_state(s)),
        WmError::Protocol(f) => (
            3u8,
            match f {
                ProtocolFault::Empty => 1u8,
                ProtocolFault::UnknownRequest => 2u8,
                ProtocolFault::UnknownCommand => 3u8,
                ProtocolFault::UnknownState => 4u8,
                ProtocolFault::UnknownFilter => 5u8,
                ProtocolFault::BadLength => 6u8,
                ProtocolFault::IdOutOfRange => 7u8,
            },
        ),
        WmError::Connection(f) => (
            4u8,
            match f {
                ConnectionFault::UnknownConnection => 1u8,
                ConnectionFault::ShuttingDown => 2u8,
                ConnectionFault::QueueFull => 3u8,
            },
        ),
    }
}

/// The bytes of a parent link: a flag and the parent; both zero where there
/// is no parent.
pub open spec fn encoded_parent(parent: Option<usize>) -> Seq<u8> {
    match parent {
        Some(p) => seq![1u8] + spec_u64_to_le_bytes(p as u64),
        None => seq![0u8] + spec_u64_to_le_bytes(0u64),
    }
}

/// The bytes of what is remembered: a flag and the state; both zero where
/// nothing is remembered.
pub open spec fn encoded_memory(prev_state: Option<WindowState>) -> Seq<u8> {
    match prev_state {
        Some(p) => seq![1u8, byte_of_state(p)],
        None => seq![0u8, 0u8],
    }
}

/// The bytes of window data: a flag, the state, what is remembered, and the
/// handle; all zero where the container is no window.
pub open spec fn encoded_window(window: Option<WindowContainer>) -> Seq<u8> {
    match window {
        Some(w) => seq![1u8, byte_of_state(w.state)] + encoded_memory(w.prev_state)
            + spec_u64_to_le_bytes(w.handle),
        None => seq![0u8, 0u8] + encoded_memory(None) + spec_u64_to_le_bytes(0u64),
    }
}

/// The bytes of one record.
pub open spec fn encoded_record(r: ContainerRecord) -> Seq<u8> {
    spec_u64_to_le_bytes(r.id as u64) + seq![byte_of_kind(r.kind)] + encoded_parent(r.parent)
        + spec_u64_to_le_bytes(r.child_count as u64) + encoded_window(r.window)
}

/// The bytes of a sequence of records, one record after the other.
pub open spec fn encoded_records(records: Seq<ContainerRecord>) -> Seq<u8>
    decreases records.len(),
{
    if records.len() == 0 {
        Seq::empty()
    } else {
        encoded_records(records.drop_last()) + encoded_record(records.last())
    }
}

/// The bytes of an event, behind the event tag.
pub open spec fn encoded_event(e: WmEvent) -> Seq<u8> {
    match e {
        WmEvent::WindowStateChanged { window, from, to } => seq![TAG_EVENT, 1u8]
            + spec_u64_to_le_bytes(window as u64) + seq![byte_of_state(from), byte_of_state(to)],
        WmEvent::WindowMoved { window, parent, index } => seq![TAG_EVENT, 2u8]
            + spec_u64_to_le_bytes(window as u64) + spec_u64_to_le_bytes(parent as u64)
            + spec_u64_to_le_bytes(index as u64),
    }
}

/// The frame of a message.
pub open spec fn encoded_message(m: ServerMessageView) -> Seq<u8> {
    match m {
        ServerMessageView::Monitors(records) => seq![TAG_MONITORS_REPLY] + spec_u64_to_le_bytes(
            records.len() as u64,
        ) + encoded_records(records),
        ServerMessageView::Windows(records) => seq![TAG_WINDOWS_REPLY] + spec_u64_to_le_bytes(
            records.len() as u64,
        ) + encoded_records(records),
        ServerMessageView::CommandAck => seq![TAG_ACK],
        ServerMessageView::CommandFailed(e) => seq![
            TAG_FAILED,
            bytes_of_error(e).0,
            bytes_of_error(e).1,
        ],
        ServerMessageView::Subscribed => seq![TAG_SUBSCRIBED],
        ServerMessageView::Event(e) => encoded_event(e),
        ServerMessageView::Cancelled => seq![TAG_CANCELLED],
    }
}

/// Every record takes the same number of bytes.
pub proof fn lemma_record_len(r: ContainerRecord)
    ensures
        encoded_record(r).len() == RECORD_LEN,
{
    lemma_auto_spec_u64_to_from_le_bytes();
}

/// The bytes of a sequence of records are as many as its records take.
pub proof fn lemma_records_len(records: Seq<ContainerRecord>)
    ensures
        encoded_records(records).len() == RECORD_LEN * records.len(),
    decreases records.len(),
{
    if records.len() > 0 {
        lemma_records_len(records.drop_last());
        lemma_record_len(records.last());
    }
}

/// Executable form of [`byte_of_kind`].
pub fn kind_to_byte(k: ContainerKind) -> (b: u8)
    ensures
        b == byte_of_kind(k),
{
    match k {
        ContainerKind::Root => 0,
        ContainerKind::Monitor => 1,
        ContainerKind::Workspace => 2,
        ContainerKind::Split => 3,
        ContainerKind::Window => 4,
    }
}

/// Executable form of [`bytes_of_error`].
pub fn error_to_bytes(e: WmError) -> (b: (u8, u8))
    ensures
        b == bytes_of_error(e),
{
    match e {
        WmError::StructuralIntegrity(f) => (
            1,
            match f {
                StructuralFault::NoSuchNode => 1,
                StructuralFault::NotAWindow => 2,
                StructuralFault::AlreadyAttached => 3,
                StructuralFault::NotAttached => 4,
                StructuralFault::WouldCycle => 5,
                StructuralFault::RootImmovable => 6,
                StructuralFault::KindMismatch => 7,
                StructuralFault::IndexOutOfRange => 8,
                StructuralFault::HasChildren => 9,
            },
        ),
        WmError::PolicyRejection(s) => (2, state_to_byte(s)),
        WmError::Protocol(f) => (
            3,
            match f {
                ProtocolFault::Empty => 1,
                ProtocolFault::UnknownRequest => 2,
                ProtocolFault::UnknownCommand => 3,
                ProtocolFault::UnknownState => 4,
                ProtocolFault::UnknownFilter => 5,
                ProtocolFault::BadLength => 6,
                ProtocolFault::IdOutOfRange => 7,
            },
        ),
        WmError::Connection(f) => (
            4,
            match f {
                ConnectionFault::UnknownConnection => 1,
                ConnectionFault::ShuttingDown => 2,
                ConnectionFault::QueueFull => 3,
            },
        ),
    }
}

fn push_parent(out: &mut Vec<u8>, parent: Option<usize>)
    ensures
        final(out)@ == old(out)@ + encoded_parent(parent),
{
    match parent {
        Some(p) => {
            out.push(1);
            push_word(out, p as u64);
        },
        None => {
            out.push(0);
            push_word(out, 0);
        },
    }
    assert(out@ =~= old(out)@ + encoded_parent(parent));
}

fn push_memory(out: &mut Vec<u8>, prev_state: Option<WindowState>)
    ensures
        final(out)@ == old(out)@ + encoded_memory(prev_state),
{
    match prev_state {
        Some(p) => {
            out.push(1);
            out.push(state_to_byte(p));
        },
        None => {
            out.push(0);
            out.push(0);
        },
    }
    assert(out@ =~= old(out)@ + encoded_memory(prev_state));
}

fn push_window(out: &mut Vec<u8>, window: Option<WindowContainer>)
    ensures
        final(out)@ == old(out)@ + encoded_window(window),
{
    match window {
        Some(w) => {
            out.push(1);
            out.push(state_to_byte(w.state));
            push_memory(out, w.prev_state);
            push_word(out, w.handle);
            assert(out@ =~= old(out)@ + (seq![1u8, byte_of_state(w.state)] + encoded_memory(
                w.prev_state,
            ) + spec_u64_to_le_bytes(w.handle)));
        },
        None => {
            out.push(0);
            out.push(0);
            push_memory(out, None);
            push_word(out, 0);
            assert(out@ =~= old(out)@ + (seq![0u8, 0u8] + encoded_memory(None)
                + spec_u64_to_le_bytes(0u64)));
        },
    }
}

fn push_record(out: &mut Vec<u8>, r: &ContainerRecord)
    ensures
        final(out)@ == old(out)@ + encoded_record(*r),
{
    push_word(out, r.id as u64);
    out.push(kind_to_byte(r.kind));
    push_parent(out, r.parent);
    push_word(out, r.child_count as u64);
    push_window(out, r.window);
    assert(out@ =~= old(out)@ + (spec_u64_to_le_bytes(r.id as u64) + seq![byte_of_kind(r.kind)]
        + encoded_parent(r.parent) + spec_u64_to_le_bytes(r.child_count as u64) + encoded_window(
        r.window,
    )));
}

fn push_records(out: &mut Vec<u8>, records: &Vec<ContainerRecord>)
    ensures
        final(out)@ == old(out)@ + spec_u64_to_le_bytes(records@.len() as u64) + encoded_records(
            records@,
        ),
{
    push_word(out, records.len() as u64);
    let ghost head = out@;
    let mut i: usize = 0;
    assert(records@.take(0) =~= Seq::<ContainerRecord>::empty());
    assert(head + Seq::<u8>::empty() =~= head);
    while i < records.len()
        invariant
            i <= records.len(),
            out@ == head + encoded_records(records@.take(i as int)),
        decreases records.len() - i,
    {
        proof {
            assert(records@.take(i + 1).drop_last() =~= records@.take(i as int));
            assert(records@.take(i + 1).last() == records@[i as int]);
            let done = encoded_records(records@.take(i as int));
            assert((head + done) + encoded_record(records@[i as int]) =~= head + (done
                + encoded_record(records@[i as int])));
        }
        push_record(out, &records[i]);
        i += 1;
    }
    assert(records@.take(records.len() as int) =~= records@);
}

/// Encodes a message as the frame that is sent.
pub fn encode_message(m: &ServerMessage) -> (out: Vec<u8>)
    ensures
        out@ == encoded_message(m@),
{
    let mut out: Vec<u8> = Vec::new();
    match m {
        ServerMessage::Monitors(records) => {
            out.push(TAG_MONITORS_REPLY);
            push_records(&mut out, records);
        },
        ServerMessage::Windows(records) => {
            out.push(TAG_WINDOWS_REPLY);
            push_records(&mut out, records);
        },
        ServerMessage::CommandAck => {
            out.push(TAG_ACK);
        },
        ServerMessage::CommandFailed(e) => {
            let code = error_to_bytes(*e);
            out.push(TAG_FAILED);
            out.push(code.0);
            out.push(code.1);
        },
        ServerMessage::Subscribed => {
            out.push(TAG_SUBSCRIBED);
        },
        ServerMessage::Event(e) => {
            out.push(TAG_EVENT);
            match e {
                WmEvent::WindowStateChanged { window, from, to } => {
                    out.push(1);
                    push_word(&mut out, *window as u64);
                    out.push(state_to_byte(*from));
                    out.push(state_to_byte(*to));
                },
                WmEvent::WindowMoved { window, parent, index } => {
                    out.push(2);
                    push_word(&mut out, *window as u64);
                    push_word(&mut out, *parent as u64);
                    push_word(&mut out, *index as u64);
                },
            }
        },
        ServerMessage::Cancelled => {
            out.push(TAG_CANCELLED);
        },
    }
    assert(out@ =~= encoded_message(m@));
    out
}

} // verus!
