//! The decisions of the readiness loop: which connections wait for what,
//! what the control bytes from the dashboard do, which connections are
//! dropped, and which paths may be served.
use vstd::prelude::*;
use crate::connection::{ConnectionState, ServerFlags};
use crate::http_core::HttpStatus;
use crate::history::ControlEvent;
use crate::text::{has_prefix, starts_with};

verus! {

/// A connection waits to read while it reads a request or an upload.
pub fn wants_read(state: ConnectionState) -> (r: bool)
    ensures
        r == (state == ConnectionState::ReadingRequest || state == ConnectionState::ReadingPostBody),
{
    match state {
        ConnectionState::ReadingRequest | ConnectionState::ReadingPostBody => true,
        _ => false,
    }
}

/// A connection waits to write while it sends a response.
pub fn wants_write(state: ConnectionState) -> (r: bool)
    ensures
        r == (state == ConnectionState::WritingResponse),
{
    state == ConnectionState::WritingResponse
}

/// At the end of an iteration a connection is dropped when it is closing,
/// or when the user asked to close all connections.
pub fn should_evict(state: ConnectionState, force_close: bool) -> (r: bool)
    ensures
        r == (state == ConnectionState::Closing || force_close),
{
    state == ConnectionState::Closing || force_close
}

/// What a control byte from the dashboard asks for.
#[derive(Clone, Copy, Debug, PartialEq, Eq, Structural)]
pub enum Control {
    /// Switch serving off or back on.
    Toggle,
    /// Drop every connection at the end of this iteration.
    CloseAll,
    /// Nothing; the loop goes round once more.
    Poke,
    /// Stop the loop.
    Stop,
}

/// Decodes the byte read from the wake pipe; `None` is the end of the pipe.
pub fn decode_control(b: Option<u8>) -> (r: Control)
    ensures
        b is None ==> r == Control::Stop,
        b == Some(116u8) ==> r == Control::Toggle,
        b == Some(107u8) ==> r == Control::CloseAll,
        b matches Some(x) && x != 116u8 && x != 107u8 ==> r == Control::Poke,
{
    match b {
        None => Control::Stop,
        Some(116u8) => Control::Toggle,
        Some(107u8) => Control::CloseAll,
        Some(_) => Control::Poke,
    }
}

/// Applies a control to the server flags; returns whether every
/// connection is to be dropped this iteration.
pub fn apply_control(flags: &mut ServerFlags, c: Control) -> (force_close: bool)
    ensures
        c == Control::Toggle ==> final(flags).disabled == !old(flags).disabled,
        c != Control::Toggle ==> final(flags).disabled == old(flags).disabled,
        final(flags).dir_listings == old(flags).dir_listings,
        final(flags).uploading == old(flags).uploading,
        force_close == (c == Control::CloseAll),
{
    match c {
        Control::Toggle => {
            flags.disabled = !flags.disabled;
            false
        },
        Control::CloseAll => true,
        _ => false,
    }
}

/// The byte the dashboard writes to the wake pipe for an event; `None`
/// for quitting, which closes the pipe instead.
pub fn control_byte(ev: ControlEvent) -> (r: Option<u8>)
    ensures
        ev == ControlEvent::Quit ==> r is None,
        ev == ControlEvent::Toggle ==> r == Some(116u8),
        ev == ControlEvent::CloseAll ==> r == Some(107u8),
{
    match ev {
        ControlEvent::Quit => None,
        ControlEvent::Toggle => Some(116u8),
        ControlEvent::CloseAll => Some(107u8),
    }
}

/// `path` lies in the directory `root`: `root` is a leading run of whole
/// components of `path`. Both are canonical, absolute paths.
pub open spec fn within_root(root: Seq<u8>, path: Seq<u8>) -> bool {
    has_prefix(path, root) && (path.len() == root.len() || (root.len() > 0 && root.last() == 47u8)
        || path[root.len() as int] == 47u8)
}

/// Whether a canonical path may be served from the canonical root.
pub fn path_within_root(root: &[u8], path: &[u8]) -> (r: bool)
    ensures
        r == within_root(root@, path@),
{
    if !starts_with(path, root) {
        return false;
    }
    if path.len() == root.len() {
        return true;
    }
    if root.len() > 0 && root[root.len() - 1] == 47u8 {
        return true;
    }
    path[root.len()] == 47u8
}

/// The request path made relative to the served root: a leading `/` is
/// dropped.
pub fn relative_path(path: &[u8]) -> (r: &[u8])
    ensures
        path@.len() > 0 && path@[0] == 47u8 ==> r@ == path@.subrange(1, path@.len() as int),
        !(path@.len() > 0 && path@[0] == 47u8) ==> r@ == path@,
{
    if path.len() > 0 && path[0] == 47u8 {
        vstd::slice::slice_subrange(path, 1, path.len())
    } else {
        path
    }
}

/// The path that is served, or `None` (answered with `NotFound`) when the
/// canonical path lies outside the root.
pub fn get_and_check_canon_path(root: &[u8], canonical: &[u8]) -> (r: Option<Vec<u8>>)
    ensures
        r matches Some(p) ==> p@ == canonical@ && within_root(root@, p@),
        r is None ==> !within_root(root@, canonical@),
{
    if path_within_root(root, canonical) {
        Some(crate::text::to_vec(canonical))
    } else {
        None
    }
}

/// Why a file-system lookup failed, as far as the answer depends on it.
#[derive(Clone, Copy, Debug, PartialEq, Eq, Structural)]
pub enum IoFailure {
    NotFound,
    PermissionDenied,
    Other,
}

/// The status a failed lookup is answered with.
pub fn resolve_io_error(e: IoFailure) -> (r: HttpStatus)
    ensures
        e == IoFailure::NotFound ==> r == HttpStatus::NotFound,
        e == IoFailure::PermissionDenied ==> r == HttpStatus::PermissionDenied,
        e == IoFailure::Other ==> r == HttpStatus::ServerError,
{
    match e {
        IoFailure::NotFound => HttpStatus::NotFound,
        IoFailure::PermissionDenied => HttpStatus::PermissionDenied,
        IoFailure::Other => HttpStatus::ServerError,
    }
}

/// What a canonical path names.
#[derive(Clone, Copy, Debug, PartialEq, Eq, Structural)]
pub enum EntryKind {
    File,
    Directory,
    Other,
}

/// Whether a resolved path may be served, and if not, the status: a path
/// outside the root is `NotFound` whatever it is, so that nothing outside
/// is revealed; a failed lookup gets its own status; anything but a
/// regular file or a directory, and a directory while listings are off, is
/// `PermissionDenied`.
pub fn check_target(
    root: &[u8],
    canonical: &[u8],
    kind: Result<EntryKind, IoFailure>,
    dir_listings: bool,
) -> (r: Result<EntryKind, HttpStatus>)
    ensures
        !within_root(root@, canonical@) ==> r == Err::<EntryKind, HttpStatus>(HttpStatus::NotFound),
        within_root(root@, canonical@) ==> match kind {
            Err(IoFailure::NotFound) => r == Err::<EntryKind, HttpStatus>(HttpStatus::NotFound),
            Err(IoFailure::PermissionDenied) => r == Err::<EntryKind, HttpStatus>(HttpStatus::PermissionDenied),
            Err(IoFailure::Other) => r == Err::<EntryKind, HttpStatus>(HttpStatus::ServerError),
            Ok(EntryKind::Other) => r == Err::<EntryKind, HttpStatus>(HttpStatus::PermissionDenied),
            Ok(EntryKind::Directory) => if dir_listings {
                r == Ok::<EntryKind, HttpStatus>(EntryKind::Directory)
            } else {
                r == Err::<EntryKind, HttpStatus>(HttpStatus::PermissionDenied)
            },
            Ok(EntryKind::File) => r == Ok::<EntryKind, HttpStatus>(EntryKind::File),
        },
{
    if !path_within_root(root, canonical) {
        return Err(HttpStatus::NotFound);
    }
    match kind {
        Err(e) => Err(resolve_io_error(e)),
        Ok(EntryKind::Other) => Err(HttpStatus::PermissionDenied),
        Ok(EntryKind::Directory) => if dir_listings {
            Ok(EntryKind::Directory)
        } else {
            Err(HttpStatus::PermissionDenied)
        },
        Ok(EntryKind::File) => Ok(EntryKind::File),
    }
}

} // verus!
