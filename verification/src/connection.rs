//! One connection, from the request line to the end of the response.
//!
//! The library does no input or output. A connection is a state; each thing that
//! happens outside (a line was read, a path was looked up, a block of the file was
//! read) is an event; and `step` answers an event with the next state, the bytes to
//! send, and the work to do next. Whoever owns the socket does that work and comes
//! back with the event that it gave.

use crate::chunked::{
    blocks, blocks_rejoin, chunked, chunked_body, concat, concat_of_joined, decode,
    decode_after_frames, decode_inverts_frames, encode_blocks, encode_chunk, frame, frames,
    terminator, BLOCK_SIZE,
};
use crate::mime::{content_type, content_type_of, find_content_type};
use crate::path::{join_stays_within, joined, within};
use crate::request::{blank_run, parse_request_line, request_line, trim_line, trimmed};
use crate::resolve::{
    has_leading_byte, index_is_html, index_name, leads_with_byte, locate, request_path, resolve,
    resolved, Rejection,
};
use crate::response::{file_head, serve_file_head, serve_status, status_response, ResponseStatus};
use vstd::prelude::*;
use vstd::string::StrSliceExecFns;
use vstd::utf8::encode_utf8;

verus! {

/// Where a connection stands.
#[derive(Clone, Copy, Debug, PartialEq, Eq, Structural)]
pub enum State {
    /// Nothing has been read yet; the request line is awaited.
    AwaitRequestLine,
    /// The target has been handed over to be looked up; the outcome is awaited.
    Dispatch,
    /// The head of a file response has been sent; the blocks of the file are awaited.
    Respond,
    /// The connection is over: nothing more is read or written.
    Closed,
}

/// What happened outside since the last step.
#[derive(Clone, Debug, PartialEq, Eq)]
pub enum Event {
    /// The first line of input, as it was read; empty if the peer closed before sending.
    Line(String),
    /// The path that was to be looked up does not exist.
    Missing,
    /// The path that was to be looked up exists; `path` is its canonical form.
    Found { path: Vec<u8>, is_dir: bool },
    /// The next block of the file; empty at its end.
    Block(Vec<u8>),
}

/// What to do after the bytes of a step have been sent.
#[derive(Clone, Debug, PartialEq, Eq)]
pub enum Work {
    /// Find the canonical form of this path, and whether it is a directory.
    Canonicalize(Vec<u8>),
    /// Open the file at this path and read its first block.
    Open(Vec<u8>),
    /// Read the next block of the file.
    Read,
    /// Close the connection.
    Close,
}

/// The answer to an event: bytes for the peer, then work.
#[derive(Clone, Debug, PartialEq, Eq)]
pub struct Action {
    /// The bytes to write to the peer, in full, before the work is done.
    pub send: Vec<u8>,
    /// What to do once they are written.
    pub work: Work,
}

/// An `Event`, as the values that it carries.
pub ghost enum EventView {
    Line(Seq<char>),
    Missing,
    Found { path: Seq<u8>, is_dir: bool },
    Block(Seq<u8>),
}

/// A `Work`, as the values that it carries.
pub ghost enum WorkView {
    Canonicalize(Seq<u8>),
    Open(Seq<u8>),
    Read,
    Close,
}

/// An `Action`, as the values that it carries.
pub ghost struct ActionView {
    pub send: Seq<u8>,
    pub work: WorkView,
}

impl View for Event {
    type V = EventView;

    open spec fn view(&self) -> EventView {
        match self {
            Event::Line(raw) => EventView::Line(raw@),
            Event::Missing => EventView::Missing,
            Event::Found { path, is_dir } => EventView::Found { path: path@, is_dir: *is_dir },
            Event::Block(bytes) => EventView::Block(bytes@),
        }
    }
}

impl View for Work {
    type V = WorkView;

    open spec fn view(&self) -> WorkView {
        match self {
            Work::Canonicalize(path) => WorkView::Canonicalize(path@),
            Work::Open(path) => WorkView::Open(path@),
            Work::Read => WorkView::Read,
            Work::Close => WorkView::Close,
        }
    }
}

impl View for Action {
    type V = ActionView;

    open spec fn view(&self) -> ActionView {
        ActionView { send: self.send@, work: self.work@ }
    }
}

/// The step that ends a connection with a bare status.
pub open spec fn rejection(status: ResponseStatus) -> (State, ActionView) {
    (
        State::Closed,
        ActionView {
            send: encode_utf8(status_response(status.code_of(), status.reason_of())),
            work: WorkView::Close,
        },
    )
}

/// The step that answers the request line `raw`, as it was read.
///
/// An empty line, once trimmed, closes the connection in silence. A line whose first
/// word is `GET` and which has a second word sends that word's path to be looked
/// up. Every other line is a bad request.
pub open spec fn on_line(root: Seq<u8>, raw: Seq<char>) -> (State, ActionView) {
    let line = trimmed(raw);
    if line.len() == 0 {
        (State::Closed, ActionView { send: Seq::empty(), work: WorkView::Close })
    } else {
        match request_line(line) {
            Some((method, target)) => if method == "GET"@ {
                (
                    State::Dispatch,
                    ActionView {
                        send: Seq::empty(),
                        work: WorkView::Canonicalize(request_path(root, target)),
                    },
                )
            } else {
                rejection(ResponseStatus::BadRequest)
            },
            None => rejection(ResponseStatus::BadRequest),
        }
    }
}

/// The step that answers the outcome of a lookup.
///
/// A path that does not exist is not found; one outside the root is forbidden; any
/// other is served, a directory by the `index.html` in it: the head of the response
/// goes out, and the file is to be opened.
pub open spec fn on_lookup(root: Seq<u8>, canonical: Option<Seq<u8>>, is_dir: bool) -> (
    State,
    ActionView,
) {
    match resolved(root, canonical, is_dir) {
        Err(Rejection::NotFound) => rejection(ResponseStatus::NotFound),
        Err(Rejection::Forbidden) => rejection(ResponseStatus::Forbidden),
        Ok(path) => (
            State::Respond,
            ActionView {
                send: encode_utf8(file_head(content_type_of(path).unwrap())),
                work: WorkView::Open(path),
            },
        ),
    }
}

/// The step that answers a block of the file: its frames, or the terminator for the
/// empty block that marks the end.
pub open spec fn on_block(block: Seq<u8>) -> (State, ActionView) {
    if block.len() == 0 {
        (State::Closed, ActionView { send: terminator(), work: WorkView::Close })
    } else {
        (State::Respond, ActionView { send: frames(blocks(block)), work: WorkView::Read })
    }
}

/// Whether `event` is one that `step` answers in `state`.
///
/// Each state awaits its own events, and a closed connection awaits none. Two
/// events cannot be answered: a request for a target whose first character is longer
/// than one byte, and a file within the root whose content type the table lacks.
pub open spec fn accepts(root: Seq<u8>, state: State, event: EventView) -> bool {
    match (state, event) {
        (State::AwaitRequestLine, EventView::Line(raw)) => match request_line(trimmed(raw)) {
            Some((method, target)) => method == "GET"@ ==> has_leading_byte(target),
            None => true,
        },
        (State::Dispatch, EventView::Missing) => true,
        (State::Dispatch, EventView::Found { path, is_dir }) => match resolved(
            root,
            Some(path),
            is_dir,
        ) {
            Ok(file) => content_type_of(file) is Some,
            Err(_) => true,
        },
        (State::Respond, EventView::Block(_)) => true,
        _ => false,
    }
}

/// The state that follows `event` in `state`, and the action that answers it.
pub open spec fn next(root: Seq<u8>, state: State, event: EventView) -> (State, ActionView)
    recommends
        accepts(root, state, event),
{
    match event {
        EventView::Line(raw) => on_line(root, raw),
        EventView::Missing => on_lookup(root, None, false),
        EventView::Found { path, is_dir } => on_lookup(root, Some(path), is_dir),
        EventView::Block(block) => on_block(block),
    }
}

/// Everything that is sent while a file is streamed: the answers to the blocks in
/// `reads`, in order, then the answer to the empty block that ends the file.
pub open spec fn streamed(reads: Seq<Seq<u8>>) -> Seq<u8>
    decreases reads.len(),
{
    if reads.len() == 0 {
        on_block(Seq::empty()).1.send
    } else {
        on_block(reads[0]).1.send + streamed(reads.drop_first())
    }
}

/// The payloads that go out for the blocks in `reads`: each block cut to the frame size.
pub open spec fn payloads(reads: Seq<Seq<u8>>) -> Seq<Seq<u8>>
    decreases reads.len(),
{
    if reads.len() == 0 {
        Seq::empty()
    } else {
        blocks(reads[0]) + payloads(reads.drop_first())
    }
}

/// Whether `line` asks for a target: it has two words, and the first is `GET`.
pub open spec fn names_a_target(line: Seq<char>) -> bool {
    match request_line(line) {
        Some((method, _)) => method == "GET"@,
        None => false,
    }
}

/// The event that reports a lookup: `found` holds the canonical path and whether it
/// is a directory, or nothing if the path does not exist.
pub open spec fn lookup_event(found: Option<(Seq<u8>, bool)>) -> EventView {
    match found {
        Some((path, is_dir)) => EventView::Found { path, is_dir },
        None => EventView::Missing,
    }
}

/// Everything that is sent over one connection, from the first step to the last.
///
/// `raw` is the request line as read; `found` is what the lookup gives, if it comes
/// to one; `reads` are the blocks in which the file is read, if it comes to that.
pub open spec fn exchange(
    root: Seq<u8>,
    raw: Seq<char>,
    found: Option<(Seq<u8>, bool)>,
    reads: Seq<Seq<u8>>,
) -> Seq<u8> {
    let first = next(root, State::AwaitRequestLine, EventView::Line(raw));
    if first.0 == State::Closed {
        first.1.send
    } else {
        let second = next(root, first.0, lookup_event(found));
        if second.0 == State::Closed {
            first.1.send + second.1.send
        } else {
            first.1.send + second.1.send + streamed(reads)
        }
    }
}

/// The whole response for the file at `path` that holds `data`: the head that names
/// its content type, then `data` as a chunked body.
pub open spec fn file_response(path: Seq<u8>, data: Seq<u8>) -> Seq<u8>
    recommends
        content_type_of(path) is Some,
{
    encode_utf8(file_head(content_type_of(path).unwrap())) + chunked(data)
}

/// A request line without a served method or without a target is a bad request.
///
/// For every root and every line that is not empty once trimmed: if the line has
/// fewer than two words, or its first word is not `GET`, the step is accepted, sends
/// the `400 Bad Request` response and closes the connection.
pub proof fn malformed_line_is_bad_request(root: Seq<u8>, raw: Seq<char>)
    requires
        trimmed(raw).len() > 0,
        match request_line(trimmed(raw)) {
            Some((method, _)) => method != "GET"@,
            None => true,
        },
    ensures
        accepts(root, State::AwaitRequestLine, EventView::Line(raw)),
        next(root, State::AwaitRequestLine, EventView::Line(raw)) == (
            State::Closed,
            ActionView {
                send: encode_utf8(status_response(400, "Bad Request"@)),
                work: WorkView::Close,
            },
        ),
{
}

/// A line that is empty once trimmed closes the connection and sends nothing.
pub proof fn empty_line_closes(root: Seq<u8>, raw: Seq<char>)
    requires
        trimmed(raw).len() == 0,
    ensures
        accepts(root, State::AwaitRequestLine, EventView::Line(raw)),
        next(root, State::AwaitRequestLine, EventView::Line(raw)) == (
            State::Closed,
            ActionView { send: Seq::<u8>::empty(), work: WorkView::Close },
        ),
{
}

/// A path that does not exist is answered with `404 Not Found`.
///
/// For every root, the step that answers a failed lookup is accepted, sends the
/// `404 Not Found` response and closes the connection.
pub proof fn missing_path_is_not_found(root: Seq<u8>)
    ensures
        accepts(root, State::Dispatch, EventView::Missing),
        next(root, State::Dispatch, EventView::Missing) == (
            State::Closed,
            ActionView {
                send: encode_utf8(status_response(404, "Not Found"@)),
                work: WorkView::Close,
            },
        ),
{
}

/// A path outside the document root is answered with `403 Forbidden`, and no file is opened.
///
/// For every root and every canonical path that is not within it, directory or not,
/// the step is accepted, sends the `403 Forbidden` response and closes the connection.
pub proof fn outside_root_is_forbidden(root: Seq<u8>, path: Seq<u8>, is_dir: bool)
    requires
        !within(path, root),
    ensures
        accepts(root, State::Dispatch, EventView::Found { path, is_dir }),
        next(root, State::Dispatch, EventView::Found { path, is_dir }) == (
            State::Closed,
            ActionView {
                send: encode_utf8(status_response(403, "Forbidden"@)),
                work: WorkView::Close,
            },
        ),
{
}

/// A file within the document root is served with the content type of its extension.
///
/// For every root and every canonical path within it that is no directory and whose
/// extension has the content type `kind`, the step is accepted, sends the `200` head
/// that names `kind`, and asks for that very file to be opened.
pub proof fn file_is_served(root: Seq<u8>, path: Seq<u8>, kind: Seq<char>)
    requires
        within(path, root),
        content_type_of(path) == Some(kind),
    ensures
        accepts(root, State::Dispatch, EventView::Found { path, is_dir: false }),
        next(root, State::Dispatch, EventView::Found { path, is_dir: false }) == (
            State::Respond,
            ActionView { send: encode_utf8(file_head(kind)), work: WorkView::Open(path) },
        ),
{
}

/// A directory is answered as the `index.html` in it is.
///
/// For every root and every directory within it, the step that answers the directory
/// equals the step that answers the file `index.html` joined onto it, and both are
/// accepted: the head names `text/html`, and that file is opened.
pub proof fn directory_is_index(root: Seq<u8>, dir: Seq<u8>)
    requires
        within(dir, root),
    ensures
        accepts(root, State::Dispatch, EventView::Found { path: dir, is_dir: true }),
        accepts(
            root,
            State::Dispatch,
            EventView::Found { path: joined(dir, index_name()), is_dir: false },
        ),
        next(root, State::Dispatch, EventView::Found { path: dir, is_dir: true }) == next(
            root,
            State::Dispatch,
            EventView::Found { path: joined(dir, index_name()), is_dir: false },
        ),
        next(root, State::Dispatch, EventView::Found { path: dir, is_dir: true }) == (
            State::Respond,
            ActionView {
                send: encode_utf8(file_head("text/html"@)),
                work: WorkView::Open(joined(dir, index_name())),
            },
        ),
{
    index_is_html(dir);
    join_stays_within(root, dir, index_name());
}

/// Asking for a directory gives what asking for its `index.html` gives.
///
/// For every root, every directory within it, every two request lines that name a
/// target, and every way of reading the file: the connection on which the lookup
/// finds the directory sends exactly what the connection sends on which the lookup
/// finds the file `index.html` joined onto that directory.
pub proof fn directory_request_is_index_request(
    root: Seq<u8>,
    for_dir: Seq<char>,
    for_file: Seq<char>,
    dir: Seq<u8>,
    reads: Seq<Seq<u8>>,
)
    requires
        names_a_target(trimmed(for_dir)),
        names_a_target(trimmed(for_file)),
        within(dir, root),
    ensures
        exchange(root, for_dir, Some((dir, true)), reads) == exchange(
            root,
            for_file,
            Some((joined(dir, index_name()), false)),
            reads,
        ),
{
    directory_is_index(root, dir);
}

/// What is streamed for a file decodes to the file.
///
/// For every way of reading a file in non-empty blocks, the bytes sent for the blocks
/// and for the end of the file form a chunked body that decodes; its payloads hold
/// between one byte and `BLOCK_SIZE` bytes each; and joined they are the blocks that
/// were read, joined.
pub proof fn stream_round_trip(reads: Seq<Seq<u8>>)
    requires
        forall|i: int| 0 <= i < reads.len() ==> (#[trigger] reads[i]).len() > 0,
    ensures
        decode(streamed(reads)) == Some(payloads(reads)),
        concat(payloads(reads)) == concat(reads),
        forall|i: int|
            0 <= i < payloads(reads).len() ==> 0 < (#[trigger] payloads(reads)[i]).len()
                <= BLOCK_SIZE,
    decreases reads.len(),
{
    if reads.len() == 0 {
        decode_inverts_frames(Seq::empty());
    } else {
        let first = reads[0];
        let rest = reads.drop_first();
        stream_round_trip(rest);
        blocks_rejoin(first);
        decode_after_frames(blocks(first), streamed(rest));
        concat_of_joined(blocks(first), payloads(rest));
    }
}

/// Blocks that fit a frame are streamed as one frame each.
///
/// For every run of blocks that hold between one byte and `BLOCK_SIZE` bytes each,
/// what is streamed for them is their frames, in order, and the terminator.
pub proof fn fitting_blocks_stream_as_frames(reads: Seq<Seq<u8>>)
    requires
        forall|i: int| 0 <= i < reads.len() ==> 0 < (#[trigger] reads[i]).len() <= BLOCK_SIZE,
    ensures
        streamed(reads) == frames(reads) + terminator(),
    decreases reads.len(),
{
    if reads.len() > 0 {
        fitting_blocks_stream_as_frames(reads.drop_first());
        assert(blocks(reads[0]).drop_first() =~= Seq::<Seq<u8>>::empty());
    }
}

/// A file read in full blocks streams as the body of the whole file.
///
/// For every `data`, streaming the blocks of `data` sends exactly `chunked(data)`.
pub proof fn full_blocks_stream_the_body(data: Seq<u8>)
    ensures
        streamed(blocks(data)) == chunked(data),
{
    blocks_rejoin(data);
    fitting_blocks_stream_as_frames(blocks(data));
}

/// A connection carries one response, or none.
///
/// For every root, request line, lookup and way of reading the file in non-empty
/// blocks, what is sent over the whole connection is one of these. Nothing, for a line
/// that is empty once trimmed. The `400` response, for a line without `GET` and a
/// target. The `404` response, for a path that does not exist. The `403` response, for
/// a path outside the root. Otherwise the `200` head with the content type of the file
/// that is served, an `index.html` for a directory, followed by a chunked body that
/// decodes to the blocks that were read.
pub proof fn exchange_is_one_response(
    root: Seq<u8>,
    raw: Seq<char>,
    found: Option<(Seq<u8>, bool)>,
    reads: Seq<Seq<u8>>,
)
    requires
        forall|i: int| 0 <= i < reads.len() ==> (#[trigger] reads[i]).len() > 0,
    ensures
        exchange(root, raw, found, reads) == if trimmed(raw).len() == 0 {
            Seq::<u8>::empty()
        } else if !names_a_target(trimmed(raw)) {
            encode_utf8(status_response(400, "Bad Request"@))
        } else {
            match found {
                None => encode_utf8(status_response(404, "Not Found"@)),
                Some((path, is_dir)) => if !within(path, root) {
                    encode_utf8(status_response(403, "Forbidden"@))
                } else {
                    let file = if is_dir {
                        joined(path, index_name())
                    } else {
                        path
                    };
                    encode_utf8(file_head(content_type_of(file).unwrap())) + streamed(reads)
                },
            }
        },
        decode(streamed(reads)) == Some(payloads(reads)),
        concat(payloads(reads)) == concat(reads),
{
    stream_round_trip(reads);
}

/// A closed connection answers nothing more.
///
/// For every root and every event, no step is accepted in the state `Closed`; and
/// every step that sends a bare status leaves the connection in that state.
pub proof fn closed_is_final(root: Seq<u8>, event: EventView, status: ResponseStatus)
    ensures
        !accepts(root, State::Closed, event),
        rejection(status).0 == State::Closed,
        rejection(status).1.work == WorkView::Close,
{
}

fn reject(status: ResponseStatus) -> (out: (State, Action))
    ensures
        (out.0, out.1@) == rejection(status),
{
    let text = serve_status(status.code(), status.reason());
    (State::Closed, Action { send: text.as_str().as_bytes_vec(), work: Work::Close })
}

/// Writes the whole response for the file at `path` that holds `data`.
///
/// The path must name a file whose content type is known; `find_content_type` tells
/// whether it does.
pub fn serve_file(path: &[u8], data: &[u8]) -> (out: Vec<u8>)
    requires
        content_type_of(path@) is Some,
    ensures
        out@ == file_response(path@, data@),
{
    let head = serve_file_head(content_type(path));
    let mut out = head.as_str().as_bytes_vec();
    let body = chunked_body(data);
    out.extend_from_slice(body.as_slice());
    out
}

/// Tells whether `step` answers `event` in `state`.
pub fn can_step(root: &[u8], state: State, event: &Event) -> (yes: bool)
    ensures
        yes == accepts(root@, state, event@),
{
    match state {
        State::AwaitRequestLine => match event {
            Event::Line(raw) => match parse_request_line(trim_line(raw.as_str())) {
                Some(parsed) => !parsed.is_get() || leads_with_byte(parsed.target),
                None => true,
            },
            _ => false,
        },
        State::Dispatch => match event {
            Event::Missing => true,
            Event::Found { path, is_dir } => match resolve(root, Some(path.as_slice()), *is_dir) {
                Ok(file) => find_content_type(file.as_slice()).is_some(),
                Err(_) => true,
            },
            _ => false,
        },
        State::Respond => match event {
            Event::Block(_) => true,
            _ => false,
        },
        State::Closed => false,
    }
}

/// Answers `event` in `state`: the next state, the bytes to send, and the work to do.
///
/// `root` is the document root. The event must be one that the state awaits;
/// `can_step` tells whether it is.
pub fn step(root: &[u8], state: State, event: &Event) -> (out: (State, Action))
    requires
        accepts(root@, state, event@),
    ensures
        (out.0, out.1@) == next(root@, state, event@),
{
    match event {
        Event::Line(raw) => {
            let line = trim_line(raw.as_str());
            if line.is_empty() {
                return (State::Closed, Action { send: Vec::new(), work: Work::Close });
            }
            match parse_request_line(line) {
                Some(parsed) => {
                    if parsed.is_get() {
                        let path = locate(root, parsed.target);
                        (
                            State::Dispatch,
                            Action { send: Vec::new(), work: Work::Canonicalize(path) },
                        )
                    } else {
                        reject(ResponseStatus::BadRequest)
                    }
                },
                None => reject(ResponseStatus::BadRequest),
            }
        },
        Event::Missing => reject(ResponseStatus::NotFound),
        Event::Found { path, is_dir } => match resolve(root, Some(path.as_slice()), *is_dir) {
            Ok(file) => {
                let head = serve_file_head(content_type(file.as_slice()));
                (
                    State::Respond,
                    Action { send: head.as_str().as_bytes_vec(), work: Work::Open(file) },
                )
            },
            Err(Rejection::NotFound) => reject(ResponseStatus::NotFound),
            Err(Rejection::Forbidden) => reject(ResponseStatus::Forbidden),
        },
        Event::Block(block) => {
            if block.len() == 0 {
                let none: Vec<u8> = Vec::new();
                (State::Closed, Action { send: encode_chunk(none.as_slice()), work: Work::Close })
            } else {
                (
                    State::Respond,
                    Action { send: encode_blocks(block.as_slice()), work: Work::Read },
                )
            }
        },
    }
}

} // verus!
