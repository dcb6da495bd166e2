//! Rules of the flight computer's web server: how it labels the files it
//! serves, how it frames WebSocket traffic and what its state publisher
//! sends on each tick.

use vstd::prelude::*;
use vstd::string::StringSliceAdditionalSpecFns;

verus! {

/// `bytes` ends with `suffix`.
pub open spec fn has_suffix(bytes: Seq<u8>, suffix: Seq<u8>) -> bool {
    suffix.len() <= bytes.len() && bytes.subrange(bytes.len() - suffix.len(), bytes.len() as int) == suffix
}

fn ends_with(bytes: &[u8], suffix: &[u8]) -> (result: bool)
    ensures
        result == has_suffix(bytes@, suffix@),
{
    if suffix.len() > bytes.len() {
        return false;
    }
    let start = bytes.len() - suffix.len();
    let mut i: usize = 0;
    while i < suffix.len()
        invariant
            suffix.len() <= bytes.len(),
            start == bytes.len() - suffix.len(),
            start == bytes@.len() - suffix@.len(),
            i <= suffix@.len(),
            forall|k: int| 0 <= k < i ==> bytes@[start + k] == suffix@[k],
        decreases suffix.len() - i,
    {
        if bytes[start + i] != suffix[i] {
            assert(bytes@.subrange(start as int, bytes@.len() as int)[i as int] != suffix@[i as int]);
            return false;
        }
        i = i + 1;
    }
    assert(bytes@.subrange(start as int, bytes@.len() as int) =~= suffix@);
    true
}

/// The media types the server distinguishes.
#[derive(Clone, Copy, Debug, PartialEq, Eq)]
pub enum ContentType {
    JavaScript,
    Wasm,
    Html,
    Css,
}

impl ContentType {
    /// The `Content-Type` header value.
    pub fn header_value(self) -> (value: &'static str)
        ensures
            self == ContentType::JavaScript ==> value@ == "application/javascript"@,
            self == ContentType::Wasm ==> value@ == "application/wasm"@,
            self == ContentType::Html ==> value@ == "text/html"@,
            self == ContentType::Css ==> value@ == "text/css"@,
    {
        match self {
            ContentType::JavaScript => "application/javascript",
            ContentType::Wasm => "application/wasm",
            ContentType::Html => "text/html",
            ContentType::Css => "text/css",
        }
    }
}

/// The content type of a served file, by its extension: `.js`, `.wasm`,
/// `.html`/`.htm` and `.css`; anything else is served as HTML.
pub open spec fn content_type_of(path: Seq<u8>) -> ContentType {
    if has_suffix(path, seq![0x2eu8, 0x6au8, 0x73u8]) {
        ContentType::JavaScript
    } else if has_suffix(path, seq![0x2eu8, 0x77u8, 0x61u8, 0x73u8, 0x6du8]) {
        ContentType::Wasm
    } else if has_suffix(path, seq![0x2eu8, 0x63u8, 0x73u8, 0x73u8]) {
        ContentType::Css
    } else {
        ContentType::Html
    }
}

/// The content type for the file at `path`.
pub fn content_type(path: &str) -> (kind: ContentType)
    ensures
        kind == content_type_of(path.spec_bytes()),
{
    let bytes = path.as_bytes();
    let js: [u8; 3] = [0x2e, 0x6a, 0x73];
    let wasm: [u8; 5] = [0x2e, 0x77, 0x61, 0x73, 0x6d];
    let css: [u8; 4] = [0x2e, 0x63, 0x73, 0x73];
    assert(js@ =~= seq![0x2eu8, 0x6au8, 0x73u8]);
    assert(wasm@ =~= seq![0x2eu8, 0x77u8, 0x61u8, 0x73u8, 0x6du8]);
    assert(css@ =~= seq![0x2eu8, 0x63u8, 0x73u8, 0x73u8]);
    if ends_with(bytes, js.as_slice()) {
        ContentType::JavaScript
    } else if ends_with(bytes, wasm.as_slice()) {
        ContentType::Wasm
    } else if ends_with(bytes, css.as_slice()) {
        ContentType::Css
    } else {
        ContentType::Html
    }
}

/// The JSON payload length of a received WebSocket text frame: the
/// reported length counts a trailing NUL terminator.
pub fn text_frame_payload_len(length: usize) -> (len: usize)
    ensures
        len == if length == 0 { 0 } else { length - 1 },
{
    length.saturating_sub(1)
}

/// The number of four-sample chunks a result of `samples` samples is sent
/// in.
pub fn chunk_count(samples: usize) -> (chunks: usize)
    ensures
        chunks == (samples + 3) / 4,
{
    samples / 4 + if samples % 4 == 0 { 0 } else { 1 }
}

/// Result revisions: those the state holds, or those last sent to the UI.
#[derive(Clone, Copy, Debug, PartialEq, Eq)]
pub struct Revisions {
    pub servo_test: u32,
    pub inertia_capture: u32,
    pub hil_simulation: u32,
}

/// What one tick of the state publisher sends to the UI socket.
#[derive(Clone, Copy, Debug, PartialEq, Eq)]
pub struct Publication {
    pub servo_test: bool,
    pub inertia_capture: bool,
    pub hil_simulation: bool,
    pub state: bool,
}

/// One tick of the state publisher, once a UI socket is connected: while a
/// servo test runs nothing is sent (the capture loop has priority);
/// otherwise every result whose revision differs from the one last sent
/// goes out, then the state, and the current revisions count as sent.
pub fn publish_tick(test_running: bool, current: Revisions, sent: Revisions) -> (out: (Publication, Revisions))
    ensures
        test_running ==> out == (
            Publication { servo_test: false, inertia_capture: false, hil_simulation: false, state: false },
            sent,
        ),
        !test_running ==> out == (
            Publication {
                servo_test: current.servo_test != sent.servo_test,
                inertia_capture: current.inertia_capture != sent.inertia_capture,
                hil_simulation: current.hil_simulation != sent.hil_simulation,
                state: true,
            },
            current,
        ),
{
    if test_running {
        return (Publication { servo_test: false, inertia_capture: false, hil_simulation: false, state: false }, sent);
    }
    (
        Publication {
            servo_test: current.servo_test != sent.servo_test,
            inertia_capture: current.inertia_capture != sent.inertia_capture,
            hil_simulation: current.hil_simulation != sent.hil_simulation,
            state: true,
        },
        current,
    )
}

} // verus!
