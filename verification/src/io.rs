//! Terminal output in the browser: text for standard output or standard error goes to an
//! installed sink, adapted to the colour choice, or to the host when no sink is installed.
use vstd::prelude::*;

use crate::term::TermConfig;

verus! {

/// The two output streams.
#[derive(Debug, Clone, Copy, PartialEq, Eq, Structural)]
pub enum Stream {
    Stdout,
    Stderr,
}

/// Receives output; the embedding application implements it.
pub trait Sink {
    /// The record of what the sink has received so far, stream by stream, in order. Each
    /// implementation is meant to define it as its own record. The default, an empty record,
    /// only lets an implementation that keeps no record be written; such an implementation
    /// cannot meet the contract of `write`, and what this module states of delivery then
    /// says nothing of it.
    open spec fn received(&self) -> Seq<(Stream, Seq<u8>)> {
        Seq::empty()
    }

    /// Receives `bytes` on `stream`.
    fn write(&mut self, stream: Stream, bytes: &[u8])
        ensures
            final(self).received() == old(self).received().push((stream, bytes@)),
    ;
}

/// Whether to emit colour, as `anstream::ColorChoice` has it.
#[derive(Debug, Clone, Copy, PartialEq, Eq, Structural)]
pub enum ColorChoice {
    Auto,
    AlwaysAnsi,
    Always,
    Never,
}

/// The choice in effect: an explicit choice stands; `Auto` colours a terminal only.
pub open spec fn effective_choice(global: ColorChoice, term: TermConfig) -> ColorChoice {
    match global {
        ColorChoice::Auto => if term.is_tty {
            ColorChoice::Always
        } else {
            ColorChoice::Never
        },
        explicit => explicit,
    }
}

/// The colour choice output is adapted to.
pub fn color_choice(global: ColorChoice, term: &TermConfig) -> (c: ColorChoice)
    ensures
        c == effective_choice(global, *term),
{
    match global {
        ColorChoice::Auto => if crate::term::is_tty(term) {
            ColorChoice::Always
        } else {
            ColorChoice::Never
        },
        explicit => explicit,
    }
}

/// The text with its ANSI escape sequences removed, as `anstream` strips it.
pub uninterp spec fn escape_free(text: Seq<char>) -> Seq<char>;

/// `anstream::adapter::strip_str(text).to_string()`: the text without its escape sequences
/// (the result depends on the text alone).
#[verifier::external_body]
fn strip_escapes(text: &str) -> (r: String)
    ensures
        r@ == escape_free(text@),
{
    anstream::adapter::strip_str(text).to_string()
}

/// The bytes `anstream::StripStream` writes for `text`: its bytes without escape sequences.
pub uninterp spec fn stripped_bytes(text: Seq<char>) -> Seq<u8>;

/// The bytes a sink receives for `text` under an explicit choice: without escape sequences
/// when colour is off, as written otherwise.
pub open spec fn adapted(text: Seq<char>, choice: ColorChoice) -> Seq<u8> {
    if choice == ColorChoice::Never {
        stripped_bytes(text)
    } else {
        vstd::utf8::encode_utf8(text)
    }
}

/// What an `anstream::AutoStream` over a byte buffer writes for `text` under `choice`:
/// `Always` and `AlwaysAnsi` pass the bytes through (a buffer is no terminal, so no console
/// API is involved), `Never` strips them; `Auto` resolves through anstream's process-wide
/// choice, so it does either, and which is not stated.
#[verifier::external_body]
fn auto_stream(text: &str, choice: ColorChoice) -> (r: Vec<u8>)
    ensures
        choice == ColorChoice::Never ==> r@ == stripped_bytes(text@),
        choice == ColorChoice::Always || choice == ColorChoice::AlwaysAnsi ==> r@
            == vstd::utf8::encode_utf8(text@),
        choice == ColorChoice::Auto ==> (r@ == stripped_bytes(text@) || r@
            == vstd::utf8::encode_utf8(text@)),
{
    let mut adapted = Vec::with_capacity(text.len());
    let raw = match choice {
        ColorChoice::Auto => anstream::ColorChoice::Auto,
        ColorChoice::AlwaysAnsi => anstream::ColorChoice::AlwaysAnsi,
        ColorChoice::Always => anstream::ColorChoice::Always,
        ColorChoice::Never => anstream::ColorChoice::Never,
    };
    let mut writer = anstream::AutoStream::new(&mut adapted, raw);
    let _ = std::io::Write::write_all(&mut writer, text.as_bytes());
    let _ = std::io::Write::flush(&mut writer);
    drop(writer);
    adapted
}

/// The bytes a sink receives for `text` under `choice`, as `anstream::AutoStream` adapts
/// them.
pub fn adapt(text: &str, choice: ColorChoice) -> (r: Vec<u8>)
    ensures
        choice != ColorChoice::Auto ==> r@ == adapted(text@, choice),
        choice == ColorChoice::Auto ==> (r@ == adapted(text@, ColorChoice::Never) || r@
            == adapted(text@, ColorChoice::Always)),
{
    auto_stream(text, choice)
}

/// `bytes` are what the sink is handed for `text` under `choice`: adapted to the choice, and
/// for `Auto` either stripped or unchanged (anstream resolves it).
pub open spec fn delivered(bytes: Seq<u8>, text: Seq<char>, choice: ColorChoice) -> bool {
    if choice == ColorChoice::Auto {
        bytes == adapted(text, ColorChoice::Never) || bytes == adapted(text, ColorChoice::Always)
    } else {
        bytes == adapted(text, choice)
    }
}

/// A write of `text` to `stream` under `choice`, with the sink `before` installed, leaves the
/// sink `after` installed, having received exactly one more write: `text` adapted, on
/// `stream`. With no sink installed, none is installed afterwards.
pub open spec fn sent<S: Sink>(before: Option<S>, after: Option<S>, stream: Stream, text: Seq<char>, choice: ColorChoice) -> bool {
    match before {
        None => after is None,
        Some(s) => match after {
            Some(t) => {
                &&& t.received().len() == s.received().len() + 1
                &&& t.received().drop_last() == s.received()
                &&& t.received().last().0 == stream
                &&& delivered(t.received().last().1, text, choice)
            },
            None => false,
        },
    }
}

/// The installed sink, if any, and whether a write to it is under way.
#[derive(Debug)]
pub struct Capture<S> {
    sink: Option<S>,
    writing: bool,
}

impl<S> Capture<S> {
    /// No sink installed, nothing under way.
    pub fn new() -> (c: Self)
        ensures
            c.installed() is None,
            !c.busy(),
    {
        Capture { sink: None, writing: false }
    }

    /// The installed sink.
    pub closed spec fn installed(&self) -> Option<S> {
        self.sink
    }

    /// Whether a write to the sink is under way.
    pub closed spec fn busy(&self) -> bool {
        self.writing
    }
}

/// Installs `sink`, replacing any sink installed before.
pub fn set_sink<S>(capture: &mut Capture<S>, sink: S)
    ensures
        final(capture).installed() == Some(sink),
        final(capture).busy() == old(capture).busy(),
{
    capture.sink = Some(sink);
}

/// Removes the sink; output goes to the host again.
pub fn clear_sink<S>(capture: &mut Capture<S>)
    ensures
        final(capture).installed() is None,
        final(capture).busy() == old(capture).busy(),
{
    capture.sink = None;
}

/// Whether output is being captured: a sink is installed, or a write to it is under way.
pub fn is_captured<S>(capture: &Capture<S>) -> (r: bool)
    ensures
        r == (capture.installed() is Some || capture.busy()),
{
    capture.sink.is_some() || capture.writing
}

/// How a write starts: the installed sink, if any, taken out for the write; whether a
/// write was already under way; and whether the host must print the text instead (no sink
/// installed and no write under way).
pub struct Started<S> {
    pub sink: Option<S>,
    pub was_busy: bool,
    pub to_host: bool,
}

/// Starts a write: takes the installed sink out, marking a write under way, so that a write
/// begun while it lasts finds no sink and is dropped; with no sink, nothing changes.
pub fn start_write<S>(capture: &mut Capture<S>) -> (r: Started<S>)
    ensures
        r.sink == old(capture).installed(),
        r.was_busy == old(capture).busy(),
        r.to_host == (old(capture).installed() is None && !old(capture).busy()),
        final(capture).installed() is None,
        final(capture).busy() == (old(capture).busy() || old(capture).installed() is Some),
{
    let was_busy = capture.writing;
    let sink = capture.sink.take();
    let to_host = sink.is_none() && !was_busy;
    if sink.is_some() {
        capture.writing = true;
    }
    Started { sink, was_busy, to_host }
}

/// Ends a write: puts the sink back and restores whether a write was under way before.
pub fn finish_write<S>(capture: &mut Capture<S>, sink: S, was_busy: bool)
    ensures
        final(capture).installed() == Some(sink),
        final(capture).busy() == was_busy,
{
    capture.sink = Some(sink);
    capture.writing = was_busy;
}

/// Sends `text` to the installed sink, adapted to `choice`; reports whether the host must
/// print it instead (no sink installed and no write under way). A write made while another
/// is under way (its sink taken out by `start_write`) reaches neither a sink nor the host.
pub fn write_str<S: Sink>(capture: &mut Capture<S>, stream: Stream, text: &str, choice: ColorChoice) -> (to_host: bool)
    ensures
        to_host == (old(capture).installed() is None && !old(capture).busy()),
        sent(old(capture).installed(), final(capture).installed(), stream, text@, choice),
        final(capture).busy() == old(capture).busy(),
{
    let started = start_write(capture);
    match started.sink {
        None => started.to_host,
        Some(mut sink) => {
            let bytes = adapt(text, choice);
            sink.write(stream, bytes.as_slice());
            proof {
                assert(sink.received().drop_last() =~= old(capture).installed()->Some_0.received());
            }
            finish_write(capture, sink, started.was_busy);
            false
        },
    }
}

/// Writes `text` to standard output.
pub fn stdout<S: Sink>(capture: &mut Capture<S>, text: &str, choice: ColorChoice) -> (to_host: bool)
    ensures
        to_host == (old(capture).installed() is None && !old(capture).busy()),
        sent(old(capture).installed(), final(capture).installed(), Stream::Stdout, text@, choice),
        final(capture).busy() == old(capture).busy(),
{
    write_str(capture, Stream::Stdout, text, choice)
}

/// Writes `text` to standard error.
pub fn stderr<S: Sink>(capture: &mut Capture<S>, text: &str, choice: ColorChoice) -> (to_host: bool)
    ensures
        to_host == (old(capture).installed() is None && !old(capture).busy()),
        sent(old(capture).installed(), final(capture).installed(), Stream::Stderr, text@, choice),
        final(capture).busy() == old(capture).busy(),
{
    write_str(capture, Stream::Stderr, text, choice)
}

/// The text `String::from_utf8_lossy` makes of the bytes.
pub uninterp spec fn utf8_lossy(bytes: Seq<u8>) -> Seq<char>;

/// `String::from_utf8_lossy`: the text the bytes encode, each invalid sequence replaced by
/// U+FFFD (so valid UTF-8 decodes exactly).
#[verifier::external_body]
fn lossy_text(bytes: &[u8]) -> (r: String)
    ensures
        r@ == utf8_lossy(bytes@),
        vstd::utf8::valid_utf8(bytes@) ==> r@ == vstd::utf8::decode_utf8(bytes@),
{
    String::from_utf8_lossy(bytes).into_owned()
}

/// A writer whose bytes go to standard output as text.
#[derive(Debug, Clone, Copy, Default)]
pub struct StdoutWriter;

impl StdoutWriter {
    /// Writes the bytes (as text, invalid UTF-8 replaced) to standard output; reports that
    /// all were taken, and the text the host must print when nothing captures it.
    pub fn write<S: Sink>(&mut self, capture: &mut Capture<S>, buf: &[u8], choice: ColorChoice) -> (r: (
        usize,
        Option<String>,
    ))
        ensures
            r.0 == buf@.len(),
            (r.1 is Some) == (old(capture).installed() is None && !old(capture).busy()),
            r.1 matches Some(t) ==> t@ == utf8_lossy(buf@),
            sent(old(capture).installed(), final(capture).installed(), Stream::Stdout, utf8_lossy(buf@), choice),
            final(capture).busy() == old(capture).busy(),
    {
        let text = lossy_text(buf);
        if write_str(capture, Stream::Stdout, text.as_str(), choice) {
            (buf.len(), Some(text))
        } else {
            (buf.len(), None)
        }
    }

    /// Nothing is held back, so there is nothing to flush.
    pub fn flush(&mut self) {
    }
}

/// A writer for log lines: its bytes go to standard error as text, escape sequences removed.
#[derive(Debug, Clone, Copy, Default)]
pub struct LogWriter;

impl LogWriter {
    /// Writes the bytes (as text, invalid UTF-8 replaced, escape sequences removed) to
    /// standard error; reports that all were taken, and the text the host must print when
    /// nothing captures it.
    pub fn write<S: Sink>(&mut self, capture: &mut Capture<S>, buf: &[u8], choice: ColorChoice) -> (r: (
        usize,
        Option<String>,
    ))
        ensures
            r.0 == buf@.len(),
            (r.1 is Some) == (old(capture).installed() is None && !old(capture).busy()),
            r.1 matches Some(t) ==> t@ == escape_free(utf8_lossy(buf@)),
            sent(
                old(capture).installed(),
                final(capture).installed(),
                Stream::Stderr,
                escape_free(utf8_lossy(buf@)),
                choice,
            ),
            final(capture).busy() == old(capture).busy(),
    {
        let text = lossy_text(buf);
        let plain = strip_escapes(text.as_str());
        if write_str(capture, Stream::Stderr, plain.as_str(), choice) {
            (buf.len(), Some(plain))
        } else {
            (buf.len(), None)
        }
    }

    /// Nothing is held back, so there is nothing to flush.
    pub fn flush(&mut self) {
    }
}

} // verus!
