//! Stdin / pipe streaming.
//!
//! The wire protocol is one ASCII header line `WIDTHxHEIGHT` followed by raw RGB24 frames, each
//! `WIDTH*HEIGHT*3` bytes (row-major, top-to-bottom), back to back with no delimiter. Playback ends
//! at end-of-input on a frame boundary; a frame that is cut short ends it too. Frames are resampled
//! (nearest-neighbour) to fit the terminal.

use crate::cli::Renderer;
use crate::color::Color;
use crate::error::Complaint;
use crate::framebuffer::{
    lemma_index_in_plane, lemma_index_is_injective, lemma_share_in_range,
    lemma_share_of_same_length, lemma_share_spans, Framebuffer, Raster,
};
use crate::image_viewer::{at_least_one, columns, clamp_columns};
use crate::text::{decimal, joined, push_decimal};
use crate::viewport::Viewport;
use vstd::prelude::*;
use vstd::string::*;

verus! {

/// Bytes per pixel in the raw RGB24 payload.
pub const BYTES_PER_PIXEL: usize = 3;

/// The concrete encoder chosen for a stream.
#[derive(Clone, Copy, Debug, PartialEq, Eq, Structural)]
pub enum StreamEncoder {
    /// Braille dots.
    Braille,
    /// An ASCII density ramp.
    Ascii,
    /// Half-blocks.
    Blocks,
}

impl StreamEncoder {
    /// Resolves the [`Renderer`] into a concrete encoder: half-blocks when color is requested,
    /// otherwise the higher-resolution Braille encoder.
    pub fn resolve(renderer: Renderer, color: bool) -> (e: StreamEncoder)
        ensures
            e == (match renderer {
                Renderer::Braille => StreamEncoder::Braille,
                Renderer::Ascii => StreamEncoder::Ascii,
                Renderer::Blocks => StreamEncoder::Blocks,
                Renderer::Auto => if color {
                    StreamEncoder::Blocks
                } else {
                    StreamEncoder::Braille
                },
            }),
    {
        match renderer {
            Renderer::Braille => StreamEncoder::Braille,
            Renderer::Ascii => StreamEncoder::Ascii,
            Renderer::Blocks => StreamEncoder::Blocks,
            Renderer::Auto => {
                if color {
                    StreamEncoder::Blocks
                } else {
                    StreamEncoder::Braille
                }
            },
        }
    }

    /// The subpixel factors used to size the framebuffer for this encoder.
    pub fn subpixels(self) -> (s: (u16, u16))
        ensures
            s == (match self {
                StreamEncoder::Braille => (2u16, 4u16),
                StreamEncoder::Ascii => (1u16, 1u16),
                StreamEncoder::Blocks => (1u16, 2u16),
            }),
    {
        match self {
            StreamEncoder::Braille => (2, 4),
            StreamEncoder::Ascii => (1, 1),
            StreamEncoder::Blocks => (1, 2),
        }
    }
}

/// The most columns and rows that a stream is shown in: the given width or the terminal's, and the
/// terminal's height, at least one of each.
pub open spec fn limits(bounds: Viewport, width: Option<u32>) -> Viewport {
    Viewport {
        cols: match width {
            Some(w) => columns(w),
            None => at_least_one(bounds.cols),
        },
        rows: at_least_one(bounds.rows),
    }
}

/// The most columns and rows that a stream is shown in.
pub fn stream_limits(bounds: Viewport, width: Option<u32>) -> (v: Viewport)
    ensures
        v == limits(bounds, width),
{
    let cols: u16 = match width {
        Some(w) => clamp_columns(w),
        None => if bounds.cols == 0 {
            1
        } else {
            bounds.cols
        },
    };
    let rows: u16 = if bounds.rows == 0 {
        1
    } else {
        bounds.rows
    };
    Viewport { cols, rows }
}

/// `n` between one and `most`.
pub open spec fn between(n: u16, most: u16) -> u16 {
    if n < 1 {
        1
    } else if n > most {
        most
    } else {
        n
    }
}

/// The viewport for a frame that would take `cols` columns and `rows` rows at its own aspect: as
/// many, but at least one and no more than the limits.
pub fn fit_viewport(cols: u16, rows: u16, bounds: Viewport, width: Option<u32>) -> (v: Viewport)
    ensures
        v.cols == between(cols, limits(bounds, width).cols),
        v.rows == between(rows, limits(bounds, width).rows),
        1 <= v.cols <= limits(bounds, width).cols,
        1 <= v.rows <= limits(bounds, width).rows,
{
    let most = stream_limits(bounds, width);
    let c: u16 = if cols < 1 {
        1
    } else if cols > most.cols {
        most.cols
    } else {
        cols
    };
    let r: u16 = if rows < 1 {
        1
    } else if rows > most.rows {
        most.rows
    } else {
        rows
    };
    Viewport { cols: c, rows: r }
}

/// The outcome of attempting to read one raw frame from the stream.
#[derive(Clone, Copy, Debug, PartialEq, Eq, Structural)]
pub enum FrameStatus {
    /// A full frame was read.
    Complete,
    /// Clean end-of-input on a frame boundary (zero bytes available).
    Eof,
    /// The stream closed part-way through a frame; carries the number of bytes read.
    Truncated(usize),
}

/// Gathers the bytes of one frame, however they come in.
#[derive(Debug)]
pub struct FrameReader {
    frame_bytes: usize,
    buf: Vec<u8>,
}

impl FrameReader {
    /// How many bytes a frame has.
    pub closed spec fn size(&self) -> nat {
        self.frame_bytes as nat
    }

    /// The bytes so far.
    pub closed spec fn bytes(&self) -> Seq<u8> {
        self.buf@
    }

    /// Whether there are no more bytes than a frame has.
    pub open spec fn wf(&self) -> bool {
        self.bytes().len() <= self.size()
    }

    /// Starts a frame of `frame_bytes` bytes.
    pub fn new(frame_bytes: usize) -> (r: FrameReader)
        ensures
            r.wf(),
            r.size() == frame_bytes,
            r.bytes() == Seq::<u8>::empty(),
    {
        FrameReader { frame_bytes, buf: Vec::new() }
    }

    /// Starts over with the next frame, keeping the memory.
    pub fn restart(&mut self)
        ensures
            final(self).wf(),
            final(self).size() == old(self).size(),
            final(self).bytes() == Seq::<u8>::empty(),
    {
        self.buf.clear();
    }

    /// How many bytes are missing.
    pub fn wanted(&self) -> (n: usize)
        requires
            self.wf(),
        ensures
            n == self.size() - self.bytes().len(),
    {
        self.frame_bytes - self.buf.len()
    }

    /// Takes in more bytes of the frame.
    pub fn feed(&mut self, chunk: &[u8])
        requires
            old(self).wf(),
            old(self).bytes().len() + chunk@.len() <= old(self).size(),
        ensures
            final(self).wf(),
            final(self).size() == old(self).size(),
            final(self).bytes() == old(self).bytes() + chunk@,
    {
        let ghost before = self.buf@;
        let mut i: usize = 0;
        assert(before + chunk@.take(0) =~= before);
        while i < chunk.len()
            invariant
                i <= chunk@.len(),
                self.frame_bytes == old(self).size(),
                self.buf@ == before + chunk@.take(i as int),
            decreases chunk@.len() - i,
        {
            self.buf.push(chunk[i]);
            assert(self.buf@ =~= before + chunk@.take(i + 1));
            i = i + 1;
        }
        assert(chunk@.take(i as int) =~= chunk@);
    }

    /// What the frame comes to, once no more bytes are wanted or none are left; `None` where more are
    /// wanted and may come.
    pub fn status(&self, ended: bool) -> (s: Option<FrameStatus>)
        requires
            self.wf(),
        ensures
            s == (if self.bytes().len() < self.size() && !ended {
                None
            } else if self.bytes().len() == 0 {
                Some(FrameStatus::Eof)
            } else if self.bytes().len() == self.size() {
                Some(FrameStatus::Complete)
            } else {
                Some(FrameStatus::Truncated(self.bytes().len() as usize))
            }),
    {
        let filled: usize = self.buf.len();
        if filled < self.frame_bytes && !ended {
            None
        } else if filled == 0 {
            Some(FrameStatus::Eof)
        } else if filled == self.frame_bytes {
            Some(FrameStatus::Complete)
        } else {
            Some(FrameStatus::Truncated(filled))
        }
    }

    /// The bytes so far.
    pub fn data(&self) -> (s: &[u8])
        ensures
            s@ == self.bytes(),
    {
        self.buf.as_slice()
    }
}

/// Whether the character is white space.
pub open spec fn is_space(c: char) -> bool {
    ||| '\u{9}' <= c && c <= '\u{d}'
    ||| c == ' '
    ||| c == '\u{85}'
    ||| c == '\u{a0}'
    ||| c == '\u{1680}'
    ||| '\u{2000}' <= c && c <= '\u{200a}'
    ||| c == '\u{2028}'
    ||| c == '\u{2029}'
    ||| c == '\u{202f}'
    ||| c == '\u{205f}'
    ||| c == '\u{3000}'
}

fn space(c: char) -> (b: bool)
    ensures
        b == is_space(c),
{
    ('\u{9}' <= c && c <= '\u{d}') || c == ' ' || c == '\u{85}' || c == '\u{a0}' || c == '\u{1680}'
        || ('\u{2000}' <= c && c <= '\u{200a}') || c == '\u{2028}' || c == '\u{2029}' || c
        == '\u{202f}' || c == '\u{205f}' || c == '\u{3000}'
}

/// The text without white space before it.
pub open spec fn trimmed_start(s: Seq<char>) -> Seq<char>
    decreases s.len(),
{
    if s.len() > 0 && is_space(s[0]) {
        trimmed_start(s.drop_first())
    } else {
        s
    }
}

/// The text without white space behind it.
pub open spec fn trimmed_end(s: Seq<char>) -> Seq<char>
    decreases s.len(),
{
    if s.len() > 0 && is_space(s.last()) {
        trimmed_end(s.drop_last())
    } else {
        s
    }
}

/// The text without white space before or behind it.
pub open spec fn trimmed(s: Seq<char>) -> Seq<char> {
    trimmed_end(trimmed_start(s))
}

proof fn lemma_trimmed_start(s: Seq<char>, n: int)
    requires
        0 <= n <= s.len(),
        forall|i: int| 0 <= i < n ==> is_space(#[trigger] s[i]),
        n < s.len() ==> !is_space(s[n]),
    ensures
        trimmed_start(s) == s.skip(n),
    decreases n,
{
    if n > 0 {
        let rest = s.drop_first();
        assert forall|i: int| 0 <= i < n - 1 implies is_space(#[trigger] rest[i]) by {
            assert(rest[i] == s[i + 1]);
        }
        assert(is_space(s[0]));
        lemma_trimmed_start(rest, n - 1);
        assert(rest.skip(n - 1) =~= s.skip(n));
    } else {
        assert(s.skip(0) =~= s);
    }
}

proof fn lemma_trimmed_end(s: Seq<char>, n: int)
    requires
        0 <= n <= s.len(),
        forall|i: int| n <= i < s.len() ==> is_space(#[trigger] s[i]),
        n > 0 ==> !is_space(s[n - 1]),
    ensures
        trimmed_end(s) == s.take(n),
    decreases s.len() - n,
{
    if n < s.len() {
        let rest = s.drop_last();
        assert(is_space(s[s.len() - 1]));
        lemma_trimmed_end(rest, n);
        assert(rest.take(n) =~= s.take(n));
    } else {
        assert(s.take(n) =~= s);
    }
}

/// The text without white space before or behind it.
fn trim(s: &Vec<char>) -> (r: Vec<char>)
    ensures
        r@ == trimmed(s@),
{
    let mut from: usize = 0;
    while from < s.len() && space(s[from])
        invariant
            from <= s@.len(),
            forall|i: int| 0 <= i < from ==> is_space(#[trigger] s@[i]),
        decreases s@.len() - from,
    {
        from = from + 1;
    }
    let ghost rest = s@.skip(from as int);
    proof {
        lemma_trimmed_start(s@, from as int);
    }
    let mut to: usize = s.len();
    while to > from && space(s[to - 1])
        invariant
            from <= to <= s@.len(),
            forall|i: int| to <= i < s@.len() ==> is_space(#[trigger] s@[i]),
        decreases to,
    {
        to = to - 1;
    }
    proof {
        assert forall|i: int| to - from <= i < rest.len() implies is_space(#[trigger] rest[i]) by {
            assert(rest[i] == s@[from + i]);
        }
        if to > from {
            assert(rest[to - from - 1] == s@[to - 1]);
        }
        lemma_trimmed_end(rest, to - from);
    }
    let mut r: Vec<char> = Vec::new();
    let mut i: usize = from;
    while i < to
        invariant
            from <= i <= to <= s@.len(),
            rest == s@.skip(from as int),
            r@ == rest.take(i - from),
        decreases to - i,
    {
        r.push(s[i]);
        assert(r@ =~= rest.take(i - from + 1));
        i = i + 1;
    }
    r
}

/// Why a number could not be read.
#[derive(Clone, Copy, Debug, PartialEq, Eq, Structural)]
pub enum NumberError {
    /// There is no text.
    Empty,
    /// There is something other than a digit.
    InvalidDigit,
    /// The number is too large.
    Overflow,
}

impl NumberError {
    /// What is said of it.
    pub open spec fn spec_text(self) -> Seq<char> {
        match self {
            NumberError::Empty => "cannot parse integer from empty string"@,
            NumberError::InvalidDigit => "invalid digit found in string"@,
            NumberError::Overflow => "number too large to fit in target type"@,
        }
    }

    /// What is said of it.
    pub fn text(self) -> (s: &'static str)
        ensures
            s@ == self.spec_text(),
    {
        match self {
            NumberError::Empty => "cannot parse integer from empty string",
            NumberError::InvalidDigit => "invalid digit found in string",
            NumberError::Overflow => "number too large to fit in target type",
        }
    }
}

/// The value of a decimal digit.
pub open spec fn digit_value(c: char) -> Option<int> {
    if '0' <= c && c <= '9' {
        Some(c as int - '0' as int)
    } else {
        None
    }
}

/// The number that the digits come to, read from the left: the first character that is no digit, or
/// that takes the number beyond the largest, decides how reading fails.
pub open spec fn digits_value(s: Seq<char>) -> Result<int, NumberError>
    decreases s.len(),
{
    if s.len() == 0 {
        Ok(0)
    } else {
        match digits_value(s.drop_last()) {
            Err(e) => Err(e),
            Ok(v) => match digit_value(s.last()) {
                None => Err(NumberError::InvalidDigit),
                Some(d) => if 10 * v + d > u32::MAX {
                    Err(NumberError::Overflow)
                } else {
                    Ok(10 * v + d)
                },
            },
        }
    }
}

/// The number that the text comes to: digits, with a plus sign before them or not.
pub open spec fn number(s: Seq<char>) -> Result<int, NumberError> {
    if s.len() == 0 {
        Err(NumberError::Empty)
    } else if s[0] == '+' && s.len() > 1 {
        digits_value(s.skip(1))
    } else {
        digits_value(s)
    }
}

/// Reads a number.
fn parse_number(s: &Vec<char>) -> (r: Result<u32, NumberError>)
    ensures
        number(s@) == (match r {
            Ok(n) => Ok(n as int),
            Err(e) => Err(e),
        }),
{
    if s.len() == 0 {
        return Err(NumberError::Empty);
    }
    let from: usize = if s[0] == '+' && s.len() > 1 {
        1
    } else {
        0
    };
    let ghost digits = s@.skip(from as int);
    assert(s@.skip(0) =~= s@);
    let mut v: u64 = 0;
    let mut i: usize = from;
    assert(digits.take(0) =~= Seq::<char>::empty());
    while i < s.len()
        invariant
            from <= i <= s@.len(),
            digits == s@.skip(from as int),
            digits_value(digits.take(i - from)) == Ok::<int, NumberError>(v as int),
            v <= u32::MAX,
            number(s@) == digits_value(digits),
        decreases s@.len() - i,
    {
        let c: char = s[i];
        let ghost next = digits.take(i - from + 1);
        proof {
            assert(next.drop_last() =~= digits.take(i - from));
            assert(next.last() == c);
        }
        if !('0' <= c && c <= '9') {
            proof {
                assert(digits_value(next) is Err);
                lemma_failure_stays(digits, i - from + 1);
            }
            return Err(NumberError::InvalidDigit);
        }
        let d: u64 = (c as u32 - '0' as u32) as u64;
        if 10 * v + d > 0xffff_ffff {
            proof {
                assert(digits_value(next) is Err);
                lemma_failure_stays(digits, i - from + 1);
            }
            return Err(NumberError::Overflow);
        }
        v = 10 * v + d;
        i = i + 1;
    }
    assert(digits.take(i - from) =~= digits);
    Ok(v as u32)
}

/// Reading that fails on the first characters fails in the same way on all of them.
proof fn lemma_failure_stays(s: Seq<char>, n: int)
    requires
        0 <= n <= s.len(),
        digits_value(s.take(n)) is Err,
    ensures
        digits_value(s) == digits_value(s.take(n)),
    decreases s.len() - n,
{
    if n < s.len() {
        assert(s.take(n + 1).drop_last() =~= s.take(n));
        lemma_failure_stays(s, n + 1);
    } else {
        assert(s.take(n) =~= s);
    }
}

/// The first place of an `x` of either case, or the length of the text.
pub open spec fn first_cross(s: Seq<char>) -> int
    decreases s.len(),
{
    if s.len() == 0 || s[0] == 'x' || s[0] == 'X' {
        0
    } else {
        1 + first_cross(s.drop_first())
    }
}

proof fn lemma_first_cross(s: Seq<char>, n: int)
    requires
        0 <= n <= s.len(),
        forall|i: int| 0 <= i < n ==> #[trigger] s[i] != 'x' && s[i] != 'X',
        n < s.len() ==> s[n] == 'x' || s[n] == 'X',
    ensures
        first_cross(s) == n,
    decreases n,
{
    if n > 0 {
        let rest = s.drop_first();
        assert(s[0] != 'x' && s[0] != 'X');
        assert forall|i: int| 0 <= i < n - 1 implies #[trigger] rest[i] != 'x' && rest[i] != 'X' by {
            assert(rest[i] == s[i + 1]);
        }
        lemma_first_cross(rest, n - 1);
    }
}

/// What is wrong with a header line, if anything, or the size that it gives.
pub ghost enum Header {
    /// There is no line.
    Missing,
    /// The line (without white space around it) has no `x`.
    Malformed(Seq<char>),
    /// What stands before the `x` is no number.
    BadWidth(Seq<char>, NumberError),
    /// What stands behind the `x` is no number.
    BadHeight(Seq<char>, NumberError),
    /// One of the numbers is zero.
    Zero(nat, nat),
    /// The width and height.
    Size(nat, nat),
}

/// What a header line says: two numbers around an `x` of either case, white space aside.
pub open spec fn header(line: Seq<char>) -> Header {
    if line.len() == 0 {
        Header::Missing
    } else {
        let text = trimmed(line);
        let at = first_cross(text);
        if at >= text.len() {
            Header::Malformed(text)
        } else {
            let (w, h) = (text.take(at), text.skip(at + 1));
            match number(trimmed(w)) {
                Err(e) => Header::BadWidth(w, e),
                Ok(width) => match number(trimmed(h)) {
                    Err(e) => Header::BadHeight(h, e),
                    Ok(height) => if width == 0 || height == 0 {
                        Header::Zero(width as nat, height as nat)
                    } else {
                        Header::Size(width as nat, height as nat)
                    },
                },
            }
        }
    }
}

/// How the debug form of a text reads: in quotes, with escapes.
pub uninterp spec fn quoted(text: Seq<char>) -> Seq<char>;

/// `<str as Debug>::fmt`: the text in quotes, with escapes for what cannot be shown as it is. Which
/// characters are escaped, and how, is not stated.
#[verifier::external_body]
fn quote(text: &str) -> (s: String)
    ensures
        s@ == quoted(text@),
{
    format!("{text:?}")
}

/// The characters, as a text.
fn text_of(chars: &Vec<char>) -> (s: String)
    ensures
        s@ == chars@,
{
    let mut s = String::new();
    let mut i: usize = 0;
    while i < chars.len()
        invariant
            i <= chars@.len(),
            s@ == chars@.take(i as int),
        decreases chars@.len() - i,
    {
        s.push(chars[i]);
        assert(s@ =~= chars@.take(i + 1));
        i = i + 1;
    }
    assert(s@ =~= chars@);
    s
}

/// The characters from `from` up to but not including `to`.
fn slice_of(chars: &Vec<char>, from: usize, to: usize) -> (r: Vec<char>)
    requires
        from <= to <= chars@.len(),
    ensures
        r@ == chars@.subrange(from as int, to as int),
{
    let mut r: Vec<char> = Vec::new();
    let mut i: usize = from;
    while i < to
        invariant
            from <= i <= to <= chars@.len(),
            r@ == chars@.subrange(from as int, i as int),
        decreases to - i,
    {
        r.push(chars[i]);
        assert(r@ =~= chars@.subrange(from as int, i + 1));
        i = i + 1;
    }
    r
}

/// The characters of a text.
fn chars_of(s: &str) -> (chars: Vec<char>)
    ensures
        chars@ == s@,
{
    let mut chars: Vec<char> = Vec::new();
    let n: usize = s.unicode_len();
    let mut i: usize = 0;
    while i < n
        invariant
            n == s@.len(),
            i <= n,
            chars@ == s@.take(i as int),
        decreases n - i,
    {
        chars.push(s.get_char(i));
        assert(chars@ =~= s@.take(i + 1));
        i = i + 1;
    }
    assert(chars@ =~= s@);
    chars
}

/// Parses the `WIDTHxHEIGHT` header line; an empty line stands for an empty stream.
pub fn parse_header(line: &str) -> (r: Result<(u32, u32), Complaint>)
    ensures
        match header(line@) {
            Header::Size(w, h) => r is Ok && r->Ok_0.0 == w && r->Ok_0.1 == h,
            Header::Missing => r is Err && r->Err_0.cause is None && r->Err_0.what@
                == "empty --stream input: expected a `WxH` header line (e.g. `320x240`)"@,
            Header::Malformed(text) => r is Err && r->Err_0.cause is None && r->Err_0.what@
                == "malformed --stream header "@ + quoted(text) + ": expected `WxH`"@,
            Header::BadWidth(w, e) => r is Err && r->Err_0.what@ == "invalid stream width "@ + quoted(
                w,
            ) && r->Err_0.cause is Some && r->Err_0.cause->0@ == e.spec_text(),
            Header::BadHeight(h, e) => r is Err && r->Err_0.what@ == "invalid stream height "@
                + quoted(h) && r->Err_0.cause is Some && r->Err_0.cause->0@ == e.spec_text(),
            Header::Zero(w, h) => r is Err && r->Err_0.cause is None && r->Err_0.what@
                == "stream dimensions must be non-zero (got "@ + decimal(w) + "x"@ + decimal(h)
                + ")"@,
        },
{
    let chars = chars_of(line);
    if chars.len() == 0 {
        return Err(
            Complaint::new(
                "empty --stream input: expected a `WxH` header line (e.g. `320x240`)",
            ),
        );
    }
    let text = trim(&chars);
    let mut at: usize = 0;
    while at < text.len() && text[at] != 'x' && text[at] != 'X'
        invariant
            at <= text@.len(),
            forall|i: int| 0 <= i < at ==> #[trigger] text@[i] != 'x' && text@[i] != 'X',
        decreases text@.len() - at,
    {
        at = at + 1;
    }
    proof {
        lemma_first_cross(text@, at as int);
    }
    if at >= text.len() {
        let mut what = joined(
            "malformed --stream header ",
            quote(text_of(&text).as_str()).as_str(),
        );
        what.append(": expected `WxH`");
        return Err(Complaint { what, cause: None });
    }
    let w = slice_of(&text, 0, at);
    let h = slice_of(&text, at + 1, text.len());
    assert(w@ =~= text@.take(at as int));
    assert(h@ =~= text@.skip(at + 1));
    let width: u32 = match parse_number(&trim(&w)) {
        Ok(n) => n,
        Err(e) => {
            return Err(
                Complaint {
                    what: joined(
                        "invalid stream width ",
                        quote(text_of(&w).as_str()).as_str(),
                    ),
                    cause: Some(e.text().to_owned()),
                },
            );
        },
    };
    let height: u32 = match parse_number(&trim(&h)) {
        Ok(n) => n,
        Err(e) => {
            return Err(
                Complaint {
                    what: joined(
                        "invalid stream height ",
                        quote(text_of(&h).as_str()).as_str(),
                    ),
                    cause: Some(e.text().to_owned()),
                },
            );
        },
    };
    if width == 0 || height == 0 {
        let mut what = "stream dimensions must be non-zero (got ".to_owned();
        push_decimal(&mut what, width as u64);
        what.append("x");
        push_decimal(&mut what, height as u64);
        what.append(")");
        return Err(Complaint { what, cause: None });
    }
    Ok((width, height))
}

/// The digits of a number read back as the number.
proof fn lemma_decimal_reads_back(n: nat)
    requires
        n <= u32::MAX,
    ensures
        decimal(n).len() > 0,
        forall|i: int| 0 <= i < decimal(n).len() ==> digit_value(#[trigger] decimal(n)[i]) is Some,
        digits_value(decimal(n)) == Ok::<int, NumberError>(n as int),
    decreases n,
{
    if n < 10 {
        let s = decimal(n);
        assert(s.drop_last() =~= Seq::<char>::empty());
        reveal_with_fuel(digits_value, 2);
    } else {
        lemma_decimal_reads_back(n / 10);
        let s = decimal(n);
        assert(s.drop_last() =~= decimal(n / 10));
        assert forall|i: int| 0 <= i < s.len() implies digit_value(#[trigger] s[i]) is Some by {
            if i < s.len() - 1 {
                assert(s[i] == decimal(n / 10)[i]);
            }
        }
    }
}

/// A text that starts and ends with digits has no white space around it.
proof fn lemma_trim_keeps_digits(s: Seq<char>)
    requires
        s.len() > 0,
        digit_value(s[0]) is Some,
        digit_value(s.last()) is Some,
    ensures
        trimmed(s) == s,
{
}

/// A header that was written as a width, an `x`, a height and a newline reads back as that size.
pub proof fn law_written_header_reads_back(w: nat, h: nat)
    requires
        0 < w <= u32::MAX,
        0 < h <= u32::MAX,
    ensures
        header(decimal(w).push('x') + decimal(h).push('\n')) == Header::Size(w, h),
{
    let line = decimal(w).push('x') + decimal(h).push('\n');
    let text = decimal(w).push('x') + decimal(h);
    lemma_decimal_reads_back(w);
    lemma_decimal_reads_back(h);
    let dw = decimal(w);
    let dh = decimal(h);
    assert(digit_value(dw[0]) is Some && digit_value(dh[0]) is Some);
    assert(digit_value(dw[dw.len() - 1]) is Some && digit_value(dh[dh.len() - 1]) is Some);
    assert(line[0] == dw[0]);
    assert(trimmed_start(line) == line);
    assert(line.drop_last() =~= text);
    assert(text.last() == dh[dh.len() - 1]);
    assert(trimmed_end(text) == text);
    assert(trimmed(line) == text) by {
        assert(is_space(line.last()));
    }
    assert forall|i: int| 0 <= i < dw.len() implies #[trigger] text[i] != 'x' && text[i] != 'X' by {
        assert(text[i] == dw[i]);
    }
    lemma_first_cross(text, dw.len() as int);
    assert(text.take(dw.len() as int) =~= dw);
    assert(text.skip(dw.len() as int + 1) =~= dh);
    lemma_trim_keeps_digits(dw);
    lemma_trim_keeps_digits(dh);
}

/// The color of the pixel of a raw frame at the same share of its width and height as the pixel
/// `(x, y)` has of the target's; black where the frame is too short to have it.
pub open spec fn sampled(src: Seq<u8>, sw: int, sh: int, tw: int, th: int, x: int, y: int) -> Color {
    let i = 3 * ((y * sh / th) * sw + x * sw / tw);
    if i + 3 <= src.len() {
        Color::spec_from_u8(src[i], src[i + 1], src[i + 2], 255)
    } else {
        Color::black()
    }
}

/// Whether every pixel of `after` was sampled from the raw frame.
pub open spec fn resampled_into(src: Seq<u8>, sw: int, sh: int, before: Raster, after: Raster) -> bool {
    &&& after.wf()
    &&& after.same_shape(before)
    &&& forall|x: int, y: int|
        #![trigger after.pixel(x, y)]
        before.contains(x, y) ==> after.pixel(x, y) == sampled(
            src,
            sw,
            sh,
            before.width as int,
            before.height as int,
            x,
            y,
        )
}

/// Resamples a raw RGB24 frame into `target` with nearest-neighbour sampling. No-op where either has
/// no pixels.
pub fn blit_rgb24(src: &[u8], src_w: u32, src_h: u32, target: &mut Framebuffer)
    requires
        old(target).wf(),
        3 * (src_w * src_h) <= usize::MAX,
        src_w * old(target)@.width <= usize::MAX,
        src_h * old(target)@.height <= usize::MAX,
    ensures
        if src_w == 0 || src_h == 0 {
            final(target)@ == old(target)@
        } else {
            resampled_into(src@, src_w as int, src_h as int, old(target)@, final(target)@)
        },
{
    let ghost before = target@;
    let tw: usize = target.width();
    let th: usize = target.height();
    if tw == 0 || th == 0 || src_w == 0 || src_h == 0 {
        return;
    }
    let sw: usize = src_w as usize;
    let sh: usize = src_h as usize;
    let len: usize = src.len();
    let mut ty: usize = 0;
    while ty < th
        invariant
            before.wf(),
            tw == before.width,
            th == before.height,
            0 < tw,
            0 < sw,
            0 < sh,
            3 * (sw * sh) <= usize::MAX,
            sw * tw <= usize::MAX,
            sh * th <= usize::MAX,
            len == src@.len(),
            ty <= th,
            target@.wf(),
            target@.same_shape(before),
            forall|x: int, y: int|
                #![trigger target@.pixel(x, y)]
                before.contains(x, y) && y < ty ==> target@.pixel(x, y) == sampled(
                    src@,
                    sw as int,
                    sh as int,
                    tw as int,
                    th as int,
                    x,
                    y,
                ),
        decreases th - ty,
    {
        proof {
            lemma_share_in_range(ty as int, th as int, sh as int);
        }
        let sy: usize = ty * sh / th;
        let mut tx: usize = 0;
        while tx < tw
            invariant
                before.wf(),
                tw == before.width,
                th == before.height,
                0 < tw,
                0 < sw,
                3 * (sw * sh) <= usize::MAX,
                sw * tw <= usize::MAX,
                len == src@.len(),
                ty < th,
                sy == ty * sh as int / th as int,
                sy < sh,
                tx <= tw,
                target@.wf(),
                target@.same_shape(before),
                forall|x: int, y: int|
                    #![trigger target@.pixel(x, y)]
                    before.contains(x, y) && (y < ty || (y == ty && x < tx)) ==> target@.pixel(x, y)
                        == sampled(
                        src@,
                        sw as int,
                        sh as int,
                        tw as int,
                        th as int,
                        x,
                        y,
                    ),
            decreases tw - tx,
        {
            let ghost mid = target@;
            proof {
                lemma_share_in_range(tx as int, tw as int, sw as int);
            }
            let sx: usize = tx * sw / tw;
            proof {
                lemma_index_in_plane(sx as int, sy as int, sw as int, sh as int);
            }
            let i: usize = (sy * sw + sx) * BYTES_PER_PIXEL;
            let color = if i < len && len - i >= BYTES_PER_PIXEL {
                Color::from_u8(src[i], src[i + 1], src[i + 2], 255)
            } else {
                Color::black()
            };
            target.set(tx, ty, color);
            proof {
                lemma_index_in_plane(tx as int, ty as int, tw as int, th as int);
                assert(color == sampled(
                    src@,
                    sw as int,
                    sh as int,
                    tw as int,
                    th as int,
                    tx as int,
                    ty as int,
                ));
                assert forall|x: int, y: int|
                    #![trigger target@.pixel(x, y)]
                    before.contains(x, y) && (y < ty || (y == ty && x < tx + 1)) implies target@.pixel(
                    x,
                    y,
                ) == sampled(src@, sw as int, sh as int, tw as int, th as int, x, y) by {
                    lemma_index_in_plane(x, y, tw as int, th as int);
                    lemma_index_is_injective(x, y, tx as int, ty as int, tw as int);
                    assert(mid.pixel(x, y) == mid.color[y * tw + x]);
                }
            }
            tx = tx + 1;
        }
        ty = ty + 1;
    }
}

/// Where a stream of frames stands.
pub ghost struct StreamView {
    /// The width of a frame in pixels.
    pub width: u32,
    /// The height of a frame in pixels.
    pub height: u32,
    /// The frames per second, or zero for as fast as they come.
    pub rate: u32,
    /// How many complete frames have come.
    pub count: nat,
    /// The bytes so far of the frame that is being read.
    pub pending: Seq<u8>,
}

impl StreamView {
    /// How many bytes a frame has: three per pixel.
    pub open spec fn frame_len(self) -> nat {
        3 * (self.width * self.height) as nat
    }

    /// Whether the frame that is being read has all its bytes.
    pub open spec fn complete(self) -> bool {
        self.pending.len() == self.frame_len()
    }

    /// The stream once more bytes have come.
    pub open spec fn fed(self, chunk: Seq<u8>) -> StreamView {
        StreamView { pending: self.pending + chunk, ..self }
    }

    /// The stream once the frame was shown, if it was complete.
    pub open spec fn shown(self) -> StreamView {
        if self.complete() {
            StreamView { count: self.count + 1, pending: Seq::empty(), ..self }
        } else {
            self
        }
    }

    /// Whether `after` is `before` with the frame that has come shown in it.
    pub open spec fn paints(self, before: Raster, after: Raster) -> bool {
        resampled_into(self.pending, self.width as int, self.height as int, before, after)
    }

    /// The stream once all the chunks have come, where every frame is shown when it is complete.
    pub open spec fn after(self, chunks: Seq<Seq<u8>>) -> StreamView
        decreases chunks.len(),
    {
        if chunks.len() == 0 {
            self
        } else {
            self.after(chunks.drop_last()).fed(chunks.last()).shown()
        }
    }

    /// Whether no chunk holds more bytes than the frame still wants when it comes.
    pub open spec fn takes(self, chunks: Seq<Seq<u8>>) -> bool
        decreases chunks.len(),
    {
        chunks.len() > 0 ==> {
            &&& self.takes(chunks.drop_last())
            &&& self.after(chunks.drop_last()).pending.len() + chunks.last().len()
                <= self.frame_len()
        }
    }
}

/// The bytes of all chunks, one after the other.
pub open spec fn all_bytes(chunks: Seq<Seq<u8>>) -> Seq<u8>
    decreases chunks.len(),
{
    if chunks.len() == 0 {
        Seq::empty()
    } else {
        all_bytes(chunks.drop_last()) + chunks.last()
    }
}

/// However the bytes of a stream are cut into chunks, they make up the same frames: as many as fit
/// into them, one directly after another, and what is left over is the start of the next.
pub proof fn law_chunks_do_not_matter(v: StreamView, chunks: Seq<Seq<u8>>)
    requires
        v.frame_len() > 0,
        v.pending.len() == 0,
        v.takes(chunks),
    ensures
        ({
            let r = v.after(chunks);
            let stream = all_bytes(chunks);
            &&& r.count == v.count + stream.len() / v.frame_len()
            &&& r.pending == stream.skip((stream.len() / v.frame_len() * v.frame_len()) as int)
            &&& r.pending.len() == stream.len() % v.frame_len()
            &&& r == (StreamView { count: r.count, pending: r.pending, ..v })
        }),
    decreases chunks.len(),
{
    let n = v.frame_len() as int;
    let stream = all_bytes(chunks);
    if chunks.len() == 0 {
        vstd::arithmetic::div_mod::lemma_div_basics(n);
        assert(0int % n == 0) by {
            vstd::arithmetic::div_mod::lemma_small_mod(0, n as nat);
        }
        assert(0int / n == 0);
        assert(0 * n == 0);
        assert(stream.skip(0) =~= Seq::<u8>::empty());
        assert(v.pending =~= Seq::<u8>::empty());
    } else {
        let before = v.after(chunks.drop_last());
        let past = all_bytes(chunks.drop_last());
        let chunk = chunks.last();
        law_chunks_do_not_matter(v, chunks.drop_last());
        let q = past.len() as int / n;
        let rest = past.len() as int % n;
        vstd::arithmetic::div_mod::lemma_fundamental_div_mod(past.len() as int, n);
        vstd::arithmetic::mul::lemma_mul_is_commutative(n, q);
        assert(past.len() == q * n + rest);
        assert(stream.len() == q * n + (rest + chunk.len()));
        assert(before.pending.len() == rest);
        let fed = before.fed(chunk);
        assert(fed.pending =~= stream.skip(q * n)) by {
            vstd::arithmetic::mul::lemma_mul_nonnegative(q, n);
            assert(stream.skip(q * n).len() == rest + chunk.len());
            assert forall|i: int| 0 <= i < fed.pending.len() implies fed.pending[i]
                == stream.skip(q * n)[i] by {
                if i < rest {
                    assert(before.pending[i] == past[q * n + i]);
                }
            }
        }
        if fed.complete() {
            vstd::arithmetic::mul::lemma_mul_is_distributive_add_other_way(n, q, 1);
            assert(stream.len() == (q + 1) * n);
            vstd::arithmetic::div_mod::lemma_fundamental_div_mod_converse(
                stream.len() as int,
                n,
                q + 1,
                0,
            );
            assert(stream.skip((q + 1) * n) =~= Seq::<u8>::empty());
        } else {
            vstd::arithmetic::div_mod::lemma_fundamental_div_mod_converse(
                stream.len() as int,
                n,
                q,
                rest + chunk.len(),
            );
        }
    }
}

impl StreamView {
    /// How many of the bytes that are left the frame takes: as many as it wants, or as there are.
    pub open spec fn bite(self, left: Seq<u8>) -> int {
        let wanted = self.frame_len() - self.pending.len();
        if wanted <= left.len() {
            wanted as int
        } else {
            left.len() as int
        }
    }

    /// The stream once its frame has taken what it can of the bytes that are left.
    pub open spec fn reads(self, left: Seq<u8>) -> StreamView {
        self.fed(left.take(self.bite(left)))
    }

    /// The stream and the bytes that are left once it was asked for `n` frames, where each time it
    /// reads on to the end of its frame, or of the input.
    pub open spec fn asked(self, input: Seq<u8>, n: nat) -> (StreamView, Seq<u8>)
        decreases n,
    {
        if n == 0 {
            (self, input)
        } else {
            let (s, left) = self.asked(input, (n - 1) as nat);
            (s.reads(left).shown(), left.skip(s.bite(left)))
        }
    }
}

/// A stream that holds some complete frames, and perhaps the start of another, gives exactly those
/// frames, in order: asked for a frame once more, or however often, it gives none, and a partial last
/// frame is neither shown nor counted.
pub proof fn law_truncated_stream_ends_cleanly(v: StreamView, input: Seq<u8>, n: nat)
    requires
        v.frame_len() > 0,
        v.pending.len() == 0,
    ensures
        ({
            let (s, left) = v.asked(input, n);
            let whole = input.len() / v.frame_len();
            let size = v.frame_len() as int;
            &&& s.frame_len() == v.frame_len()
            &&& s.count == v.count + if n < whole {
                n
            } else {
                whole
            }
            &&& s.reads(left).complete() <==> n < whole
            &&& n < whole ==> s.reads(left).pending == input.subrange(n * size, n * size + size)
            &&& n <= whole ==> s.pending.len() == 0 && left == input.skip(n * size)
            &&& n > whole ==> left.len() == 0 && s.pending == input.skip(whole * size)
        }),
    decreases n,
{
    let size = v.frame_len() as int;
    let whole = (input.len() / v.frame_len()) as int;
    let rest = input.len() as int % size;
    vstd::arithmetic::div_mod::lemma_fundamental_div_mod(input.len() as int, size);
    vstd::arithmetic::mul::lemma_mul_is_commutative(size, whole);
    assert(input.len() == whole * size + rest);
    assert(0 <= rest < size);
    vstd::arithmetic::mul::lemma_mul_nonnegative(whole, size);
    let (s, left) = v.asked(input, n);
    if n == 0 {
        assert(0 * size == 0);
        assert(left =~= input.skip(0));
    } else {
        law_truncated_stream_ends_cleanly(v, input, (n - 1) as nat);
        let (b, before) = v.asked(input, (n - 1) as nat);
        vstd::arithmetic::mul::lemma_mul_is_distributive_add_other_way(size, n - 1, 1);
        assert(n * size == (n - 1) * size + size);
        vstd::arithmetic::mul::lemma_mul_nonnegative(n - 1, size);
        if n - 1 < whole {
            vstd::arithmetic::mul::lemma_mul_inequality(n as int, whole, size);
            assert(before.len() == input.len() - (n - 1) * size);
            assert(b.bite(before) == size);
            assert(left =~= input.skip(n * size));
        } else {
            if n - 1 == whole {
                assert(before.len() == rest);
                assert(b.reads(before).pending =~= input.skip(whole * size));
            } else {
                assert(before.take(0) =~= Seq::<u8>::empty());
                assert(b.reads(before).pending =~= b.pending);
            }
            assert(s == b.reads(before));
            assert(left.len() == 0);
        }
    }
    if n < whole {
        vstd::arithmetic::mul::lemma_mul_inequality((n + 1) as int, whole, size);
        vstd::arithmetic::mul::lemma_mul_is_distributive_add_other_way(size, n as int, 1);
        vstd::arithmetic::mul::lemma_mul_nonnegative(n as int, size);
        assert(left.len() >= size);
        assert(s.reads(left).pending =~= input.subrange(n * size, n * size + size));
    } else if n == whole {
        assert(left.len() == rest);
    }
}

/// Once the input has ended within a frame or between two, the stream stays as it is, however often
/// it is asked for a frame.
pub proof fn law_ended_stream_stays_ended(v: StreamView)
    requires
        !v.complete(),
    ensures
        v.shown() == v,
        !v.shown().complete(),
{
}

/// A stream of raw frames: its size, and how many complete frames have come.
#[derive(Debug)]
pub struct StdinFrameSource {
    width: u32,
    height: u32,
    fps: u32,
    frames_read: u64,
    reader: FrameReader,
}

impl View for StdinFrameSource {
    type V = StreamView;

    closed spec fn view(&self) -> StreamView {
        StreamView {
            width: self.width,
            height: self.height,
            rate: self.fps,
            count: self.frames_read as nat,
            pending: self.reader.bytes(),
        }
    }
}

impl StdinFrameSource {
    /// Whether the frame that is being read can be counted and has no more bytes than it wants.
    pub closed spec fn wf(&self) -> bool {
        &&& self@.frame_len() <= usize::MAX
        &&& self.reader.wf()
        &&& self.reader.size() == self@.frame_len()
    }

    /// Starts a stream of frames of that size; `fps` (0 = unpaced) drives the delay between them.
    pub fn new(width: u32, height: u32, fps: u32) -> (s: StdinFrameSource)
        requires
            3 * (width * height) <= usize::MAX,
        ensures
            s.wf(),
            s@ == (StreamView { width, height, rate: fps, count: 0, pending: Seq::empty() }),
    {
        assert(0 <= width * height) by (nonlinear_arith);
        let frame_bytes: usize = width as usize * height as usize * BYTES_PER_PIXEL;
        StdinFrameSource {
            width,
            height,
            fps,
            frames_read: 0,
            reader: FrameReader::new(frame_bytes),
        }
    }

    /// The declared frame dimensions in pixels.
    pub fn dimensions(&self) -> (d: (u32, u32))
        ensures
            d == (self@.width, self@.height),
    {
        (self.width, self.height)
    }

    /// How many complete frames have been produced so far.
    pub fn frames_read(&self) -> (n: u64)
        ensures
            n == self@.count,
    {
        self.frames_read
    }

    /// The frames per second that the delay follows, or `None` for as fast as they come.
    pub fn pace(&self) -> (p: Option<u32>)
        ensures
            p == (if self@.rate > 0 {
                Some(self@.rate)
            } else {
                None
            }),
    {
        if self.fps > 0 {
            Some(self.fps)
        } else {
            None
        }
    }

    /// How many bytes of the frame are missing.
    pub fn wanted(&self) -> (n: usize)
        requires
            self.wf(),
        ensures
            n == self@.frame_len() - self@.pending.len(),
    {
        self.reader.wanted()
    }

    /// Takes in more bytes of the frame.
    pub fn feed(&mut self, chunk: &[u8])
        requires
            old(self).wf(),
            old(self)@.pending.len() + chunk@.len() <= old(self)@.frame_len(),
        ensures
            final(self).wf(),
            final(self)@ == old(self)@.fed(chunk@),
    {
        self.reader.feed(chunk);
    }

    /// Shows the frame once it is complete, and starts the next: `Some(true)`. `Some(false)` where the
    /// input has ended, cleanly or in the middle of the frame; `None` where more bytes are wanted.
    pub fn next_frame(&mut self, ended: bool, target: &mut Framebuffer) -> (r: Option<bool>)
        requires
            old(self).wf(),
            old(self)@.count < u64::MAX,
            old(target).wf(),
            old(self)@.width > 0,
            old(self)@.height > 0,
            old(self)@.width * old(target)@.width <= usize::MAX,
            old(self)@.height * old(target)@.height <= usize::MAX,
        ensures
            final(self).wf(),
            final(self)@ == old(self)@.shown(),
            r == (if old(self)@.complete() {
                Some(true)
            } else if ended {
                Some(false)
            } else {
                None
            }),
            if old(self)@.complete() {
                old(self)@.paints(old(target)@, final(target)@)
            } else {
                *final(target) == *old(target)
            },
    {
        assert(self.width * self.height > 0) by (nonlinear_arith)
            requires
                self.width > 0,
                self.height > 0,
        ;
        match self.reader.status(ended) {
            Some(FrameStatus::Complete) => {
                blit_rgb24(self.reader.data(), self.width, self.height, target);
                self.frames_read = self.frames_read + 1;
                self.reader.restart();
                Some(true)
            },
            Some(_) => Some(false),
            None => None,
        }
    }
}

/// A frame shown at its own size is shown exactly: the pixel in column `x` and row `y`, counted from the
/// top left, has as its red, green and blue the three bytes of the frame's pixel there, and is opaque.
pub proof fn law_frame_at_its_own_size_is_shown_exactly(
    src: Seq<u8>,
    before: Raster,
    after: Raster,
    x: int,
    y: int,
)
    requires
        before.wf(),
        resampled_into(src, before.width as int, before.height as int, before, after),
        src.len() == 3 * (before.width * before.height),
        before.contains(x, y),
    ensures
        ({
            let i = 3 * (y * before.width + x);
            &&& 0 <= i && i + 3 <= src.len()
            &&& after.color[y * before.width + x] == Color::spec_from_u8(
                src[i],
                src[i + 1],
                src[i + 2],
                255,
            )
        }),
{
    lemma_index_in_plane(x, y, before.width as int, before.height as int);
    lemma_share_of_same_length(x, before.width as int);
    lemma_share_of_same_length(y, before.height as int);
    assert(after.pixel(x, y) == after.color[y * before.width + x]);
}

/// At any size, every pixel shows the pixel of the frame at the same share of the way from the left and
/// from the top. So columns and rows keep their order, and the first of each comes from the first.
pub proof fn law_pixels_come_from_the_same_share(
    src: Seq<u8>,
    sw: int,
    sh: int,
    before: Raster,
    after: Raster,
    x: int,
    y: int,
)
    requires
        before.wf(),
        0 < sw,
        0 < sh,
        src.len() == 3 * (sw * sh),
        resampled_into(src, sw, sh, before, after),
        before.contains(x, y),
    ensures
        exists|sx: int, sy: int|
            #![trigger src[3 * (sy * sw + sx)]]
            {
                &&& 0 <= sx < sw
                &&& 0 <= sy < sh
                &&& sx * before.width <= x * sw < (sx + 1) * before.width
                &&& sy * before.height <= y * sh < (sy + 1) * before.height
                &&& after.color[y * before.width + x] == Color::spec_from_u8(
                    src[3 * (sy * sw + sx)],
                    src[3 * (sy * sw + sx) + 1],
                    src[3 * (sy * sw + sx) + 2],
                    255,
                )
            },
{
    let sx = x * sw / before.width as int;
    let sy = y * sh / before.height as int;
    lemma_share_spans(x, before.width as int, sw);
    lemma_share_spans(y, before.height as int, sh);
    lemma_index_in_plane(sx, sy, sw, sh);
    assert(after.pixel(x, y) == after.color[y * before.width + x]);
    let b = src[3 * (sy * sw + sx)];
}

/// A pixel that a frame is too short to have is black.
pub proof fn law_missing_pixels_are_black(
    src: Seq<u8>,
    before: Raster,
    after: Raster,
    x: int,
    y: int,
)
    requires
        before.wf(),
        resampled_into(src, before.width as int, before.height as int, before, after),
        before.contains(x, y),
        src.len() < 3 * (y * before.width + x) + 3,
    ensures
        after.color[y * before.width + x] == Color::black(),
{
    lemma_share_of_same_length(x, before.width as int);
    lemma_share_of_same_length(y, before.height as int);
    assert(after.pixel(x, y) == after.color[y * before.width + x]);
}

/// Trimming takes away white space alone, all there is at either end. Where the rest starts and ends is
/// returned.
pub proof fn law_trimming_takes_only_space(s: Seq<char>) -> (ends: (int, int))
    ensures
        0 <= ends.0 <= ends.1 <= s.len(),
        trimmed(s) == s.subrange(ends.0, ends.1),
        forall|i: int| 0 <= i < ends.0 || ends.1 <= i < s.len() ==> is_space(#[trigger] s[i]),
        ends.0 < ends.1 ==> !is_space(s[ends.0]) && !is_space(s[ends.1 - 1]),
{
    let from = lemma_start_of_rest(s);
    let rest = s.skip(from);
    let to = lemma_end_of_rest(rest);
    assert(trimmed(s) =~= s.subrange(from, from + to));
    assert forall|i: int| 0 <= i < from || from + to <= i < s.len() implies is_space(
        #[trigger] s[i],
    ) by {
        if i >= from {
            assert(s[i] == rest[i - from]);
        }
    }
    if to > 0 {
        assert(s[from + to - 1] == rest[to - 1]);
    }
    (from, from + to)
}

proof fn lemma_start_of_rest(s: Seq<char>) -> (n: int)
    ensures
        0 <= n <= s.len(),
        trimmed_start(s) == s.skip(n),
        forall|i: int| 0 <= i < n ==> is_space(#[trigger] s[i]),
        n < s.len() ==> !is_space(s[n]),
    decreases s.len(),
{
    if s.len() > 0 && is_space(s[0]) {
        let rest = s.drop_first();
        let n = lemma_start_of_rest(rest);
        assert(s.skip(n + 1) =~= rest.skip(n));
        assert forall|i: int| 0 <= i < n + 1 implies is_space(#[trigger] s[i]) by {
            if i > 0 {
                assert(s[i] == rest[i - 1]);
            }
        }
        if n + 1 < s.len() {
            assert(s[n + 1] == rest[n]);
        }
        n + 1
    } else {
        assert(s.skip(0) =~= s);
        0
    }
}

proof fn lemma_end_of_rest(s: Seq<char>) -> (n: int)
    ensures
        0 <= n <= s.len(),
        trimmed_end(s) == s.take(n),
        forall|i: int| n <= i < s.len() ==> is_space(#[trigger] s[i]),
        n > 0 ==> !is_space(s[n - 1]),
    decreases s.len(),
{
    if s.len() > 0 && is_space(s.last()) {
        let rest = s.drop_last();
        let n = lemma_end_of_rest(rest);
        assert(s.take(n) =~= rest.take(n));
        assert forall|i: int| n <= i < s.len() implies is_space(#[trigger] s[i]) by {
            if i < rest.len() {
                assert(s[i] == rest[i]);
            }
        }
        n
    } else {
        assert(s.take(s.len() as int) =~= s);
        s.len() as int
    }
}

/// A frame of a stream that is shown on as many columns as it is wide, and rows as it is high, fills them
/// with its bytes in the order in which they came: three to a pixel, and `width` pixels to a row.
pub proof fn law_streamed_frame_fills_its_rows(
    v: StreamView,
    before: Raster,
    after: Raster,
    x: int,
    y: int,
)
    requires
        before.wf(),
        before.width == v.width,
        before.height == v.height,
        v.complete(),
        v.paints(before, after),
        0 <= x < v.width,
        0 <= y < v.height,
    ensures
        v.pending.len() == 3 * (v.width * v.height),
        after.color[y * v.width + x] == Color::spec_from_u8(
            v.pending[3 * (y * v.width + x)],
            v.pending[3 * (y * v.width + x) + 1],
            v.pending[3 * (y * v.width + x) + 2],
            255,
        ),
{
    assert(0 <= v.width * v.height) by (nonlinear_arith);
    law_frame_at_its_own_size_is_shown_exactly(v.pending, before, after, x, y);
}

} // verus!
