//! stdout/stderr pipelines: newline framing with a hard single-line cap,
//! stripping of escapes and control characters, and delivery that drops and
//! counts lines under pressure: the panel must never choke on a flooding
//! server.

use std::borrow::Cow;

use vstd::prelude::*;

use crate::text;
use crate::text::{chars_of, is_control, string_of};

verus! {

broadcast use vstd::string::group_string_axioms;

/// Single-line cap: one endless line must not balloon memory; the remainder up
/// to the next newline is discarded.
pub const MAX_LINE_LENGTH: usize = 65536;

/// Bounded capacity per stream channel.
pub const CHANNEL_CAPACITY: usize = 1024;

/// What a stream pump delivers.
#[derive(Debug, PartialEq)]
pub enum StreamEvent {
    Line(String),
    /// Lines lost since the last delivered event: backpressure drops and
    /// over-length discards combined.
    Dropped(u64),
}

/// What follows a CSI introducer: everything behind the first final character
/// in `@..=~`.
pub open spec fn after_csi(s: Seq<char>) -> Seq<char>
    decreases s.len(),
{
    if s.len() == 0 {
        s
    } else if '\x40' <= s[0] <= '\x7e' {
        s.drop_first()
    } else {
        after_csi(s.drop_first())
    }
}

/// What follows an OSC introducer: everything behind the first BEL, or behind
/// the first ESC and the character after it.
pub open spec fn after_osc(s: Seq<char>) -> Seq<char>
    decreases s.len(),
{
    if s.len() == 0 {
        s
    } else if s[0] == '\x07' {
        s.drop_first()
    } else if s[0] == '\x1b' {
        if s.len() == 1 {
            s.drop_first()
        } else {
            s.drop_first().drop_first()
        }
    } else {
        after_osc(s.drop_first())
    }
}

/// Skipping never makes a text longer.
pub proof fn lemma_after_csi_shorter(s: Seq<char>)
    ensures
        after_csi(s).len() <= s.len(),
    decreases s.len(),
{
    if s.len() > 0 {
        lemma_after_csi_shorter(s.drop_first());
    }
}

/// Skipping never makes a text longer.
pub proof fn lemma_after_osc_shorter(s: Seq<char>)
    ensures
        after_osc(s).len() <= s.len(),
    decreases s.len(),
{
    if s.len() > 0 {
        lemma_after_osc_shorter(s.drop_first());
    }
}

/// A text without escape sequences (CSI, OSC, two-character escapes) and
/// without control characters other than the tab.
pub open spec fn stripped(s: Seq<char>) -> Seq<char>
    decreases s.len(),
{
    if s.len() == 0 {
        Seq::empty()
    } else {
        let rest = s.drop_first();
        if s[0] == '\x1b' {
            if rest.len() == 0 {
                Seq::empty()
            } else {
                let body = rest.drop_first();
                proof {
                    lemma_after_csi_shorter(body);
                    lemma_after_osc_shorter(body);
                }
                if rest[0] == '[' {
                    stripped(after_csi(body))
                } else if rest[0] == ']' {
                    stripped(after_osc(body))
                } else {
                    stripped(body)
                }
            }
        } else if s[0] != '\t' && text::spec_is_control(s[0]) {
            stripped(rest)
        } else {
            seq![s[0]] + stripped(rest)
        }
    }
}

/// No control character occurs.
pub open spec fn clean(s: Seq<char>) -> bool {
    forall|i: int| 0 <= i < s.len() ==> !text::spec_is_control(#[trigger] s[i])
}

/// Where the text behind a CSI introducer at `from` goes on.
fn skip_csi(chars: &Vec<char>, from: usize) -> (r: usize)
    requires
        from <= chars@.len(),
    ensures
        from <= r <= chars@.len(),
        chars@.skip(r as int) == after_csi(chars@.skip(from as int)),
{
    let mut i: usize = from;
    while i < chars.len()
        invariant
            from <= i <= chars@.len(),
            after_csi(chars@.skip(i as int)) == after_csi(chars@.skip(from as int)),
        decreases chars@.len() - i,
    {
        let c = chars[i];
        assert(chars@.skip(i as int)[0] == c);
        assert(chars@.skip(i as int).drop_first() =~= chars@.skip(i + 1));
        i = i + 1;
        if '\x40' <= c && c <= '\x7e' {
            return i;
        }
    }
    i
}

/// Where the text behind an OSC introducer at `from` goes on.
fn skip_osc(chars: &Vec<char>, from: usize) -> (r: usize)
    requires
        from <= chars@.len(),
    ensures
        from <= r <= chars@.len(),
        chars@.skip(r as int) == after_osc(chars@.skip(from as int)),
{
    let mut i: usize = from;
    while i < chars.len()
        invariant
            from <= i <= chars@.len(),
            after_osc(chars@.skip(i as int)) == after_osc(chars@.skip(from as int)),
        decreases chars@.len() - i,
    {
        let c = chars[i];
        let ghost here = chars@.skip(i as int);
        assert(here[0] == c);
        assert(here.drop_first() =~= chars@.skip(i + 1));
        i = i + 1;
        if c == '\x07' {
            return i;
        }
        if c == '\x1b' {
            if i < chars.len() {
                assert(here.drop_first().drop_first() =~= chars@.skip(i + 1));
                return i + 1;
            }
            return i;
        }
    }
    i
}

/// Strip escape sequences and stray control characters (tab survives). Borrows
/// when the line is already clean.
pub fn strip_ansi(raw: &str) -> (r: Cow<'_, str>)
    ensures
        r@ == stripped(raw@),
        (r is Borrowed) == clean(raw@),
{
    let chars = chars_of(raw);
    let mut dirty = false;
    for i in 0..chars.len()
        invariant
            chars@ == raw@,
            !dirty ==> forall|j: int| 0 <= j < i ==> !text::spec_is_control(#[trigger] raw@[j]),
            dirty ==> !clean(raw@),
    {
        if is_control(chars[i]) {
            assert(text::spec_is_control(raw@[i as int]));
            dirty = true;
        }
    }
    if !dirty {
        proof {
            law_clean_text_is_kept(raw@);
        }
        return Cow::Borrowed(raw);
    }
    let mut out: Vec<char> = Vec::new();
    let mut i: usize = 0;
    assert(chars@.skip(0) =~= raw@);
    assert(out@ + stripped(chars@.skip(0)) =~= stripped(raw@));
    while i < chars.len()
        invariant
            chars@ == raw@,
            i <= chars@.len(),
            out@ + stripped(chars@.skip(i as int)) == stripped(raw@),
        decreases chars@.len() - i,
    {
        let ghost here = chars@.skip(i as int);
        let c = chars[i];
        assert(here[0] == c);
        assert(here.drop_first() =~= chars@.skip(i + 1));
        if c == '\x1b' {
            if i + 1 < chars.len() {
                let d = chars[i + 1];
                assert(here.drop_first()[0] == d);
                assert(here.drop_first().drop_first() =~= chars@.skip(i + 2));
                if d == '[' {
                    i = skip_csi(&chars, i + 2);
                } else if d == ']' {
                    i = skip_osc(&chars, i + 2);
                } else {
                    i = i + 2;
                }
            } else {
                assert(here.drop_first().len() == 0);
                i = i + 1;
                assert(stripped(chars@.skip(i as int)) =~= Seq::empty());
            }
        } else if c != '\t' && is_control(c) {
            i = i + 1;
        } else {
            let ghost before = out@;
            out.push(c);
            i = i + 1;
            assert(out@ + stripped(chars@.skip(i as int)) =~= before + (seq![c] + stripped(
                chars@.skip(i as int),
            )));
        }
    }
    assert(chars@.skip(i as int).len() == 0);
    assert(out@ + stripped(chars@.skip(i as int)) =~= out@);
    Cow::Owned(string_of(out.as_slice()))
}

/// A text without control characters is kept as it is.
pub proof fn law_clean_text_is_kept(s: Seq<char>)
    requires
        clean(s),
    ensures
        stripped(s) == s,
    decreases s.len(),
{
    if s.len() > 0 {
        let rest = s.drop_first();
        assert forall|i: int| 0 <= i < rest.len() implies !text::spec_is_control(
            #[trigger] rest[i],
        ) by {
            assert(rest[i] == s[i + 1]);
        }
        law_clean_text_is_kept(rest);
        assert(!text::spec_is_control(s[0]));
        assert(seq![s[0]] + rest =~= s);
    }
}

/// No control character but the tab survives.
pub proof fn law_no_control_survives(s: Seq<char>)
    ensures
        forall|i: int|
            0 <= i < stripped(s).len() ==> #[trigger] stripped(s)[i] == '\t'
                || !text::spec_is_control(stripped(s)[i]),
    decreases s.len(),
{
    if s.len() > 0 {
        let rest = s.drop_first();
        if s[0] == '\x1b' {
            if rest.len() > 0 {
                let body = rest.drop_first();
                lemma_after_csi_shorter(body);
                lemma_after_osc_shorter(body);
                if rest[0] == '[' {
                    law_no_control_survives(after_csi(body));
                    assert(stripped(s) == stripped(after_csi(body)));
                } else if rest[0] == ']' {
                    law_no_control_survives(after_osc(body));
                    assert(stripped(s) == stripped(after_osc(body)));
                } else {
                    law_no_control_survives(body);
                    assert(stripped(s) == stripped(body));
                }
            } else {
                assert(stripped(s).len() == 0);
            }
        } else {
            law_no_control_survives(rest);
            assert forall|i: int| 0 <= i < stripped(s).len() implies #[trigger] stripped(s)[i]
                == '\t' || !text::spec_is_control(stripped(s)[i]) by {
                if s[0] != '\t' && text::spec_is_control(s[0]) {
                    assert(stripped(s)[i] == stripped(rest)[i]);
                } else if i > 0 {
                    assert(stripped(s)[i] == stripped(rest)[i - 1]);
                }
            }
        }
    }
}

/// Stripping twice is stripping once.
pub proof fn law_stripping_is_idempotent(s: Seq<char>)
    ensures
        stripped(stripped(s)) == stripped(s),
{
    law_no_control_survives(s);
    lemma_tabs_are_kept(stripped(s));
}

proof fn lemma_tabs_are_kept(s: Seq<char>)
    requires
        forall|i: int|
            0 <= i < s.len() ==> #[trigger] s[i] == '\t' || !text::spec_is_control(s[i]),
    ensures
        stripped(s) == s,
    decreases s.len(),
{
    if s.len() > 0 {
        let rest = s.drop_first();
        assert forall|i: int| 0 <= i < rest.len() implies #[trigger] rest[i] == '\t'
            || !text::spec_is_control(rest[i]) by {
            assert(rest[i] == s[i + 1]);
        }
        lemma_tabs_are_kept(rest);
        assert(s[0] == '\t' || !text::spec_is_control(s[0]));
        assert(seq![s[0]] + rest =~= s);
    }
}

/// The text from the first `{` on.
pub open spec fn from_brace(s: Seq<char>) -> Option<Seq<char>>
    decreases s.len(),
{
    if s.len() == 0 {
        None
    } else if s[0] == '{' {
        Some(s)
    } else {
        from_brace(s.drop_first())
    }
}

/// Salvage helper for routing: the payload from the first `{`, for lines where
/// a misbehaving server prefixed garbage.
pub fn json_candidate(line: &str) -> (r: Option<&str>)
    ensures
        match r {
            Some(s) => from_brace(line@) == Some(s@),
            None => from_brace(line@) is None,
        },
{
    let chars = chars_of(line);
    let mut i: usize = 0;
    assert(line@.skip(0) =~= line@);
    while i < chars.len()
        invariant
            chars@ == line@,
            i <= chars@.len(),
            from_brace(line@) == from_brace(line@.skip(i as int)),
        decreases chars@.len() - i,
    {
        assert(line@.skip(i as int)[0] == chars@[i as int]);
        if chars[i] == '{' {
            assert(line@.subrange(i as int, line@.len() as int) =~= line@.skip(i as int));
            return Some(line.substring_char(i, chars.len()));
        }
        assert(line@.skip(i as int).drop_first() =~= line@.skip(i + 1));
        i = i + 1;
    }
    None
}

/// `bytes::BytesMut`; the bytes it holds are [`buffered`].
#[verifier::external_type_specification]
#[verifier::external_body]
pub struct ExBytesMut(bytes::BytesMut);

/// The bytes that a buffer holds.
pub uninterp spec fn buffered(buf: bytes::BytesMut) -> Seq<u8>;

/// The text of possibly invalid UTF-8, with replacement characters.
pub uninterp spec fn lossy_text(b: Seq<u8>) -> Seq<char>;

/// `BytesMut::deref`: the bytes of the buffer.
#[verifier::external_body]
fn contents(buf: &bytes::BytesMut) -> (r: &[u8])
    ensures
        r@ == buffered(*buf),
{
    buf
}

/// `BytesMut::split_to`: the first `at` bytes leave the buffer. Panics where
/// there are fewer, which is left out.
#[verifier::external_body]
fn split_to(buf: &mut bytes::BytesMut, at: usize) -> (r: bytes::BytesMut)
    requires
        at <= buffered(*old(buf)).len(),
    ensures
        buffered(r) == buffered(*old(buf)).take(at as int),
        buffered(*final(buf)) == buffered(*old(buf)).skip(at as int),
{
    buf.split_to(at)
}

/// `bytes::Buf::advance` on a `BytesMut`: the first `n` bytes are dropped.
/// Panics where there are fewer, which is left out.
#[verifier::external_body]
fn advance(buf: &mut bytes::BytesMut, n: usize)
    requires
        n <= buffered(*old(buf)).len(),
    ensures
        buffered(*final(buf)) == buffered(*old(buf)).skip(n as int),
{
    bytes::Buf::advance(buf, n)
}

/// `BytesMut::clear`: nothing is left.
#[verifier::external_body]
fn clear(buf: &mut bytes::BytesMut)
    ensures
        buffered(*final(buf)) == Seq::<u8>::empty(),
{
    buf.clear()
}

/// `BytesMut::truncate`: at most the first `len` bytes are left.
#[verifier::external_body]
fn truncate(buf: &mut bytes::BytesMut, len: usize)
    ensures
        buffered(*final(buf)) == if len <= buffered(*old(buf)).len() {
            buffered(*old(buf)).take(len as int)
        } else {
            buffered(*old(buf))
        },
{
    buf.truncate(len)
}

/// `String::from_utf8_lossy`: valid UTF-8 is decoded, anything invalid is
/// replaced.
#[verifier::external_body]
fn from_utf8_lossy(b: &[u8]) -> (r: String)
    ensures
        r@ == lossy_text(b@),
        vstd::utf8::valid_utf8(b@) ==> r@ == vstd::utf8::decode_utf8(b@),
{
    String::from_utf8_lossy(b).into_owned()
}

/// The text of the bytes of a line: valid UTF-8 is kept as it is, anything
/// invalid is replaced.
pub open spec fn line_text(b: Seq<u8>) -> Seq<char> {
    if vstd::utf8::valid_utf8(b) {
        vstd::utf8::decode_utf8(b)
    } else {
        lossy_text(b)
    }
}

/// One item of the framing.
#[derive(Debug, PartialEq)]
pub enum RawLine {
    Line(String),
    /// A line that blew past [`MAX_LINE_LENGTH`]; its bytes were discarded.
    Oversized,
}

#[verifier::ext_equal]
pub enum RawView {
    Line(Seq<char>),
    Oversized,
}

impl View for RawLine {
    type V = RawView;

    open spec fn view(&self) -> RawView {
        match *self {
            RawLine::Line(s) => RawView::Line(s@),
            RawLine::Oversized => RawView::Oversized,
        }
    }
}

/// The view of an optional item.
pub open spec fn raw_option(r: Option<RawLine>) -> Option<RawView> {
    match r {
        Some(line) => Some(line@),
        None => None,
    }
}

/// Where the first line ends: the position of its line feed, or the length.
pub open spec fn line_end(b: Seq<u8>) -> int
    decreases b.len(),
{
    if b.len() == 0 || b[0] == 10 {
        0
    } else {
        1 + line_end(b.drop_first())
    }
}

/// A line without the carriage return at its end.
pub open spec fn without_cr(line: Seq<u8>) -> Seq<u8> {
    if line.len() > 0 && line.last() == 13 {
        line.drop_last()
    } else {
        line
    }
}

/// What the bytes before a line feed come out as.
pub open spec fn framed(line: Seq<u8>) -> RawView {
    if without_cr(line).len() > MAX_LINE_LENGTH {
        RawView::Oversized
    } else {
        RawView::Line(line_text(without_cr(line)))
    }
}

/// What decoding yields when no oversized line is being discarded: the item,
/// whether one is being discarded now, and the bytes that stay buffered.
pub open spec fn decode_line(b: Seq<u8>) -> (Option<RawView>, bool, Seq<u8>) {
    let at = line_end(b);
    if at < b.len() {
        (Some(framed(b.take(at))), false, b.skip(at + 1))
    } else if b.len() > MAX_LINE_LENGTH {
        (Some(RawView::Oversized), true, Seq::empty())
    } else {
        (None, false, b)
    }
}

/// What decoding yields. The tail of an oversized line, which is already
/// reported, is skipped.
pub open spec fn decoded(discarding: bool, b: Seq<u8>) -> (Option<RawView>, bool, Seq<u8>) {
    if discarding {
        let at = line_end(b);
        if at < b.len() {
            decode_line(b.skip(at + 1))
        } else {
            (None, true, Seq::empty())
        }
    } else {
        decode_line(b)
    }
}

/// What decoding yields at the end of the stream: a trailing line without a
/// line feed is a line too.
pub open spec fn decoded_eof(discarding: bool, b: Seq<u8>) -> (Option<RawView>, bool, Seq<u8>) {
    let (item, now, rest) = decoded(discarding, b);
    if item is Some || now || rest.len() == 0 {
        (item, now, rest)
    } else {
        (Some(RawView::Line(line_text(rest))), now, Seq::empty())
    }
}

/// Newline framing with a hard length cap. An oversized line is an *item*, not
/// a failure, so one hostile line cannot end the pipeline. Invalid UTF-8 is
/// replaced lossily; these are logs, not the protocol layer.
pub struct CappedLines {
    discarding: bool,
}

impl Default for CappedLines {
    fn default() -> (r: CappedLines)
        ensures
            !r.is_discarding(),
    {
        CappedLines { discarding: false }
    }
}

/// The position of the first line feed, or the length.
fn find_line_end(b: &[u8]) -> (r: usize)
    ensures
        r == line_end(b@),
        r <= b@.len(),
{
    let mut i: usize = 0;
    assert(b@.skip(0) =~= b@);
    while i < b.len() && b[i] != 10
        invariant
            i <= b@.len(),
            line_end(b@) == i + line_end(b@.skip(i as int)),
        decreases b@.len() - i,
    {
        assert(b@.skip(i as int)[0] == b@[i as int]);
        assert(b@.skip(i as int).drop_first() =~= b@.skip(i + 1));
        i = i + 1;
    }
    if i < b.len() {
        assert(b@.skip(i as int)[0] == b@[i as int]);
    }
    i
}

impl CappedLines {
    /// An oversized line is being discarded.
    pub closed spec fn is_discarding(self) -> bool {
        self.discarding
    }

    fn take_line(buf: &mut bytes::BytesMut, newline_at: usize) -> (r: RawLine)
        requires
            newline_at < buffered(*old(buf)).len(),
        ensures
            r@ == framed(buffered(*old(buf)).take(newline_at as int)),
            buffered(*final(buf)) == buffered(*old(buf)).skip(newline_at + 1),
    {
        let ghost all = buffered(*buf);
        let _held: usize = contents(buf).len();
        let mut line = split_to(buf, newline_at + 1);
        let keep: usize = newline_at;
        truncate(&mut line, keep);
        assert(buffered(line) =~= all.take(newline_at as int));
        let n: usize = contents(&line).len();
        if n > 0 && contents(&line)[n - 1] == 13 {
            truncate(&mut line, n - 1);
            assert(buffered(line) =~= without_cr(all.take(newline_at as int)));
        }
        if contents(&line).len() > MAX_LINE_LENGTH {
            return RawLine::Oversized;
        }
        RawLine::Line(from_utf8_lossy(contents(&line)))
    }

    fn decode_next(&mut self, buf: &mut bytes::BytesMut) -> (r: Option<RawLine>)
        requires
            !old(self).is_discarding(),
        ensures
            (raw_option(r), final(self).is_discarding(), buffered(*final(buf))) == decode_line(
                buffered(*old(buf)),
            ),
    {
        let at: usize = find_line_end(contents(buf));
        let n: usize = contents(buf).len();
        if at < n {
            Some(Self::take_line(buf, at))
        } else if n > MAX_LINE_LENGTH {
            clear(buf);
            self.discarding = true;
            Some(RawLine::Oversized)
        } else {
            None
        }
    }

    /// The next item of what is buffered.
    pub fn decode(&mut self, buf: &mut bytes::BytesMut) -> (r: Option<RawLine>)
        ensures
            (raw_option(r), final(self).is_discarding(), buffered(*final(buf))) == decoded(
                old(self).is_discarding(),
                buffered(*old(buf)),
            ),
    {
        if self.discarding {
            let at: usize = find_line_end(contents(buf));
            if at < contents(buf).len() {
                advance(buf, at + 1);
                self.discarding = false;
                self.decode_next(buf)
            } else {
                clear(buf);
                None
            }
        } else {
            self.decode_next(buf)
        }
    }

    /// The next item at the end of the stream.
    pub fn decode_eof(&mut self, buf: &mut bytes::BytesMut) -> (r: Option<RawLine>)
        ensures
            (raw_option(r), final(self).is_discarding(), buffered(*final(buf))) == decoded_eof(
                old(self).is_discarding(),
                buffered(*old(buf)),
            ),
    {
        let item = self.decode(buf);
        if item.is_some() {
            return item;
        }
        let n: usize = contents(buf).len();
        if self.discarding || n == 0 {
            return None;
        }
        let ghost rest = buffered(*buf);
        let last = split_to(buf, n);
        assert(buffered(last) =~= rest);
        assert(buffered(*buf) =~= Seq::empty());
        Some(RawLine::Line(from_utf8_lossy(contents(&last))))
    }
}

/// Everything that decoding yields until it needs more bytes.
pub open spec fn drained(discarding: bool, b: Seq<u8>) -> (Seq<RawView>, bool, Seq<u8>)
    decreases b.len(),
{
    let (item, now, rest) = decoded(discarding, b);
    proof {
        lemma_decoded_shorter(discarding, b);
    }
    match item {
        Some(line) => {
            let (more, end, left) = drained(now, rest);
            (seq![line] + more, end, left)
        },
        None => (Seq::empty(), now, rest),
    }
}

/// A line ends within its bytes.
pub proof fn lemma_line_end(b: Seq<u8>)
    ensures
        0 <= line_end(b) <= b.len(),
        line_end(b) < b.len() ==> b[line_end(b)] == 10,
        forall|i: int| 0 <= i < line_end(b) ==> #[trigger] b[i] != 10,
    decreases b.len(),
{
    if b.len() > 0 && b[0] != 10 {
        let rest = b.drop_first();
        lemma_line_end(rest);
        assert forall|i: int| 0 <= i < line_end(b) implies #[trigger] b[i] != 10 by {
            if i > 0 {
                assert(rest[i - 1] == b[i]);
            }
        }
    }
}

/// An item takes bytes out of the buffer.
pub proof fn lemma_decoded_shorter(discarding: bool, b: Seq<u8>)
    ensures
        decoded(discarding, b).0 is Some ==> decoded(discarding, b).2.len() < b.len(),
{
    lemma_line_end(b);
    if discarding && line_end(b) < b.len() {
        lemma_line_end(b.skip(line_end(b) + 1));
    }
}

/// Bytes behind the first line feed do not move it.
proof fn lemma_line_end_append(a: Seq<u8>, b: Seq<u8>)
    ensures
        line_end(a) < a.len() ==> line_end(a + b) == line_end(a),
        line_end(a) == a.len() ==> line_end(a + b) == a.len() + line_end(b),
    decreases a.len(),
{
    if a.len() == 0 {
        assert(a + b =~= b);
    } else if a[0] != 10 {
        lemma_line_end(a.drop_first());
        lemma_line_end_append(a.drop_first(), b);
        assert((a + b).drop_first() =~= a.drop_first() + b);
    }
}

/// The bytes behind the last line feed.
pub open spec fn last_line(b: Seq<u8>) -> Seq<u8>
    decreases b.len(),
{
    let at = line_end(b);
    proof {
        lemma_line_end(b);
    }
    if at < b.len() {
        last_line(b.skip(at + 1))
    } else {
        b
    }
}

/// A line of exactly the cap is cut between its carriage return and its line
/// feed.
pub open spec fn cut_at_the_cap(discarding: bool, a: Seq<u8>, b: Seq<u8>) -> bool {
    &&& !(discarding && line_end(a) == a.len())
    &&& last_line(a).len() == MAX_LINE_LENGTH + 1
    &&& last_line(a).last() == 13
    &&& b.len() > 0
    &&& b[0] == 10
}

/// The framing does not depend on how the bytes arrive: decoding `a` and then
/// what is left of it together with `b` yields what decoding `a + b` yields.
/// Left out is a line of exactly the cap that is cut between its carriage
/// return and its line feed: decoded by then it counts as oversized, and as a
/// line otherwise.
#[verifier::spinoff_prover]
#[verifier::rlimit(60)]
pub proof fn law_framing_ignores_chunks(discarding: bool, a: Seq<u8>, b: Seq<u8>)
    requires
        !cut_at_the_cap(discarding, a, b),
    ensures
        ({
            let (first, mid, left) = drained(discarding, a);
            let (second, end, rest) = drained(mid, left + b);
            drained(discarding, a + b) == (first + second, end, rest)
        }),
    decreases a.len(),
{
    lemma_line_end(a);
    lemma_line_end(b);
    lemma_line_end(a + b);
    lemma_line_end_append(a, b);
    lemma_decoded_shorter(discarding, a);
    let at = line_end(a);
    let (first, mid, left) = drained(discarding, a);
    let (second, end, rest) = drained(mid, left + b);
    if at < a.len() {
        assert((a + b).skip(at + 1) =~= a.skip(at + 1) + b);
        assert((a + b).take(at) =~= a.take(at));
        if discarding {
            law_framing_ignores_chunks(false, a.skip(at + 1), b);
            assert(decoded(true, a) == decoded(false, a.skip(at + 1)));
            assert(decoded(true, a + b) == decoded(false, (a + b).skip(at + 1)));
            assert(drained(true, a) == drained(false, a.skip(at + 1)));
            assert(drained(true, a + b) == drained(false, (a + b).skip(at + 1)));
        } else {
            let tail = a.skip(at + 1);
            law_framing_ignores_chunks(false, tail, b);
            let (f, m, l) = drained(false, tail);
            assert(first =~= seq![framed(a.take(at))] + f);
            let (s2, e2, r2) = drained(m, l + b);
            assert(drained(false, a + b).0 =~= seq![framed(a.take(at))] + (f + s2));
            assert(seq![framed(a.take(at))] + (f + s2) =~= first + second);
        }
    } else if discarding {
        assert(left + b =~= b);
        assert(first + second =~= second);
        if line_end(b) < b.len() {
            assert((a + b).skip(a.len() + line_end(b) + 1) =~= b.skip(line_end(b) + 1));
            assert(decoded(true, a + b) == decoded(true, b));
        }
    } else if a.len() > MAX_LINE_LENGTH {
        let empty = Seq::<u8>::empty();
        assert(decoded(true, empty) == (None::<RawView>, true, empty));
        assert(drained(true, empty) == (Seq::<RawView>::empty(), true, empty));
        assert(first =~= seq![RawView::Oversized]);
        assert(left + b =~= b);
        if line_end(b) < b.len() {
            let n = line_end(b);
            let tail = b.skip(n + 1);
            assert((a + b).skip(a.len() + n + 1) =~= tail);
            let line = (a + b).take(a.len() + n);
            if n == 0 {
                assert(line =~= a);
                assert(last_line(a) == a);
                assert(b[0] == 10);
            }
            assert(without_cr(line).len() > MAX_LINE_LENGTH);
            assert(decoded(false, a + b) == (Some(RawView::Oversized), false, tail));
            assert(decoded(true, b) == decoded(false, tail));
            assert(drained(true, b) == drained(false, tail));
        } else {
            assert(decoded(false, a + b) == (Some(RawView::Oversized), true, empty));
            assert(decoded(true, b) == (None::<RawView>, true, empty));
            assert(drained(false, a + b).0 =~= seq![RawView::Oversized]);
        }
    } else {
        assert(first + second =~= second);
    }
}

/// How many line feeds there are.
pub open spec fn line_feeds(b: Seq<u8>) -> nat
    decreases b.len(),
{
    if b.len() == 0 {
        0
    } else {
        line_feeds(b.drop_last()) + if b.last() == 10 {
            1nat
        } else {
            0nat
        }
    }
}

proof fn lemma_line_feeds_split(a: Seq<u8>, b: Seq<u8>)
    ensures
        line_feeds(a + b) == line_feeds(a) + line_feeds(b),
    decreases b.len(),
{
    if b.len() == 0 {
        assert(a + b =~= a);
    } else {
        assert((a + b).drop_last() =~= a + b.drop_last());
        lemma_line_feeds_split(a, b.drop_last());
    }
}

proof fn lemma_no_line_feeds(b: Seq<u8>)
    requires
        forall|i: int| 0 <= i < b.len() ==> #[trigger] b[i] != 10,
    ensures
        line_feeds(b) == 0,
    decreases b.len(),
{
    if b.len() > 0 {
        assert(b.last() == b[b.len() - 1]);
        assert forall|i: int| 0 <= i < b.drop_last().len() implies #[trigger] b.drop_last()[i]
            != 10 by {
            assert(b.drop_last()[i] == b[i]);
        }
        lemma_no_line_feeds(b.drop_last());
    }
}

/// Every line is one item: there is one for each line feed, and one for an
/// oversized line whose line feed is still to come (and none a second time
/// when it comes).
pub proof fn law_every_line_is_one_item(discarding: bool, b: Seq<u8>)
    ensures
        drained(discarding, b).0.len() + (if discarding {
            1int
        } else {
            0int
        }) == line_feeds(b) + (if drained(discarding, b).1 {
            1int
        } else {
            0int
        }),
    decreases b.len(),
{
    lemma_line_end(b);
    lemma_decoded_shorter(discarding, b);
    let at = line_end(b);
    if at < b.len() {
        let tail = b.skip(at + 1);
        assert(b =~= b.take(at + 1) + tail);
        lemma_line_feeds_split(b.take(at + 1), tail);
        assert(b.take(at + 1).drop_last() =~= b.take(at));
        lemma_no_line_feeds(b.take(at));
        law_every_line_is_one_item(false, tail);
        if discarding {
            assert(drained(true, b) == drained(false, tail));
        }
    } else {
        lemma_no_line_feeds(b);
        if !discarding && b.len() > MAX_LINE_LENGTH {
            let empty = Seq::<u8>::empty();
            assert(decoded(true, empty) == (None::<RawView>, true, empty));
            assert(drained(true, empty) == (Seq::<RawView>::empty(), true, empty));
        }
    }
}

/// What a pump forwards of an item: the sanitized line, or nothing for an
/// oversized one, which counts as lost.
pub fn pump(item: RawLine) -> (r: Option<String>)
    ensures
        match item {
            RawLine::Line(raw) => r is Some && r->0@ == stripped(raw@),
            RawLine::Oversized => r is None,
        },
{
    match item {
        RawLine::Line(raw) => match strip_ansi(raw.as_str()) {
            Cow::Borrowed(_) => {
                proof {
                    law_clean_text_is_kept(raw@);
                }
                Some(raw)
            },
            Cow::Owned(line) => Some(line),
        },
        RawLine::Oversized => None,
    }
}

/// What became of handing an event to a bounded channel without waiting.
#[derive(Clone, Copy, Debug, PartialEq, Eq, Structural)]
pub enum SendOutcome {
    Sent,
    /// No room: the event was not taken.
    Full,
    /// The receiver is gone.
    Closed,
}

/// `tokio::sync::mpsc::Sender`; what a channel took is named for each use.
#[verifier::external_type_specification]
#[verifier::external_body]
#[verifier::reject_recursive_types(T)]
pub struct ExSender<T>(tokio::sync::mpsc::Sender<T>);

/// An event type with a marker for lost items, and a channel that takes it.
pub trait GapEvent: Sized {
    /// The marker for `lost` items.
    spec fn gap(lost: u64) -> Self;

    /// How many items the event tells of: one, or as many as a marker says.
    spec fn tells_of(self) -> int;

    /// A marker tells of as many items as are lost.
    proof fn lemma_gap(lost: u64)
        ensures
            Self::gap(lost).tells_of() == lost,
    ;

    /// Every event that was offered to the channel through this handle, in
    /// order, whether the channel took it or not.
    spec fn offered(tx: tokio::sync::mpsc::Sender<Self>) -> Seq<Self>;

    /// Every event that the channel took through this handle, in order.
    spec fn taken(tx: tokio::sync::mpsc::Sender<Self>) -> Seq<Self>;

    /// The marker for `lost` items.
    fn marker(lost: u64) -> (r: Self)
        ensures
            r == Self::gap(lost),
    ;

    /// Hand an event over without waiting for room.
    fn hand_over(tx: &mut tokio::sync::mpsc::Sender<Self>, event: Self) -> (r: SendOutcome)
        ensures
            Self::offered(*final(tx)) == Self::offered(*old(tx)).push(event),
            Self::taken(*final(tx)) == if r == SendOutcome::Sent {
                Self::taken(*old(tx)).push(event)
            } else {
                Self::taken(*old(tx))
            },
    ;
}

/// Every line event that was offered to the channel through this handle, in
/// order.
pub uninterp spec fn lines_offered(tx: tokio::sync::mpsc::Sender<StreamEvent>) -> Seq<StreamEvent>;

/// Every line event that the channel took through this handle, in order.
pub uninterp spec fn lines_taken(tx: tokio::sync::mpsc::Sender<StreamEvent>) -> Seq<StreamEvent>;

/// `tokio::sync::mpsc::Sender::try_send`: the event is offered to the channel,
/// which takes it, or has no room, or has no receiver any more. Which of these
/// depends on the receiver; an event that was not taken is dropped.
#[verifier::external_body]
fn try_send_line(tx: &mut tokio::sync::mpsc::Sender<StreamEvent>, event: StreamEvent) -> (r:
    SendOutcome)
    ensures
        lines_offered(*final(tx)) == lines_offered(*old(tx)).push(event),
        lines_taken(*final(tx)) == if r == SendOutcome::Sent {
            lines_taken(*old(tx)).push(event)
        } else {
            lines_taken(*old(tx))
        },
{
    match tx.try_send(event) {
        Ok(()) => SendOutcome::Sent,
        Err(tokio::sync::mpsc::error::TrySendError::Full(_)) => SendOutcome::Full,
        Err(tokio::sync::mpsc::error::TrySendError::Closed(_)) => SendOutcome::Closed,
    }
}

impl GapEvent for StreamEvent {
    open spec fn gap(lost: u64) -> StreamEvent {
        StreamEvent::Dropped(lost)
    }

    open spec fn tells_of(self) -> int {
        match self {
            StreamEvent::Line(_) => 1,
            StreamEvent::Dropped(n) => n as int,
        }
    }

    proof fn lemma_gap(lost: u64) {
    }

    open spec fn offered(tx: tokio::sync::mpsc::Sender<StreamEvent>) -> Seq<StreamEvent> {
        lines_offered(tx)
    }

    open spec fn taken(tx: tokio::sync::mpsc::Sender<StreamEvent>) -> Seq<StreamEvent> {
        lines_taken(tx)
    }

    fn marker(lost: u64) -> (r: StreamEvent) {
        StreamEvent::Dropped(lost)
    }

    fn hand_over(tx: &mut tokio::sync::mpsc::Sender<StreamEvent>, event: StreamEvent) -> (r:
        SendOutcome) {
        try_send_line(tx, event)
    }
}

/// What a forwarder does next with the item it is offered.
#[derive(Clone, Copy, Debug, PartialEq, Eq, Structural)]
pub enum Offer {
    /// Hand over a marker for this many lost items.
    SendMarker(u64),
    /// Hand over the item.
    SendItem,
    /// The offer is settled; whether the receiver is still there.
    Settled(bool),
}

/// The count of items that are lost and not yet reported, and what it makes of
/// the outcomes of handing events over.
#[derive(Clone, Copy, Debug, PartialEq, Eq, Structural)]
pub struct Losses {
    pub lost: u64,
}

impl Losses {
    /// Count `n` items as lost.
    pub fn lose(&mut self, n: u64)
        requires
            old(self).lost + n <= u64::MAX,
        ensures
            final(self).lost == old(self).lost + n,
    {
        self.lost = self.lost + n;
    }

    /// Take up an item: what is to be handed over first.
    pub fn offer(&self) -> (r: Offer)
        ensures
            r == (if self.lost > 0 {
                Offer::SendMarker(self.lost)
            } else {
                Offer::SendItem
            }),
    {
        if self.lost > 0 {
            Offer::SendMarker(self.lost)
        } else {
            Offer::SendItem
        }
    }

    /// What became of the marker. No room for the marker means that the item
    /// joins the gap.
    pub fn marker_offered(&mut self, outcome: SendOutcome) -> (r: Offer)
        requires
            old(self).lost < u64::MAX,
        ensures
            match outcome {
                SendOutcome::Sent => final(self).lost == 0 && r == Offer::SendItem,
                SendOutcome::Full => final(self).lost == old(self).lost + 1 && r == Offer::Settled(
                    true,
                ),
                SendOutcome::Closed => final(self).lost == old(self).lost && r == Offer::Settled(
                    false,
                ),
            },
    {
        match outcome {
            SendOutcome::Sent => {
                self.lost = 0;
                Offer::SendItem
            },
            SendOutcome::Full => {
                self.lost = self.lost + 1;
                Offer::Settled(true)
            },
            SendOutcome::Closed => Offer::Settled(false),
        }
    }

    /// What became of the item.
    pub fn item_offered(&mut self, outcome: SendOutcome) -> (r: Offer)
        requires
            old(self).lost < u64::MAX,
        ensures
            match outcome {
                SendOutcome::Sent => final(self).lost == old(self).lost && r == Offer::Settled(
                    true,
                ),
                SendOutcome::Full => final(self).lost == old(self).lost + 1 && r == Offer::Settled(
                    true,
                ),
                SendOutcome::Closed => final(self).lost == old(self).lost && r == Offer::Settled(
                    false,
                ),
            },
    {
        match outcome {
            SendOutcome::Sent => Offer::Settled(true),
            SendOutcome::Full => {
                self.lost = self.lost + 1;
                Offer::Settled(true)
            },
            SendOutcome::Closed => Offer::Settled(false),
        }
    }
}

/// Non-blocking delivery with faithful drop accounting: a pending gap marker
/// goes out before the next item, so the order at the receiver is items, gap
/// marker, items; anything lost is counted, never silently vanished. Shared by
/// the stream pumps and the protocol router.
#[verifier::reject_recursive_types(E)]
pub struct BoundedForwarder<E> {
    tx: tokio::sync::mpsc::Sender<E>,
    losses: Losses,
}

impl<E: GapEvent> BoundedForwarder<E> {
    /// How many items are lost and not yet reported.
    pub closed spec fn pending(self) -> u64 {
        self.losses.lost
    }

    /// Every event that was offered to the channel, in order.
    pub closed spec fn offered(self) -> Seq<E> {
        E::offered(self.tx)
    }

    /// Every event that the channel took, in order.
    pub closed spec fn taken(self) -> Seq<E> {
        E::taken(self.tx)
    }

    pub fn new(tx: tokio::sync::mpsc::Sender<E>) -> (r: Self)
        ensures
            r.pending() == 0,
            r.offered() == E::offered(tx),
            r.taken() == E::taken(tx),
    {
        BoundedForwarder { tx, losses: Losses { lost: 0 } }
    }

    /// How many items are lost and not yet reported.
    pub fn lost(&self) -> (r: u64)
        ensures
            r == self.pending(),
    {
        self.losses.lost
    }

    /// Count `n` items as lost.
    pub fn lose(&mut self, n: u64)
        requires
            old(self).pending() + n <= u64::MAX,
        ensures
            final(self).pending() == old(self).pending() + n,
            final(self).offered() == old(self).offered(),
            final(self).taken() == old(self).taken(),
    {
        self.losses.lose(n);
    }

    /// Deliver an item without waiting for room; returns false when the
    /// receiver is gone. The pending marker is offered first, and the item
    /// unless the channel refuses the marker; what the channel holds then, the
    /// count and the answer are those of [`delivered`] and [`settled`] for the
    /// outcomes that came back.
    pub fn offer(&mut self, item: E) -> (r: bool)
        requires
            old(self).pending() < u64::MAX,
        ensures
            exists|marker: SendOutcome, sent: SendOutcome| #[trigger]
                settled(old(self).pending() as int, marker, sent) == (
                    final(self).pending() as int,
                    r,
                ) && final(self).offered() == tried(
                    old(self).offered(),
                    E::gap(old(self).pending()),
                    item,
                    old(self).pending(),
                    marker,
                ) && final(self).taken() == delivered(
                    old(self).taken(),
                    E::gap(old(self).pending()),
                    item,
                    old(self).pending(),
                    marker,
                    sent,
                ),
    {
        let mut step = self.losses.offer();
        let ghost mut marker = SendOutcome::Sent;
        let ghost mut sent = SendOutcome::Sent;
        match step {
            Offer::SendMarker(lost) => {
                let outcome = E::hand_over(&mut self.tx, E::marker(lost));
                proof {
                    marker = outcome;
                }
                step = self.losses.marker_offered(outcome);
            },
            _ => {},
        }
        match step {
            Offer::SendItem => {
                let outcome = E::hand_over(&mut self.tx, item);
                proof {
                    sent = outcome;
                }
                step = self.losses.item_offered(outcome);
            },
            _ => {},
        }
        let alive = match step {
            Offer::Settled(alive) => alive,
            _ => false,
        };
        assert(settled(old(self).pending() as int, marker, sent) == (
            self.pending() as int,
            alive,
        ));
        alive
    }

    /// The producer is done: where the final marker goes, and the marker if one
    /// is due. Handing it over may wait for room.
    pub fn finish(self) -> (r: (tokio::sync::mpsc::Sender<E>, Option<E>))
        ensures
            E::offered(r.0) == self.offered(),
            E::taken(r.0) == self.taken(),
            r.1 == (if self.pending() > 0 {
                Some(E::gap(self.pending()))
            } else {
                None::<E>
            }),
    {
        let lost: u64 = self.losses.lost;
        (
            self.tx,
            if lost > 0 {
                Some(E::marker(lost))
            } else {
                None
            },
        )
    }
}

/// The pending count behind the offer of one item, and whether the receiver is
/// still there, for the outcomes of handing over a marker and the item.
pub open spec fn settled(lost: int, marker: SendOutcome, item: SendOutcome) -> (int, bool) {
    if lost > 0 && marker == SendOutcome::Full {
        (lost + 1, true)
    } else if lost > 0 && marker == SendOutcome::Closed {
        (lost, false)
    } else {
        match item {
            SendOutcome::Sent => (0, true),
            SendOutcome::Full => (1, true),
            SendOutcome::Closed => (0, false),
        }
    }
}

/// What was offered to the channel behind the offer of one item: the marker,
/// where one is due, and then the item, unless the channel refused the marker.
pub open spec fn tried<E>(log: Seq<E>, gap: E, item: E, lost: u64, marker: SendOutcome) -> Seq<E> {
    if lost == 0 {
        log.push(item)
    } else if marker == SendOutcome::Sent {
        log.push(gap).push(item)
    } else {
        log.push(gap)
    }
}

/// What the channel took behind the offer of one item, for the same outcomes:
/// the marker, where one was due, goes before the item.
pub open spec fn delivered<E>(
    log: Seq<E>,
    gap: E,
    item: E,
    lost: u64,
    marker: SendOutcome,
    sent: SendOutcome,
) -> Seq<E> {
    if lost > 0 && marker != SendOutcome::Sent {
        log
    } else {
        let behind = if lost > 0 {
            log.push(gap)
        } else {
            log
        };
        if sent == SendOutcome::Sent {
            behind.push(item)
        } else {
            behind
        }
    }
}

/// How many items a receiver knows of: those it got and those it was told are
/// lost.
pub open spec fn accounted<E: GapEvent>(log: Seq<E>) -> int
    decreases log.len(),
{
    if log.len() == 0 {
        0
    } else {
        accounted(log.drop_last()) + log.last().tells_of()
    }
}

/// Nothing vanishes unaccounted: as long as the receiver is there, offering an
/// item adds one to what was delivered, reported as lost or still pending.
pub proof fn law_every_item_is_accounted_for<E: GapEvent>(
    log: Seq<E>,
    item: E,
    lost: u64,
    marker: SendOutcome,
    sent: SendOutcome,
)
    requires
        item.tells_of() == 1,
    ensures
        ({
            let (pending, alive) = settled(lost as int, marker, sent);
            let after = delivered(log, E::gap(lost), item, lost, marker, sent);
            alive ==> accounted(after) + pending == accounted(log) + lost + 1
        }),
{
    let gap = E::gap(lost);
    E::lemma_gap(lost);
    assert(log.push(gap).drop_last() =~= log);
    assert(log.push(item).drop_last() =~= log);
    assert(log.push(gap).push(item).drop_last() =~= log.push(gap));
    assert(accounted(log.push(gap)) == accounted(log) + lost);
    assert(accounted(log.push(item)) == accounted(log) + 1);
    assert(accounted(log.push(gap).push(item)) == accounted(log.push(gap)) + 1);
}

/// The final marker settles the account: nothing is pending behind it.
pub proof fn law_finishing_settles_the_account<E: GapEvent>(log: Seq<E>, lost: u64)
    ensures
        accounted(log.push(E::gap(lost))) == accounted(log) + lost,
{
    E::lemma_gap(lost);
    assert(log.push(E::gap(lost)).drop_last() =~= log);
}

/// A run of characters that are kept goes through as it is, and what follows is
/// stripped by itself. Kept are the tab and everything outside `U+0000..=U+001F`
/// and `U+007F..=U+009F`.
pub proof fn law_visible_text_goes_through(a: Seq<char>, t: Seq<char>)
    requires
        forall|i: int|
            0 <= i < a.len() ==> #[trigger] a[i] == '\t' || 0x20 <= a[i] as u32 <= 0x7e || 0xa0
                <= a[i] as u32,
    ensures
        stripped(a + t) == a + stripped(t),
    decreases a.len(),
{
    if a.len() == 0 {
        assert(a + t =~= t);
        assert(a + stripped(t) =~= stripped(t));
    } else {
        let rest = a.drop_first();
        assert forall|i: int| 0 <= i < rest.len() implies #[trigger] rest[i] == '\t' || 0x20
            <= rest[i] as u32 <= 0x7e || 0xa0 <= rest[i] as u32 by {
            assert(rest[i] == a[i + 1]);
        }
        law_visible_text_goes_through(rest, t);
        assert((a + t).drop_first() =~= rest + t);
        assert(a[0] == '\t' || 0x20 <= a[0] as u32 <= 0x7e || 0xa0 <= a[0] as u32);
        assert((a + t)[0] == a[0]);
        assert(seq![a[0]] + (rest + stripped(t)) =~= a + stripped(t));
    }
}

/// A control character that begins no escape is dropped, and it alone.
pub proof fn law_stray_controls_are_dropped(c: char, t: Seq<char>)
    requires
        c as u32 <= 0x1f || 0x7f <= c as u32 <= 0x9f,
        c != '\t',
        c != '\x1b',
    ensures
        stripped(seq![c] + t) == stripped(t),
{
    assert((seq![c] + t).drop_first() =~= t);
}

/// An escape sequence for the terminal (`ESC [`) ends at its first character in
/// `@..=~` and leaves nothing behind: what follows is stripped by itself, and a
/// text without control characters is kept as it is. One that never ends takes
/// the rest of the line along.
pub proof fn law_csi_ends_at_its_final_character(p: Seq<char>, f: char, t: Seq<char>)
    requires
        forall|i: int|
            0 <= i < p.len() ==> (#[trigger] p[i] as u32) < 0x40 || 0x7e < p[i] as u32,
        0x40 <= f as u32 <= 0x7e,
    ensures
        stripped(seq!['\x1b', '['] + p + seq![f] + t) == stripped(t),
        (forall|i: int|
            0 <= i < t.len() ==> 0x20 <= (#[trigger] t[i]) as u32 <= 0x7e || 0xa0 <= t[i] as u32)
            ==> stripped(seq!['\x1b', '['] + p + seq![f] + t) == t,
        stripped(seq!['\x1b', '['] + p) == Seq::<char>::empty(),
{
    let s = seq!['\x1b', '['] + p + seq![f] + t;
    assert(s.drop_first().drop_first() =~= p + seq![f] + t);
    assert(s.drop_first()[0] == '[');
    lemma_csi_body(p, f, t);
    let u = seq!['\x1b', '['] + p;
    assert(u.drop_first().drop_first() =~= p);
    assert(u.drop_first()[0] == '[');
    assert(stripped(Seq::empty()) == Seq::<char>::empty());
    if forall|i: int|
        0 <= i < t.len() ==> 0x20 <= (#[trigger] t[i]) as u32 <= 0x7e || 0xa0 <= t[i] as u32 {
        law_visible_text_goes_through(t, Seq::empty());
        assert(t + Seq::<char>::empty() =~= t);
        assert(t + stripped(Seq::empty()) =~= t);
    }
}

proof fn lemma_csi_body(p: Seq<char>, f: char, t: Seq<char>)
    requires
        forall|i: int|
            0 <= i < p.len() ==> (#[trigger] p[i] as u32) < 0x40 || 0x7e < p[i] as u32,
        0x40 <= f as u32 <= 0x7e,
    ensures
        after_csi(p + seq![f] + t) == t,
        after_csi(p) == Seq::<char>::empty(),
    decreases p.len(),
{
    if p.len() == 0 {
        assert((p + seq![f] + t).drop_first() =~= t);
        assert((p + seq![f] + t)[0] == f);
        assert(p =~= Seq::empty());
    } else {
        let rest = p.drop_first();
        assert forall|i: int| 0 <= i < rest.len() implies (#[trigger] rest[i] as u32) < 0x40 || 0x7e
            < rest[i] as u32 by {
            assert(rest[i] == p[i + 1]);
        }
        lemma_csi_body(rest, f, t);
        assert((p + seq![f] + t).drop_first() =~= rest + seq![f] + t);
        assert((p[0] as u32) < 0x40 || 0x7e < p[0] as u32);
        assert((p + seq![f] + t)[0] == p[0]);
    }
}

/// An operating system command (`ESC ]`) ends at its first BEL, or at its first
/// ESC and the character behind that, and leaves nothing behind. One that never
/// ends takes the rest of the line along.
pub proof fn law_osc_ends_at_its_terminator(p: Seq<char>, c: char, t: Seq<char>)
    requires
        forall|i: int| 0 <= i < p.len() ==> #[trigger] p[i] != '\x07' && p[i] != '\x1b',
    ensures
        stripped(seq!['\x1b', ']'] + p + seq!['\x07'] + t) == stripped(t),
        stripped(seq!['\x1b', ']'] + p + seq!['\x1b', c] + t) == stripped(t),
        stripped(seq!['\x1b', ']'] + p) == Seq::<char>::empty(),
{
    let s = seq!['\x1b', ']'] + p + seq!['\x07'] + t;
    assert(s.drop_first().drop_first() =~= p + seq!['\x07'] + t);
    assert(s.drop_first()[0] == ']');
    let u = seq!['\x1b', ']'] + p + seq!['\x1b', c] + t;
    assert(u.drop_first().drop_first() =~= p + seq!['\x1b', c] + t);
    assert(u.drop_first()[0] == ']');
    let v = seq!['\x1b', ']'] + p;
    assert(v.drop_first().drop_first() =~= p);
    assert(v.drop_first()[0] == ']');
    lemma_osc_body(p, c, t);
    assert(stripped(Seq::empty()) == Seq::<char>::empty());
}

proof fn lemma_osc_body(p: Seq<char>, c: char, t: Seq<char>)
    requires
        forall|i: int| 0 <= i < p.len() ==> #[trigger] p[i] != '\x07' && p[i] != '\x1b',
    ensures
        after_osc(p + seq!['\x07'] + t) == t,
        after_osc(p + seq!['\x1b', c] + t) == t,
        after_osc(p) == Seq::<char>::empty(),
    decreases p.len(),
{
    let bel = p + seq!['\x07'] + t;
    let esc = p + seq!['\x1b', c] + t;
    if p.len() == 0 {
        assert(bel[0] == '\x07');
        assert(bel.drop_first() =~= t);
        assert(esc[0] == '\x1b');
        assert(esc.drop_first().drop_first() =~= t);
        assert(p =~= Seq::empty());
    } else {
        let rest = p.drop_first();
        assert forall|i: int| 0 <= i < rest.len() implies #[trigger] rest[i] != '\x07' && rest[i]
            != '\x1b' by {
            assert(rest[i] == p[i + 1]);
        }
        lemma_osc_body(rest, c, t);
        assert(p[0] != '\x07' && p[0] != '\x1b');
        assert(bel[0] == p[0] && esc[0] == p[0]);
        assert(bel.drop_first() =~= rest + seq!['\x07'] + t);
        assert(esc.drop_first() =~= rest + seq!['\x1b', c] + t);
    }
}

/// Every other escape is two characters long, whatever the second one is; an
/// escape character at the end of a line stands alone.
pub proof fn law_short_escapes_take_one_character(c: char, t: Seq<char>)
    requires
        c != '[',
        c != ']',
    ensures
        stripped(seq!['\x1b', c] + t) == stripped(t),
        stripped(seq!['\x1b']) == Seq::<char>::empty(),
{
    let s = seq!['\x1b', c] + t;
    assert(s.drop_first().drop_first() =~= t);
    assert(s.drop_first()[0] == c);
    assert(seq!['\x1b'].drop_first().len() == 0);
}

/// The payload of a line begins at its first `{`, whatever stands before it, and
/// reaches to the end; a line without one has none.
pub proof fn law_the_payload_begins_at_the_first_brace(p: Seq<char>, t: Seq<char>)
    requires
        !p.contains('{'),
    ensures
        from_brace(p + seq!['{'] + t) == Some(seq!['{'] + t),
        from_brace(p) is None,
    decreases p.len(),
{
    let s = p + seq!['{'] + t;
    if p.len() == 0 {
        assert(s =~= seq!['{'] + t);
    } else {
        let rest = p.drop_first();
        assert(p.contains(p[0]));
        assert forall|i: int| 0 <= i < rest.len() implies rest[i] != '{' by {
            assert(p.contains(p[i + 1]));
        }
        law_the_payload_begins_at_the_first_brace(rest, t);
        assert(s.drop_first() =~= rest + seq!['{'] + t);
        assert(s[0] == p[0]);
    }
}

/// A line is what stands before its line feed, without one carriage return at
/// its end; up to 65536 bytes of it come out as its text, and what follows stays
/// buffered. A longer one comes out as oversized. Text that is valid is kept as
/// it is.
pub proof fn law_a_line_ends_at_its_line_feed(l: Seq<u8>, t: Seq<u8>)
    requires
        !l.contains(10u8),
    ensures
        (l.len() == 0 || l.last() != 13) && l.len() <= 65536 ==> decoded(false, l + seq![10u8] + t)
            == (Some(RawView::Line(line_text(l))), false, t),
        l.len() <= 65536 ==> decoded(false, l + seq![13u8, 10u8] + t) == (
            Some(RawView::Line(line_text(l))),
            false,
            t,
        ),
        (l.len() > 65536 && l.last() != 13) || l.len() > 65537 ==> decoded(
            false,
            l + seq![10u8] + t,
        ) == (Some(RawView::Oversized), false, t),
        vstd::utf8::valid_utf8(l) ==> line_text(l) == vstd::utf8::decode_utf8(l),
        !vstd::utf8::valid_utf8(l) ==> line_text(l) == lossy_text(l),
{
    lemma_line_end_found(l, seq![10u8] + t);
    let s = l + seq![10u8] + t;
    assert(s =~= l + (seq![10u8] + t));
    assert(s.take(l.len() as int) =~= l);
    assert(s.skip(l.len() as int + 1) =~= t);
    let cr = l.push(13u8);
    assert forall|i: int| 0 <= i < cr.len() implies cr[i] != 10u8 by {
        if i < l.len() {
            assert(l.contains(l[i]));
        }
    }
    lemma_line_end_found(cr, seq![10u8] + t);
    let u = l + seq![13u8, 10u8] + t;
    assert(u =~= cr + (seq![10u8] + t));
    assert(u.take(cr.len() as int) =~= cr);
    assert(u.skip(cr.len() as int + 1) =~= t);
    assert(cr.drop_last() =~= l);
}

proof fn lemma_line_end_found(l: Seq<u8>, t: Seq<u8>)
    requires
        !l.contains(10u8),
        t.len() == 0 || t[0] == 10,
    ensures
        line_end(l + t) == l.len(),
    decreases l.len(),
{
    if l.len() > 0 {
        let rest = l.drop_first();
        assert(l.contains(l[0]));
        assert forall|i: int| 0 <= i < rest.len() implies rest[i] != 10u8 by {
            assert(l.contains(l[i + 1]));
        }
        lemma_line_end_found(rest, t);
        assert((l + t).drop_first() =~= rest + t);
        assert((l + t)[0] == l[0]);
    } else {
        assert(l + t =~= t);
    }
}

/// Bytes without a line feed wait for it, up to 65536 of them; beyond that the
/// line is reported as oversized at once, and the rest of it is dropped up to
/// its line feed, after which framing goes on afresh.
pub proof fn law_an_unfinished_line_waits_or_is_dropped(l: Seq<u8>, t: Seq<u8>)
    requires
        !l.contains(10u8),
    ensures
        l.len() <= 65536 ==> decoded(false, l) == (None::<RawView>, false, l),
        l.len() > 65536 ==> decoded(false, l) == (
            Some(RawView::Oversized),
            true,
            Seq::<u8>::empty(),
        ),
        decoded(true, l) == (None::<RawView>, true, Seq::<u8>::empty()),
        decoded(true, l + seq![10u8] + t) == decoded(false, t),
{
    lemma_line_end_found(l, Seq::empty());
    assert(l + Seq::<u8>::empty() =~= l);
    lemma_line_end_found(l, seq![10u8] + t);
    assert(l + seq![10u8] + t =~= l + (seq![10u8] + t));
    assert((l + seq![10u8] + t).skip(l.len() as int + 1) =~= t);
}

/// At the end of the stream a last line without a line feed is a line too, with
/// all its bytes, unless it is empty or the tail of an oversized one; whatever
/// was complete comes out first, as before the end.
pub proof fn law_the_last_line_needs_no_line_feed(l: Seq<u8>, discarding: bool, b: Seq<u8>)
    requires
        !l.contains(10u8),
    ensures
        0 < l.len() <= 65536 ==> decoded_eof(false, l) == (
            Some(RawView::Line(line_text(l))),
            false,
            Seq::<u8>::empty(),
        ),
        l.len() == 0 ==> decoded_eof(false, l).0 is None,
        decoded_eof(true, l).0 is None,
        decoded(discarding, b).0 is Some ==> decoded_eof(discarding, b) == decoded(discarding, b),
{
    law_an_unfinished_line_waits_or_is_dropped(l, Seq::empty());
}

/// A channel with room takes the marker of what was lost, where anything was,
/// and behind it the item; nothing is pending then. A channel without room takes
/// nothing: the item joins what is lost, and no marker is forgotten. Where only
/// the item finds no room, the marker is out and one item is pending.
pub proof fn law_a_gap_is_reported_before_the_next_line(
    log: Seq<StreamEvent>,
    item: StreamEvent,
    lost: u64,
    any: SendOutcome,
)
    ensures
        lost > 0 ==> {
            let marker = StreamEvent::Dropped(lost);
            let out = |m: SendOutcome, s: SendOutcome|
                delivered(log, <StreamEvent as GapEvent>::gap(lost), item, lost, m, s);
            let tries = |m: SendOutcome|
                tried(log, <StreamEvent as GapEvent>::gap(lost), item, lost, m);
            &&& out(SendOutcome::Sent, SendOutcome::Sent) == log + seq![marker, item]
            &&& out(SendOutcome::Sent, SendOutcome::Full) == log + seq![marker]
            &&& out(SendOutcome::Full, any) == log
            &&& out(SendOutcome::Closed, any) == log
            &&& tries(SendOutcome::Sent) == log + seq![marker, item]
            &&& tries(SendOutcome::Full) == log + seq![marker]
            &&& tries(SendOutcome::Closed) == log + seq![marker]
            &&& settled(lost as int, SendOutcome::Sent, SendOutcome::Sent) == (0int, true)
            &&& settled(lost as int, SendOutcome::Sent, SendOutcome::Full) == (1int, true)
            &&& settled(lost as int, SendOutcome::Full, any) == (lost + 1, true)
            &&& !settled(lost as int, SendOutcome::Closed, any).1
            &&& !settled(lost as int, SendOutcome::Sent, SendOutcome::Closed).1
        },
        delivered(log, <StreamEvent as GapEvent>::gap(0), item, 0, any, SendOutcome::Sent) == log
            + seq![item],
        delivered(log, <StreamEvent as GapEvent>::gap(0), item, 0, any, SendOutcome::Full) == log,
        tried(log, <StreamEvent as GapEvent>::gap(0), item, 0, any) == log + seq![item],
        settled(0, any, SendOutcome::Sent) == (0int, true),
        settled(0, any, SendOutcome::Full) == (1int, true),
        !settled(0, any, SendOutcome::Closed).1,
{
    let marker = StreamEvent::Dropped(lost);
    assert(log.push(marker).push(item) =~= log + seq![marker, item]);
    assert(log.push(marker) =~= log + seq![marker]);
    assert(log.push(item) =~= log + seq![item]);
}

/// A line is handed on as it is exactly where it has no control character.
pub proof fn law_clean_lines_are_not_copied(raw: &str, r: Cow<'_, str>)
    requires
        call_ensures(strip_ansi, (raw,), r),
    ensures
        r is Borrowed <==> forall|i: int|
            0 <= i < raw@.len() ==> 0x20 <= (#[trigger] raw@[i]) as u32 <= 0x7e || 0xa0
                <= raw@[i] as u32,
        r is Borrowed ==> r@ == raw@,
{
    if clean(raw@) {
        law_clean_text_is_kept(raw@);
        assert forall|i: int| 0 <= i < raw@.len() implies 0x20 <= (#[trigger] raw@[i]) as u32
            <= 0x7e || 0xa0 <= raw@[i] as u32 by {
            assert(!text::spec_is_control(raw@[i]));
        }
    } else {
        let i = choose|i: int| 0 <= i < raw@.len() && text::spec_is_control(#[trigger] raw@[i]);
        assert(!(0x20 <= raw@[i] as u32 <= 0x7e || 0xa0 <= raw@[i] as u32));
    }
}

/// A buffer that holds a whole line of text gives out that line and keeps the
/// rest.
pub proof fn law_a_whole_line_comes_out(
    lines: &mut CappedLines,
    buf: &mut bytes::BytesMut,
    l: Seq<u8>,
    t: Seq<u8>,
    r: Option<RawLine>,
)
    requires
        !old(lines).is_discarding(),
        !l.contains(10u8),
        l.len() <= 65536,
        l.len() == 0 || l.last() != 13,
        vstd::utf8::valid_utf8(l),
        buffered(*old(buf)) == l + seq![10u8] + t,
        call_ensures(CappedLines::decode, (lines, buf), r),
    ensures
        r matches Some(RawLine::Line(s)) && s@ == vstd::utf8::decode_utf8(l),
        buffered(*final(buf)) == t,
        !final(lines).is_discarding(),
{
    law_a_line_ends_at_its_line_feed(l, t);
    assert(raw_option(r) == Some(RawView::Line(line_text(l))));
}

/// What is pumped on of a line is the line without its escapes; of an oversized
/// one nothing is.
pub proof fn law_lines_are_pumped_sanitized(raw: String, r: Option<String>, none: Option<String>)
    requires
        call_ensures(pump, (RawLine::Line(raw),), r),
        call_ensures(pump, (RawLine::Oversized,), none),
    ensures
        r matches Some(s) && s@ == stripped(raw@),
        none is None,
{
}

/// Whatever the channel does, a line that is offered comes behind all that the
/// channel took before, at most once, and behind a marker for all that was lost
/// before it; where it comes, nothing is pending, and where it does not, it is
/// counted as long as the receiver is there.
pub proof fn law_an_offer_keeps_the_order(
    forwarder: &mut BoundedForwarder<StreamEvent>,
    line: String,
    r: bool,
)
    requires
        old(forwarder).pending() < u64::MAX,
        call_ensures(
            BoundedForwarder::<StreamEvent>::offer,
            (forwarder, StreamEvent::Line(line)),
            r,
        ),
    ensures
        ({
            let before = old(forwarder).taken();
            let after = final(forwarder).taken();
            let lost = old(forwarder).pending();
            let item = StreamEvent::Line(line);
            let marker = StreamEvent::Dropped(lost);
            &&& after == before || after == before + seq![item] || after == before + seq![marker]
                || after == before + seq![marker, item]
            &&& lost == 0 ==> after == before || after == before + seq![item]
            &&& lost > 0 ==> after == before || after == before + seq![marker] || after == before
                + seq![marker, item]
            &&& after != before && after.last() == item ==> r && final(forwarder).pending() == 0
            &&& r && after == before ==> final(forwarder).pending() == lost + 1
            &&& r && lost > 0 && after == before + seq![marker] ==> final(forwarder).pending() == 1
        }),
{
    let before = old(forwarder).taken();
    let lost = old(forwarder).pending();
    let item = StreamEvent::Line(line);
    let gap = StreamEvent::Dropped(lost);
    assert(<StreamEvent as GapEvent>::gap(lost) == gap);
    let (marker, sent) = choose|marker: SendOutcome, sent: SendOutcome| #[trigger]
        settled(lost as int, marker, sent) == (final(forwarder).pending() as int, r) && final(forwarder).offered() == tried(
            old(forwarder).offered(),
            <StreamEvent as GapEvent>::gap(lost),
            item,
            lost,
            marker,
        ) && final(forwarder).taken() == delivered(
            before,
            <StreamEvent as GapEvent>::gap(lost),
            item,
            lost,
            marker,
            sent,
        );
    assert(before.push(gap).push(item) =~= before + seq![gap, item]);
    assert(before.push(gap) =~= before + seq![gap]);
    assert(before.push(item) =~= before + seq![item]);
    assert((before + seq![gap]).len() == before.len() + 1);
    assert((before + seq![item]).len() == before.len() + 1);
    assert((before + seq![gap, item]).len() == before.len() + 2);
    assert((before + seq![gap]).last() == gap);
}

/// What is lost adds up, and the last marker tells of all that is pending: of
/// nothing where nothing is.
pub proof fn law_losses_add_up(
    losing: &mut BoundedForwarder<StreamEvent>,
    n: u64,
    ending: BoundedForwarder<StreamEvent>,
    end: (tokio::sync::mpsc::Sender<StreamEvent>, Option<StreamEvent>),
)
    requires
        old(losing).pending() + n <= u64::MAX,
        call_ensures(BoundedForwarder::<StreamEvent>::lose, (losing, n), ()),
        call_ensures(BoundedForwarder::<StreamEvent>::finish, (ending,), end),
    ensures
        final(losing).pending() == old(losing).pending() + n,
        final(losing).taken() == old(losing).taken(),
        ending.pending() == 0 ==> end.1 is None,
        ending.pending() > 0 ==> end.1 == Some(StreamEvent::Dropped(ending.pending())),
{
}

} // verus!
