//! Content-Length framing of JSON-RPC messages over a byte stream, and how
//! an incoming message is routed.

use vstd::prelude::*;
use crate::chars::char_is_whitespace;
use crate::strings::{chars_to_string, extend_chars, extend_chars_str, str_to_chars, trim, trim_chars, trim_end, trim_start};

verus! {

/// The decimal digit for `d` (`0..=9`).
pub open spec fn digit_char(d: nat) -> char {
    (('0' as u32) + d) as char
}

/// The decimal representation of `n`, without leading zeros.
pub open spec fn decimal(n: nat) -> Seq<char>
    decreases n,
{
    if n < 10 {
        seq![digit_char(n)]
    } else {
        decimal(n / 10).push(digit_char(n % 10))
    }
}

/// The decimal digits of `n`.
pub fn decimal_chars(n: usize) -> (v: Vec<char>)
    ensures
        v@ == decimal(n as nat),
    decreases n,
{
    let d = n % 10;
    let c = ((d as u8) + 48) as char;
    proof {
        assert(c == digit_char((n % 10) as nat));
    }
    if n < 10 {
        let mut v = Vec::new();
        v.push(c);
        proof {
            assert(v@ =~= seq![c]);
        }
        v
    } else {
        let mut v = decimal_chars(n / 10);
        v.push(c);
        v
    }
}

/// The header that goes before a JSON-RPC body of `len` bytes:
/// `Content-Length: <len>` and a blank line.
pub open spec fn spec_message_header(len: nat) -> Seq<char> {
    "Content-Length: "@ + decimal(len) + "\r\n\r\n"@
}

/// The header to write before a message body of `len` bytes.
pub fn message_header(len: usize) -> (h: String)
    ensures
        h@ == spec_message_header(len as nat),
{
    let mut v: Vec<char> = Vec::new();
    extend_chars_str(&mut v, "Content-Length: ");
    let digits = decimal_chars(len);
    extend_chars(&mut v, digits.as_slice());
    extend_chars_str(&mut v, "\r\n\r\n");
    proof {
        assert(v@ =~= spec_message_header(len as nat));
    }
    chars_to_string(v.as_slice())
}

} // verus!

verus! {

/// The chars `String::from_utf8_lossy` decodes `bytes` to.
pub uninterp spec fn utf8_lossy(bytes: Seq<u8>) -> Seq<char>;

/// Whether every byte is ASCII.
pub open spec fn all_ascii(bytes: Seq<u8>) -> bool {
    forall|i: int| 0 <= i < bytes.len() ==> #[trigger] bytes[i] < 128
}

/// ASCII bytes read as the chars with the same numbers.
pub open spec fn ascii_chars(bytes: Seq<u8>) -> Seq<char> {
    bytes.map_values(|b: u8| b as char)
}

/// The text of a header line's bytes: ASCII bytes are their own chars, and
/// other input goes through the lossy UTF-8 decoding.
pub open spec fn lossy_text(bytes: Seq<u8>) -> Seq<char> {
    if all_ascii(bytes) {
        ascii_chars(bytes)
    } else {
        utf8_lossy(bytes)
    }
}

/// `String::from_utf8_lossy`, owned. Its result is `utf8_lossy` of the
/// bytes; it is empty exactly when the bytes are (every byte becomes part
/// of a char or of a U+FFFD replacement), and ASCII bytes, being valid
/// UTF-8, decode to the same-numbered chars.
#[verifier::external_body]
pub(crate) fn decode_lossy(bytes: &[u8]) -> (s: String)
    ensures
        s@ == utf8_lossy(bytes@),
        (s@.len() == 0) == (bytes@.len() == 0),
        all_ascii(bytes@) ==> s@ == ascii_chars(bytes@),
{
    String::from_utf8_lossy(bytes).into_owned()
}

/// Whether `c` is an ASCII decimal digit.
pub open spec fn is_digit(c: char) -> bool {
    '0' <= c <= '9'
}

/// The value of a string of decimal digits.
pub open spec fn digits_value(s: Seq<char>) -> nat
    decreases s.len(),
{
    if s.len() == 0 {
        0
    } else {
        digits_value(s.drop_last()) * 10 + ((s.last() as u32) - ('0' as u32)) as nat
    }
}

/// The part of `s` after an optional leading `+`.
pub open spec fn unsigned_digits(s: Seq<char>) -> Seq<char> {
    if s.len() > 0 && s[0] == '+' { s.drop_first() } else { s }
}

pub open spec fn all_digits(d: Seq<char>) -> bool {
    forall|i: int| 0 <= i < d.len() ==> is_digit(#[trigger] d[i])
}

/// `str::parse::<usize>`: an optional `+` followed by at least one decimal
/// digit and nothing else, with a value that fits in a `usize`.
pub open spec fn spec_parse_usize(s: Seq<char>) -> Option<usize> {
    let d = unsigned_digits(s);
    if d.len() > 0 && all_digits(d) && digits_value(d) <= usize::MAX {
        Some(digits_value(d) as usize)
    } else {
        None
    }
}

proof fn lemma_digits_value_prefix_le(d: Seq<char>, i: int)
    requires
        0 <= i <= d.len(),
        forall|j: int| 0 <= j < d.len() ==> is_digit(#[trigger] d[j]),
    ensures
        digits_value(d.take(i)) <= digits_value(d),
    decreases d.len() - i,
{
    if i < d.len() {
        lemma_digits_value_prefix_le(d, i + 1);
        assert(d.take(i + 1).drop_last() =~= d.take(i));
        assert(d.take(i + 1).last() == d[i]);
    } else {
        assert(d.take(i) =~= d);
    }
}

/// Parses a `usize` as `str::parse` does.
pub fn parse_usize(s: &[char]) -> (r: Option<usize>)
    ensures
        r == spec_parse_usize(s@),
{
    let start: usize = if s.len() > 0 && s[0] == '+' { 1 } else { 0 };
    let ghost d = unsigned_digits(s@);
    proof {
        assert(d =~= s@.skip(start as int));
    }
    if start >= s.len() {
        return None;
    }
    let mut value: usize = 0;
    let mut i: usize = start;
    let mut overflow = false;
    while i < s.len()
        invariant
            start <= i <= s@.len(),
            d == s@.skip(start as int),
            d == unsigned_digits(s@),
            d.len() > 0,
            forall|j: int| 0 <= j < i - start ==> is_digit(#[trigger] d[j]),
            !overflow ==> value == digits_value(d.take(i - start)),
            overflow ==> digits_value(d.take(i - start)) > usize::MAX,
        decreases s@.len() - i,
    {
        let c = s[i];
        if c < '0' || c > '9' {
            proof {
                assert(d[i - start] == c);
                assert(!is_digit(d[i - start]));
                assert(!all_digits(d));
            }
            return None;
        }
        proof {
            assert(d[i - start] == c);
            assert(d.take(i + 1 - start).drop_last() =~= d.take(i - start));
            assert(d.take(i + 1 - start).last() == c);
        }
        let digit = ((c as u32) - 48) as usize;
        if !overflow {
            match value.checked_mul(10) {
                Some(t) => match t.checked_add(digit) {
                    Some(v) => { value = v; },
                    None => { overflow = true; },
                },
                None => { overflow = true; },
            }
        }
        i += 1;
    }
    proof {
        assert(d.take(i - start) =~= d);
    }
    if overflow {
        proof {
            lemma_digits_value_prefix_le(d, d.len() as int);
        }
        None
    } else {
        Some(value)
    }
}

} // verus!

verus! {

/// What reading one more byte of a message's header section leads to.
#[derive(Debug, Clone, Copy, PartialEq, Eq, Structural)]
pub enum HeaderStep {
    /// Keep reading header bytes.
    Continue,
    /// The stream ended: there is no further message.
    Closed,
    /// The headers are done; the body of this many bytes follows.
    Body(usize),
}

/// Reads the `\r\n`-terminated header lines of a framed JSON-RPC message
/// one byte at a time, keeping the last `Content-Length` seen.
pub struct HeaderReader {
    line: Vec<u8>,
    content_length: Option<usize>,
}

pub struct HeaderReaderModel {
    /// The bytes of the header line read so far.
    pub line: Seq<u8>,
    /// The body length from the last `Content-Length` header so far.
    pub content_length: Option<usize>,
}

impl View for HeaderReader {
    type V = HeaderReaderModel;

    closed spec fn view(&self) -> HeaderReaderModel {
        HeaderReaderModel { line: self.line@, content_length: self.content_length }
    }
}

/// A completed header line's bytes without the `\r` before its `\n`.
pub open spec fn line_without_cr(line: Seq<u8>) -> Seq<u8> {
    if line.len() > 0 && line.last() == 13u8 { line.drop_last() } else { line }
}

/// The header line `Content-Length:` starts with.
pub open spec fn content_length_prefix() -> Seq<char> {
    "Content-Length:"@
}

/// The body length after reading header line `text`: a `Content-Length:`
/// line sets it to its trimmed value parsed as a `usize`, or 0 if that does
/// not parse; any other line leaves it.
pub open spec fn content_length_after(cl: Option<usize>, text: Seq<char>) -> Option<usize> {
    if text.len() >= 15 && text.take(15) == content_length_prefix() {
        Some(
            match spec_parse_usize(trim(text.skip(15))) {
                Some(v) => v,
                None => 0,
            },
        )
    } else {
        cl
    }
}

/// The reader after `feed`, and what it returned.
pub open spec fn feed_model(m: HeaderReaderModel, byte: Option<u8>) -> (HeaderReaderModel, HeaderStep) {
    match byte {
        None => (m, HeaderStep::Closed),
        Some(b) => if b == 10u8 {
            let text = lossy_text(line_without_cr(m.line));
            if text.len() == 0 {
                (
                    HeaderReaderModel { line: seq![], content_length: None },
                    HeaderStep::Body(
                        match m.content_length {
                            Some(n) => n,
                            None => 0,
                        },
                    ),
                )
            } else {
                (
                    HeaderReaderModel { line: seq![], content_length: content_length_after(m.content_length, text) },
                    HeaderStep::Continue,
                )
            }
        } else {
            (HeaderReaderModel { line: m.line.push(b), ..m }, HeaderStep::Continue)
        },
    }
}

impl HeaderReader {
    pub fn new() -> (r: Self)
        ensures
            r@ == (HeaderReaderModel { line: seq![], content_length: None }),
    {
        HeaderReader { line: Vec::new(), content_length: None }
    }

    /// Reads one more byte of the header section, or `None` at the end of
    /// the stream. A blank line ends the headers and gives the body length
    /// (0 without a `Content-Length` header), and the reader starts over
    /// for the next message.
    pub fn feed(&mut self, byte: Option<u8>) -> (step: HeaderStep)
        ensures
            (final(self)@, step) == feed_model(old(self)@, byte),
    {
        let b = match byte {
            None => return HeaderStep::Closed,
            Some(b) => b,
        };
        if b != 10u8 {
            self.line.push(b);
            return HeaderStep::Continue;
        }
        let n = self.line.len();
        if n > 0 && self.line[n - 1] == 13u8 {
            self.line.pop();
        }
        proof {
            assert(self.line@ =~= line_without_cr(old(self)@.line));
        }
        let text = decode_lossy(self.line.as_slice());
        self.line = Vec::new();
        let chars = str_to_chars(text.as_str());
        if chars.len() == 0 {
            let len = match self.content_length {
                Some(n) => n,
                None => 0,
            };
            self.content_length = None;
            return HeaderStep::Body(len);
        }
        if chars.len() >= 15 {
            let head = crate::strings::take_chars(chars.as_slice(), 15);
            if crate::strings::chars_eq_str(head.as_slice(), "Content-Length:") {
                let mut rest: Vec<char> = Vec::new();
                let mut i: usize = 15;
                while i < chars.len()
                    invariant
                        15 <= i <= chars@.len(),
                        rest@ == chars@.subrange(15, i as int),
                    decreases chars@.len() - i,
                {
                    rest.push(chars[i]);
                    i += 1;
                    proof {
                        assert(rest@ =~= chars@.subrange(15, i as int));
                    }
                }
                proof {
                    assert(rest@ =~= chars@.skip(15));
                }
                let value = trim_chars(rest.as_slice());
                self.content_length = Some(
                    match parse_usize(value.as_slice()) {
                        Some(v) => v,
                        None => 0,
                    },
                );
            }
        }
        HeaderStep::Continue
    }
}

/// Where an incoming message goes.
#[derive(Debug, Clone, Copy, PartialEq, Eq, Structural)]
pub enum Route {
    /// The response to the request with this id: an error response if
    /// `is_error`, else a result.
    Response { id: i64, is_error: bool },
    /// A notification or server-to-client request, by its method name.
    Notification,
    /// Neither: dropped.
    Drop,
}

/// Routes a message from what it holds: an integer `id`, whether it has a
/// `method` key, whether that method is a string, and whether it has an
/// `error` key. A message with an integer id and no method is a response;
/// otherwise one with a string method is a notification.
pub fn route_message(id: Option<i64>, has_method: bool, method_is_string: bool, has_error: bool) -> (r: Route)
    ensures
        r == (if id is Some && !has_method {
            Route::Response { id: id->0, is_error: has_error }
        } else if method_is_string {
            Route::Notification
        } else {
            Route::Drop
        }),
{
    if let Some(id) = id {
        if !has_method {
            return Route::Response { id, is_error: has_error };
        }
    }
    if method_is_string {
        Route::Notification
    } else {
        Route::Drop
    }
}

} // verus!

verus! {

/// A reader that has read nothing of the current message.
pub open spec fn fresh_reader() -> HeaderReaderModel {
    HeaderReaderModel { line: seq![], content_length: None }
}

/// The reader after each of `bytes` in turn, and what the last one gave.
pub open spec fn feed_all(m: HeaderReaderModel, bytes: Seq<u8>) -> (HeaderReaderModel, HeaderStep)
    decreases bytes.len(),
{
    if bytes.len() == 0 {
        (m, HeaderStep::Continue)
    } else {
        feed_model(feed_all(m, bytes.drop_last()).0, Some(bytes.last()))
    }
}

/// The bytes of an ASCII text.
pub open spec fn ascii_bytes(s: Seq<char>) -> Seq<u8> {
    s.map_values(|c: char| c as u8)
}

proof fn lemma_digit_char(k: nat)
    requires
        k < 10,
    ensures
        digit_char(k) as u32 == 48 + k,
        is_digit(digit_char(k)),
{
}

proof fn lemma_decimal_digits(n: nat)
    ensures
        decimal(n).len() > 0,
        all_digits(decimal(n)),
        digits_value(decimal(n)) == n,
    decreases n,
{
    lemma_digit_char(n % 10);
    if n < 10 {
        let d = decimal(n);
        assert(d.drop_last() =~= Seq::<char>::empty());
        assert(digits_value(d.drop_last()) == 0);
        assert(d.last() == digit_char(n));
        assert(('0' as u32) == 48);
        assert(digits_value(d) == n);
    } else {
        lemma_decimal_digits(n / 10);
        let d = decimal(n);
        assert(d.drop_last() =~= decimal(n / 10));
        assert(d.last() == digit_char(n % 10));
        assert((digit_char(n % 10) as u32) == 48 + n % 10);
        assert(digits_value(d) == digits_value(decimal(n / 10)) * 10 + n % 10);
        assert(n == (n / 10) * 10 + n % 10);
        assert forall|i: int| 0 <= i < d.len() implies is_digit(#[trigger] d[i]) by {
            if i < d.len() - 1 {
                assert(d[i] == decimal(n / 10)[i]);
            }
        }
    }
}

proof fn lemma_parse_decimal(n: usize)
    ensures
        spec_parse_usize(decimal(n as nat)) == Some(n),
        trim(" "@ + decimal(n as nat)) == decimal(n as nat),
{
    let d = decimal(n as nat);
    lemma_decimal_digits(n as nat);
    assert(is_digit(d[0]));
    assert(unsigned_digits(d) == d);
    reveal_strlit(" ");
    let sd = " "@ + d;
    assert(sd.drop_first() =~= d);
    assert(char_is_whitespace(sd[0]));
    assert(!char_is_whitespace(d[0]));
    assert(trim_start(d) == d);
    assert(trim_start(sd) == d);
    assert(is_digit(d.last()));
    assert(!char_is_whitespace(d.last()));
    assert(trim_end(d) == d);
}

proof fn lemma_ascii_char(c: char)
    requires
        (c as u32) < 128,
    ensures
        (c as u8) < 128,
        ((c as u8) as char) == c,
{
    assert((c as u32) as int == c as int);
}

proof fn lemma_ascii_round_trip(s: Seq<char>)
    requires
        forall|i: int| 0 <= i < s.len() ==> (#[trigger] s[i] as u32) < 128,
    ensures
        all_ascii(ascii_bytes(s)),
        ascii_chars(ascii_bytes(s)) == s,
{
    let b = ascii_bytes(s);
    assert forall|i: int| 0 <= i < b.len() implies #[trigger] b[i] < 128 by {
        assert(b[i] == s[i] as u8);
        lemma_ascii_char(s[i]);
    }
    assert forall|i: int| 0 <= i < s.len() implies #[trigger] ascii_chars(b)[i] == s[i] by {
        assert(b[i] == s[i] as u8);
        lemma_ascii_char(s[i]);
        assert(ascii_chars(b)[i] == b[i] as char);
    }
    assert(ascii_chars(b) =~= s);
}

/// The header's length line: every byte of it reads on, and after its
/// line break the reader holds the length and an empty line.
proof fn lemma_length_line(n: usize)
    ensures
        ({
            let h = ascii_bytes(spec_message_header(n as nat));
            let ll = 16 + decimal(n as nat).len() as int;
            &&& h.len() == ll + 4
            &&& h[ll + 2] == 13u8
            &&& h[ll + 3] == 10u8
            &&& forall|k: int| 0 < k <= ll + 1 ==> (#[trigger] feed_all(fresh_reader(), h.take(k))).1 == HeaderStep::Continue
            &&& feed_all(fresh_reader(), h.take(ll + 2)) == (
                HeaderReaderModel { line: seq![], content_length: Some(n) },
                HeaderStep::Continue,
            )
            &&& h.take(ll + 2) == ascii_bytes("Content-Length: "@ + decimal(n as nat) + "\r\n"@)
        }),
{
    reveal_strlit("Content-Length: ");
    reveal_strlit("Content-Length:");
    reveal_strlit("\r\n\r\n");
    reveal_strlit("\r\n");
    let d = decimal(n as nat);
    lemma_decimal_digits(n as nat);
    let line = "Content-Length: "@ + d;
    let c = spec_message_header(n as nat);
    assert(c =~= line + "\r\n\r\n"@);
    let h = ascii_bytes(c);
    let ll = line.len() as int;
    assert forall|i: int| 0 <= i < c.len() implies (#[trigger] c[i] as u32) < 128 by {
        if i >= 16 && i < ll {
            assert(is_digit(d[i - 16]));
        }
    }
    assert forall|i: int| 0 <= i < ll implies #[trigger] h[i] != 10u8 by {
        if i >= 16 {
            assert(is_digit(d[i - 16]));
        }
    }
    assert(h[ll] == 13u8);
    assert(h[ll + 1] == 10u8);
    assert(h[ll + 2] == 13u8);
    assert(h[ll + 3] == 10u8);
    // the header line, byte by byte, then its `\r`
    assert forall|k: int| 0 <= k <= ll + 1 implies #[trigger] feed_all(fresh_reader(), h.take(k)) == (
        if k == 0 {
            (fresh_reader(), HeaderStep::Continue)
        } else {
            (HeaderReaderModel { line: h.take(k), content_length: None }, HeaderStep::Continue)
        }) by {
        lemma_feed_plain(h, k, ll + 1);
    }
    // the line's `\n`
    let text = lossy_text(line_without_cr(h.take(ll + 1)));
    assert(h.take(ll + 1).drop_last() =~= h.take(ll));
    lemma_ascii_round_trip(c);
    assert(h.take(ll) =~= ascii_bytes(line));
    assert(all_ascii(h.take(ll)));
    assert(ascii_chars(h.take(ll)) =~= line);
    assert(text == line);
    assert(line.take(15) =~= "Content-Length:"@);
    assert(line.skip(15) =~= " "@ + d) by {
        reveal_strlit(" ");
    }
    lemma_parse_decimal(n);
    assert(content_length_after(None, text) == Some(n));
    assert(h.take(ll + 2).drop_last() =~= h.take(ll + 1));
    assert(h.take(ll + 2).last() == 10u8);
    assert(feed_all(fresh_reader(), h.take(ll + 1)) == (
        HeaderReaderModel { line: h.take(ll + 1), content_length: None },
        HeaderStep::Continue,
    ));
    assert(h.take(ll + 1).last() == 13u8);
    assert(line_without_cr(h.take(ll + 1)) == h.take(ll));
    assert(h.take(ll + 2) =~= ascii_bytes(line + "\r\n"@));
}

/// Framing round trip: a reader fed the header that `message_header(n)`
/// writes reads on through every byte but the last, and the last gives the
/// body length `n` and leaves the reader fresh for the next message.
pub proof fn law_header_frames_body(n: usize)
    ensures
        feed_all(fresh_reader(), ascii_bytes(spec_message_header(n as nat))) == (
        fresh_reader(),
        HeaderStep::Body(n),
        ),
        forall|k: int|
            0 < k < ascii_bytes(spec_message_header(n as nat)).len() ==> (#[trigger] feed_all(
                fresh_reader(),
                ascii_bytes(spec_message_header(n as nat)).take(k),
            )).1 == HeaderStep::Continue,
{
    lemma_length_line(n);
    let h = ascii_bytes(spec_message_header(n as nat));
    let ll = 16 + decimal(n as nat).len() as int;
    let m2 = HeaderReaderModel { line: seq![], content_length: Some(n) };
    // the blank line
    assert(h.take(ll + 3).drop_last() =~= h.take(ll + 2));
    assert(h.take(ll + 3).last() == 13u8);
    let m3 = HeaderReaderModel { line: seq![13u8], content_length: Some(n) };
    assert(seq![].push(13u8) =~= seq![13u8]);
    assert(feed_all(fresh_reader(), h.take(ll + 3)) == (m3, HeaderStep::Continue));
    assert(h.take(ll + 4) =~= h);
    assert(h.drop_last() =~= h.take(ll + 3));
    assert(line_without_cr(seq![13u8]) =~= Seq::<u8>::empty());
    assert(lossy_text(Seq::<u8>::empty()) =~= Seq::<char>::empty());
    assert(fresh_reader().line =~= Seq::<u8>::empty());
    assert forall|k: int| 0 < k < h.len() implies (#[trigger] feed_all(fresh_reader(), h.take(k))).1 == HeaderStep::Continue by {
        if k > ll + 1 {
            assert(k == ll + 2 || k == ll + 3);
        }
    }
}

proof fn lemma_feed_plain(h: Seq<u8>, k: int, upto: int)
    requires
        0 <= k <= upto <= h.len(),
        forall|i: int| 0 <= i < upto ==> #[trigger] h[i] != 10u8,
    ensures
        feed_all(fresh_reader(), h.take(k)) == (if k == 0 {
            (fresh_reader(), HeaderStep::Continue)
        } else {
            (HeaderReaderModel { line: h.take(k), content_length: None }, HeaderStep::Continue)
        }),
    decreases k,
{
    if k == 0 {
        assert(h.take(0) =~= Seq::<u8>::empty());
    } else {
        lemma_feed_plain(h, k - 1, upto);
        assert(h.take(k).drop_last() =~= h.take(k - 1));
        assert(h.take(k).last() == h[k - 1]);
        if k == 1 {
            assert(fresh_reader().line.push(h[0]) =~= h.take(1));
        } else {
            assert(h.take(k - 1).push(h[k - 1]) =~= h.take(k));
        }
    }
}

proof fn lemma_feed_all_concat(m: HeaderReaderModel, a: Seq<u8>, b: Seq<u8>)
    requires
        b.len() > 0,
    ensures
        feed_all(m, a + b) == feed_all(feed_all(m, a).0, b),
    decreases b.len(),
{
    let ma = feed_all(m, a).0;
    assert((a + b).drop_last() =~= a + b.drop_last());
    assert((a + b).last() == b.last());
    assert(feed_all(m, a + b) == feed_model(feed_all(m, a + b.drop_last()).0, Some(b.last())));
    assert(feed_all(ma, b) == feed_model(feed_all(ma, b.drop_last()).0, Some(b.last())));
    if b.len() > 1 {
        lemma_feed_all_concat(m, a, b.drop_last());
    } else {
        assert(a + b.drop_last() =~= a);
        assert(b.drop_last() =~= Seq::<u8>::empty());
        assert(feed_all(ma, b.drop_last()).0 == ma);
    }
}

proof fn lemma_feed_line_bytes(m: HeaderReaderModel, b: Seq<u8>)
    requires
        forall|i: int| 0 <= i < b.len() ==> #[trigger] b[i] != 10u8,
    ensures
        feed_all(m, b).0 == (HeaderReaderModel { line: m.line + b, content_length: m.content_length }),
        b.len() > 0 ==> feed_all(m, b).1 == HeaderStep::Continue,
    decreases b.len(),
{
    if b.len() == 0 {
        assert(m.line + b =~= m.line);
    } else {
        lemma_feed_line_bytes(m, b.drop_last());
        assert(b.last() == b[b.len() - 1]);
        assert((m.line + b.drop_last()).push(b.last()) =~= m.line + b);
    }
}

/// Whether a header line's text starts with `Content-Length:`.
pub open spec fn is_length_line(text: Seq<char>) -> bool {
    text.len() >= 15 && text.take(15) == "Content-Length:"@
}

/// A header line other than `Content-Length:` (any non-blank line that
/// does not start with it, ended by `\n` with or without `\r`) leaves the
/// body length the reader has recorded as it was, and the reader reads on.
pub proof fn law_other_header_keeps_length(m: HeaderReaderModel, line: Seq<u8>)
    requires
        m.line.len() == 0,
        forall|i: int| 0 <= i < line.len() ==> #[trigger] line[i] != 10u8,
        lossy_text(line_without_cr(line)).len() > 0,
        !is_length_line(lossy_text(line_without_cr(line))),
    ensures
        feed_all(m, line.push(10u8)) == (
            HeaderReaderModel { line: seq![], content_length: m.content_length },
            HeaderStep::Continue,
        ),
{
    reveal_strlit("Content-Length:");
    lemma_feed_line_bytes(m, line);
    assert(m.line + line =~= line);
    assert(line.push(10u8).drop_last() =~= line);
}

/// The body length survives the other header lines: after the length line
/// that `message_header(n)` starts with, any header line that is not a
/// `Content-Length:` line, then the blank line, the reader gives `Body(n)`
/// and is fresh again.
pub proof fn law_length_survives_other_headers(n: usize, other: Seq<u8>)
    requires
        forall|i: int| 0 <= i < other.len() ==> #[trigger] other[i] != 10u8,
        lossy_text(line_without_cr(other)).len() > 0,
        !is_length_line(lossy_text(line_without_cr(other))),
    ensures
        feed_all(
            fresh_reader(),
            ascii_bytes("Content-Length: "@ + decimal(n as nat) + "\r\n"@) + other.push(10u8) + seq![13u8, 10u8],
        ) == (fresh_reader(), HeaderStep::Body(n)),
{
    lemma_length_line(n);
    let first = ascii_bytes("Content-Length: "@ + decimal(n as nat) + "\r\n"@);
    let m2 = HeaderReaderModel { line: seq![], content_length: Some(n) };
    assert(feed_all(fresh_reader(), first).0 == m2);
    law_other_header_keeps_length(m2, other);
    lemma_feed_all_concat(fresh_reader(), first, other.push(10u8));
    let blank = seq![13u8, 10u8];
    lemma_feed_all_concat(fresh_reader(), first + other.push(10u8), blank);
    assert(feed_all(fresh_reader(), first + other.push(10u8)).0 == m2);
    assert(blank.drop_last() =~= seq![13u8]);
    assert(seq![13u8].drop_last() =~= Seq::<u8>::empty());
    assert(m2.line.push(13u8) =~= seq![13u8]);
    let m3 = HeaderReaderModel { line: seq![13u8], content_length: Some(n) };
    assert(feed_all(m2, Seq::<u8>::empty()).0 == m2);
    assert(feed_all(m2, seq![13u8]).0 == m3);
    assert(feed_all(m2, blank) == feed_model(m3, Some(10u8)));
    assert(line_without_cr(seq![13u8]) =~= Seq::<u8>::empty());
    assert(lossy_text(Seq::<u8>::empty()) =~= Seq::<char>::empty());
    assert(fresh_reader().line =~= Seq::<u8>::empty());
}

} // verus!
