//! Reading a request: when the header section is complete, how the body is
//! framed, and the decoder for a chunked body. The caller reads the socket
//! and feeds what arrives; these functions decide.

use vstd::prelude::*;
use crate::bytes::{eq_ignore_case, bytes_eq_ignore_case, LF, CR};
use crate::error::ErrorToken;
use crate::request::{Header, headers_view, header_lookup, find_header};

verus! {

/// What to do after a read of the header section.
#[derive(Clone, Copy, Debug, PartialEq, Eq, Structural)]
pub enum HeaderProgress {
    /// Read on.
    Continue,
    /// The section ends with CR LF CR LF.
    Complete,
    /// Nothing arrived: close without a response.
    CloseSilently,
    Failed(ErrorToken),
}

pub open spec fn ends_with_blank_line(s: Seq<u8>) -> bool {
    s.len() >= 4 && s[s.len() - 4] == CR && s[s.len() - 3] == LF && s[s.len() - 2] == CR
        && s[s.len() - 1] == LF
}

/// Decides on the header section read so far. `timed_out` says that the
/// connection's deadline has passed, `eof` that the peer closed.
pub fn header_progress(buf: &[u8], timed_out: bool, eof: bool) -> (r: HeaderProgress)
    ensures
        r == (if ends_with_blank_line(buf@) {
            HeaderProgress::Complete
        } else if (timed_out || eof) && buf@.len() == 0 {
            HeaderProgress::CloseSilently
        } else if timed_out {
            HeaderProgress::Failed(ErrorToken::HeadersReadTimeout)
        } else if eof {
            HeaderProgress::Failed(ErrorToken::HeadersReadingStream)
        } else {
            HeaderProgress::Continue
        }),
{
    let n = buf.len();
    if n >= 4 && buf[n - 4] == CR && buf[n - 3] == LF && buf[n - 2] == CR && buf[n - 1] == LF {
        HeaderProgress::Complete
    } else if (timed_out || eof) && n == 0 {
        HeaderProgress::CloseSilently
    } else if timed_out {
        HeaderProgress::Failed(ErrorToken::HeadersReadTimeout)
    } else if eof {
        HeaderProgress::Failed(ErrorToken::HeadersReadingStream)
    } else {
        HeaderProgress::Continue
    }
}

/// How the body of a request is delimited.
#[derive(Clone, Copy, Debug, PartialEq, Eq, Structural)]
pub enum Framing {
    Chunked,
    /// Exactly this many bytes, as `Content-Length` says.
    Length(usize),
    /// No length given: whatever arrives before a short deadline.
    Dirty,
}

pub open spec fn is_digit(b: u8) -> bool {
    48 <= b <= 57
}

pub open spec fn is_decimal(s: Seq<u8>) -> bool {
    s.len() > 0 && forall|i: int| 0 <= i < s.len() ==> is_digit(#[trigger] s[i])
}

pub open spec fn decimal_value(s: Seq<u8>) -> nat
    decreases s.len(),
{
    if s.len() == 0 { 0 } else { decimal_value(s.drop_last()) * 10 + (s.last() - 48) as nat }
}

pub open spec fn transfer_encoding_name() -> Seq<u8> {
    seq![116u8, 114, 97, 110, 115, 102, 101, 114, 45, 101, 110, 99, 111, 100, 105, 110, 103]
}

pub open spec fn chunked_word() -> Seq<u8> {
    seq![99u8, 104, 117, 110, 107, 101, 100]
}

pub open spec fn content_length_name() -> Seq<u8> {
    seq![99u8, 111, 110, 116, 101, 110, 116, 45, 108, 101, 110, 103, 116, 104]
}

/// The framing that the headers announce under a body limit of `limit`.
pub open spec fn framing_spec(hs: Seq<(Seq<u8>, Seq<u8>)>, limit: nat) -> Result<Framing, ErrorToken> {
    let te = header_lookup(hs, transfer_encoding_name());
    if te is Some && eq_ignore_case(te->0, chunked_word()) {
        Ok(Framing::Chunked)
    } else {
        match header_lookup(hs, content_length_name()) {
            None => Ok(Framing::Dirty),
            Some(v) => if !is_decimal(v) {
                Err(ErrorToken::HeadersFailedToParse)
            } else if decimal_value(v) > limit {
                Err(ErrorToken::BodySizeLimit)
            } else {
                Ok(Framing::Length(decimal_value(v) as usize))
            },
        }
    }
}

/// Reads a `Content-Length` value: `None` where it is not decimal; a value
/// over `limit` is reported as `Err(())`.
fn parse_length(v: &[u8], limit: usize) -> (r: Option<Result<usize, ()>>)
    ensures
        r is None <==> !is_decimal(v@),
        r matches Some(Ok(n)) ==> n == decimal_value(v@) && n <= limit,
        r matches Some(Err(_)) ==> decimal_value(v@) > limit,
{
    if v.len() == 0 {
        return None;
    }
    let mut i: usize = 0;
    while i < v.len()
        invariant
            i <= v@.len(),
            forall|k: int| 0 <= k < i ==> is_digit(#[trigger] v@[k]),
        decreases v@.len() - i,
    {
        if !(48 <= v[i] && v[i] <= 57) {
            return None;
        }
        i += 1;
    }
    let mut acc: usize = 0;
    let mut over = false;
    let mut j: usize = 0;
    assert(v@.subrange(0, 0).len() == 0);
    while j < v.len()
        invariant
            j <= v@.len(),
            is_decimal(v@),
            !over ==> acc == decimal_value(v@.subrange(0, j as int)) && acc <= limit,
            over ==> decimal_value(v@.subrange(0, j as int)) > limit,
        decreases v@.len() - j,
    {
        let ghost pre = v@.subrange(0, j as int);
        assert(v@.subrange(0, j + 1).drop_last() =~= pre);
        assert(is_digit(v@[j as int]));
        let d = (v[j] - 48) as usize;
        if !over {
            match acc.checked_mul(10) {
                Some(t) => match t.checked_add(d) {
                    Some(u) => {
                        if u > limit {
                            over = true;
                        } else {
                            acc = u;
                        }
                    },
                    None => { over = true; },
                },
                None => { over = true; },
            }
        }
        j += 1;
    }
    assert(v@.subrange(0, v@.len() as int) =~= v@);
    if over { Some(Err(())) } else { Some(Ok(acc)) }
}

/// The body framing of a request whose parsed headers are `hs`:
/// `Transfer-Encoding: chunked` (in any case) first, then a decimal
/// `Content-Length`, which must not exceed `limit`, else no framing at all.
pub fn body_framing(hs: &Vec<Header>, limit: usize) -> (r: Result<Framing, ErrorToken>)
    ensures
        r == framing_spec(headers_view(hs@), limit as nat),
        r matches Ok(Framing::Length(n)) ==> n <= limit,
{
    let te_name: [u8; 17] = [116, 114, 97, 110, 115, 102, 101, 114, 45, 101, 110, 99, 111, 100, 105, 110, 103];
    let chunked: [u8; 7] = [99, 104, 117, 110, 107, 101, 100];
    let cl_name: [u8; 14] = [99, 111, 110, 116, 101, 110, 116, 45, 108, 101, 110, 103, 116, 104];
    assert(te_name@ =~= transfer_encoding_name());
    assert(chunked@ =~= chunked_word());
    assert(cl_name@ =~= content_length_name());
    let te = find_header(hs, te_name.as_slice());
    if let Some(v) = te {
        if bytes_eq_ignore_case(v.as_slice(), chunked.as_slice()) {
            return Ok(Framing::Chunked);
        }
    }
    match find_header(hs, cl_name.as_slice()) {
        None => Ok(Framing::Dirty),
        Some(v) => match parse_length(v.as_slice(), limit) {
            None => Err(ErrorToken::HeadersFailedToParse),
            Some(Err(_)) => Err(ErrorToken::BodySizeLimit),
            Some(Ok(n)) => Ok(Framing::Length(n)),
        },
    }
}

/// What to do after a read of an unchunked body.
#[derive(Clone, Copy, Debug, PartialEq, Eq, Structural)]
pub enum BodyProgress {
    Continue,
    Finished,
    Failed(ErrorToken),
}

/// Decides on an unchunked body of which `received` bytes have arrived.
/// `timed_out`: the connection's deadline passed; `dirty_timed_out`: the
/// short deadline for a body without length passed; `eof`: the peer closed.
pub open spec fn unchunked_spec(
    framing: Framing,
    received: nat,
    limit: nat,
    timed_out: bool,
    dirty_timed_out: bool,
    eof: bool,
) -> BodyProgress {
    if received > limit {
        BodyProgress::Failed(ErrorToken::BodySizeLimit)
    } else {
        match framing {
            Framing::Length(n) => if received == n {
                BodyProgress::Finished
            } else if received > n {
                BodyProgress::Failed(ErrorToken::BodyBufferLengthExceedsContentLength)
            } else if timed_out {
                BodyProgress::Failed(ErrorToken::BodyReadTimeout)
            } else if eof {
                BodyProgress::Failed(ErrorToken::BodyReadingStream)
            } else {
                BodyProgress::Continue
            },
            _ => if eof {
                BodyProgress::Finished
            } else if timed_out {
                BodyProgress::Failed(ErrorToken::BodyReadTimeout)
            } else if dirty_timed_out {
                if received == 0 {
                    BodyProgress::Finished
                } else {
                    BodyProgress::Failed(ErrorToken::DirtyBodyReadTimeout)
                }
            } else {
                BodyProgress::Continue
            },
        }
    }
}

/// The decision for an unchunked body; a body never grows past `limit`
/// without failing.
pub fn unchunked_progress(
    framing: Framing,
    received: usize,
    limit: usize,
    timed_out: bool,
    dirty_timed_out: bool,
    eof: bool,
) -> (r: BodyProgress)
    ensures
        r == unchunked_spec(framing, received as nat, limit as nat, timed_out, dirty_timed_out, eof),
        r != BodyProgress::Failed(ErrorToken::BodySizeLimit) ==> received <= limit,
{
    if received > limit {
        return BodyProgress::Failed(ErrorToken::BodySizeLimit);
    }
    match framing {
        Framing::Length(n) => if received == n {
            BodyProgress::Finished
        } else if received > n {
            BodyProgress::Failed(ErrorToken::BodyBufferLengthExceedsContentLength)
        } else if timed_out {
            BodyProgress::Failed(ErrorToken::BodyReadTimeout)
        } else if eof {
            BodyProgress::Failed(ErrorToken::BodyReadingStream)
        } else {
            BodyProgress::Continue
        },
        _ => if eof {
            BodyProgress::Finished
        } else if timed_out {
            BodyProgress::Failed(ErrorToken::BodyReadTimeout)
        } else if dirty_timed_out {
            if received == 0 {
                BodyProgress::Finished
            } else {
                BodyProgress::Failed(ErrorToken::DirtyBodyReadTimeout)
            }
        } else {
            BodyProgress::Continue
        },
    }
}

/// A body of exactly the limit is read to the end; one byte more is
/// refused with 413, whether announced by `Content-Length` or arriving
/// without one.
pub proof fn lemma_body_limit_boundary(hs: Seq<(Seq<u8>, Seq<u8>)>, limit: usize)
    requires
        !(header_lookup(hs, transfer_encoding_name()) is Some
            && eq_ignore_case(header_lookup(hs, transfer_encoding_name())->0, chunked_word())),
        header_lookup(hs, content_length_name()) matches Some(v) && is_decimal(v),
    ensures
        decimal_value(header_lookup(hs, content_length_name())->0) == limit ==> framing_spec(hs, limit as nat)
            == Ok::<Framing, ErrorToken>(Framing::Length(limit)),
        decimal_value(header_lookup(hs, content_length_name())->0) == limit + 1 ==> framing_spec(hs, limit as nat)
            == Err::<Framing, ErrorToken>(ErrorToken::BodySizeLimit),
        unchunked_spec(Framing::Length(limit), limit as nat, limit as nat, false, false, false) == BodyProgress::Finished,
        unchunked_spec(Framing::Dirty, (limit + 1) as nat, limit as nat, false, false, false)
            == BodyProgress::Failed(ErrorToken::BodySizeLimit),
{
}

/// Where a chunked-body decoder stands.
#[derive(Clone, Copy, Debug, PartialEq, Eq, Structural)]
pub enum ChunkPhase {
    /// Reading the hex digits of a chunk size.
    Size,
    /// After the size's CR, expecting LF.
    SizeLf,
    /// Reading chunk payload.
    Data,
    /// After the payload, expecting CR.
    DataCr,
    /// After the payload's CR, expecting LF.
    DataLf,
    /// After the last chunk's size line, expecting the final CR.
    LastCr,
    /// Expecting the final LF.
    LastLf,
    Done,
    Failed(ErrorToken),
}

pub struct DecoderView {
    pub phase: ChunkPhase,
    pub size: nat,
    pub digits: bool,
    pub remaining: nat,
    pub body: Seq<u8>,
    pub limit: nat,
}

pub open spec fn is_hex_digit(b: u8) -> bool {
    (48 <= b <= 57) || (65 <= b <= 70) || (97 <= b <= 102)
}

pub open spec fn hex_value(b: u8) -> nat {
    if 48 <= b <= 57 {
        (b - 48) as nat
    } else if 65 <= b <= 70 {
        (b - 55) as nat
    } else {
        (b - 87) as nat
    }
}

pub open spec fn fail(d: DecoderView, e: ErrorToken) -> DecoderView {
    DecoderView { phase: ChunkPhase::Failed(e), ..d }
}

/// One byte of a chunked body: `<hex size> CRLF <size bytes> CRLF`, repeated,
/// ended by a zero size, CRLF and CRLF.
pub open spec fn step(d: DecoderView, b: u8) -> DecoderView {
    match d.phase {
        ChunkPhase::Size => if is_hex_digit(b) {
            let v = d.size * 16 + hex_value(b);
            if v > usize::MAX {
                fail(d, ErrorToken::BodyChunkSizeParse)
            } else {
                DecoderView { size: v, digits: true, ..d }
            }
        } else if b == CR && d.digits {
            DecoderView { phase: ChunkPhase::SizeLf, ..d }
        } else {
            fail(d, ErrorToken::BodyChunkSizeParse)
        },
        ChunkPhase::SizeLf => if b != LF {
            fail(d, ErrorToken::BodyChunkSizeParse)
        } else if d.size == 0 {
            if d.body.len() == 0 {
                fail(d, ErrorToken::BodyChunkedButZeroSum)
            } else {
                DecoderView { phase: ChunkPhase::LastCr, ..d }
            }
        } else if d.body.len() + d.size > d.limit {
            fail(d, ErrorToken::BodySizeLimit)
        } else {
            DecoderView { phase: ChunkPhase::Data, remaining: d.size, ..d }
        },
        ChunkPhase::Data => DecoderView {
            phase: if d.remaining <= 1 { ChunkPhase::DataCr } else { ChunkPhase::Data },
            remaining: (d.remaining - 1) as nat,
            body: d.body.push(b),
            ..d
        },
        ChunkPhase::DataCr => if b == CR {
            DecoderView { phase: ChunkPhase::DataLf, ..d }
        } else {
            fail(d, ErrorToken::BodyChunkIsBiggerThanChunkSize)
        },
        ChunkPhase::DataLf => if b == LF {
            DecoderView { phase: ChunkPhase::Size, size: 0, digits: false, ..d }
        } else {
            fail(d, ErrorToken::BodyChunkIsBiggerThanChunkSize)
        },
        ChunkPhase::LastCr => if b == CR {
            DecoderView { phase: ChunkPhase::LastLf, ..d }
        } else {
            fail(d, ErrorToken::BodyChunkTerminator)
        },
        ChunkPhase::LastLf => if b == LF {
            DecoderView { phase: ChunkPhase::Done, ..d }
        } else {
            fail(d, ErrorToken::BodyChunkTerminator)
        },
        _ => d,
    }
}

/// The decoder after every byte of `s`, in order.
pub open spec fn run_decoder(d: DecoderView, s: Seq<u8>) -> DecoderView
    decreases s.len(),
{
    if s.len() == 0 { d } else { step(run_decoder(d, s.drop_last()), s.last()) }
}

pub open spec fn initial(limit: nat) -> DecoderView {
    DecoderView { phase: ChunkPhase::Size, size: 0, digits: false, remaining: 0, body: Seq::empty(), limit }
}

/// Decodes a chunked body one byte at a time.
pub struct ChunkedDecoder {
    phase: ChunkPhase,
    size: usize,
    digits: bool,
    remaining: usize,
    body: Vec<u8>,
    limit: usize,
}

impl View for ChunkedDecoder {
    type V = DecoderView;

    closed spec fn view(&self) -> DecoderView {
        DecoderView {
            phase: self.phase,
            size: self.size as nat,
            digits: self.digits,
            remaining: self.remaining as nat,
            body: self.body@,
            limit: self.limit as nat,
        }
    }
}

impl ChunkedDecoder {
    /// The payload never exceeds the limit; a chunk being read still fits.
    pub closed spec fn wf(&self) -> bool {
        &&& self.body@.len() <= self.limit
        &&& self.phase == ChunkPhase::Data ==> self.remaining > 0 && self.body@.len() + self.remaining <= self.limit
    }

    pub fn new(limit: usize) -> (r: ChunkedDecoder)
        ensures
            r@ == initial(limit as nat),
            r.wf(),
    {
        ChunkedDecoder { phase: ChunkPhase::Size, size: 0, digits: false, remaining: 0, body: Vec::new(), limit }
    }

    pub fn phase(&self) -> (r: ChunkPhase)
        ensures r == self@.phase,
    {
        self.phase
    }

    /// The payload decoded so far.
    pub fn body(&self) -> (r: &Vec<u8>)
        ensures r@ == self@.body,
    {
        &self.body
    }

    /// Takes the next byte of the body.
    pub fn feed(&mut self, b: u8)
        requires old(self).wf(),
        ensures
            final(self)@ == step(old(self)@, b),
            final(self).wf(),
            final(self)@.body.len() <= final(self)@.limit,
    {
        match self.phase {
            ChunkPhase::Size => {
                if (48 <= b && b <= 57) || (65 <= b && b <= 70) || (97 <= b && b <= 102) {
                    let h: usize = if 48 <= b && b <= 57 {
                        (b - 48) as usize
                    } else if 65 <= b && b <= 70 {
                        (b - 55) as usize
                    } else {
                        (b - 87) as usize
                    };
                    match self.size.checked_mul(16) {
                        Some(t) => match t.checked_add(h) {
                            Some(v) => {
                                self.size = v;
                                self.digits = true;
                            },
                            None => { self.phase = ChunkPhase::Failed(ErrorToken::BodyChunkSizeParse); },
                        },
                        None => { self.phase = ChunkPhase::Failed(ErrorToken::BodyChunkSizeParse); },
                    }
                } else if b == CR && self.digits {
                    self.phase = ChunkPhase::SizeLf;
                } else {
                    self.phase = ChunkPhase::Failed(ErrorToken::BodyChunkSizeParse);
                }
            },
            ChunkPhase::SizeLf => {
                if b != LF {
                    self.phase = ChunkPhase::Failed(ErrorToken::BodyChunkSizeParse);
                } else if self.size == 0 {
                    if self.body.len() == 0 {
                        self.phase = ChunkPhase::Failed(ErrorToken::BodyChunkedButZeroSum);
                    } else {
                        self.phase = ChunkPhase::LastCr;
                    }
                } else if self.size > self.limit - self.body.len() {
                    self.phase = ChunkPhase::Failed(ErrorToken::BodySizeLimit);
                } else {
                    self.phase = ChunkPhase::Data;
                    self.remaining = self.size;
                }
            },
            ChunkPhase::Data => {
                self.body.push(b);
                self.remaining = self.remaining - 1;
                if self.remaining == 0 {
                    self.phase = ChunkPhase::DataCr;
                }
            },
            ChunkPhase::DataCr => {
                if b == CR {
                    self.phase = ChunkPhase::DataLf;
                } else {
                    self.phase = ChunkPhase::Failed(ErrorToken::BodyChunkIsBiggerThanChunkSize);
                }
            },
            ChunkPhase::DataLf => {
                if b == LF {
                    self.phase = ChunkPhase::Size;
                    self.size = 0;
                    self.digits = false;
                } else {
                    self.phase = ChunkPhase::Failed(ErrorToken::BodyChunkIsBiggerThanChunkSize);
                }
            },
            ChunkPhase::LastCr => {
                if b == CR {
                    self.phase = ChunkPhase::LastLf;
                } else {
                    self.phase = ChunkPhase::Failed(ErrorToken::BodyChunkTerminator);
                }
            },
            ChunkPhase::LastLf => {
                if b == LF {
                    self.phase = ChunkPhase::Done;
                } else {
                    self.phase = ChunkPhase::Failed(ErrorToken::BodyChunkTerminator);
                }
            },
            _ => {},
        }
    }
}

/// What a complete chunked body gives: its payload when the decoder
/// reached the end, its error when it failed, and a stream error when the
/// bytes ran out first.
pub open spec fn chunked_outcome(d: DecoderView) -> Result<Seq<u8>, ErrorToken> {
    match d.phase {
        ChunkPhase::Done => Ok(d.body),
        ChunkPhase::Failed(e) => Err(e),
        _ => Err(ErrorToken::BodyReadingStream),
    }
}

/// Decodes a whole chunked body held in `data`; bytes after the final
/// CRLF are not read.
pub fn decode_chunked(data: &[u8], limit: usize) -> (r: Result<Vec<u8>, ErrorToken>)
    ensures
        match (r, chunked_outcome(run_decoder(initial(limit as nat), data@))) {
            (Ok(b), Ok(c)) => b@ == c && c.len() <= limit,
            (Err(e), Err(f)) => e == f,
            _ => false,
        },
{
    let mut d = ChunkedDecoder::new(limit);
    let mut i: usize = 0;
    assert(data@.subrange(0, 0) =~= Seq::<u8>::empty());
    while i < data.len()
        invariant
            i <= data@.len(),
            d.wf(),
            d@ == run_decoder(initial(limit as nat), data@.subrange(0, i as int)),
            d@.limit == limit,
        decreases data@.len() - i,
    {
        assert(data@.subrange(0, i + 1).drop_last() =~= data@.subrange(0, i as int));
        d.feed(data[i]);
        i += 1;
    }
    assert(data@.subrange(0, data@.len() as int) =~= data@);
    match d.phase() {
        ChunkPhase::Done => Ok(d.body().clone()),
        ChunkPhase::Failed(e) => Err(e),
        _ => Err(ErrorToken::BodyReadingStream),
    }
}

pub open spec fn hex_char(d: nat) -> u8 {
    if d < 10 { (48 + d) as u8 } else { (87 + d) as u8 }
}

/// The lowercase hexadecimal digits of `n`, without leading zeros.
pub open spec fn hex_digits(n: nat) -> Seq<u8>
    decreases n,
{
    if n < 16 { seq![hex_char(n)] } else { hex_digits(n / 16) + seq![hex_char(n % 16)] }
}

pub open spec fn crlf() -> Seq<u8> {
    seq![CR, LF]
}

/// The chunked encoding of `chunks`, one chunk each, then the last chunk.
pub open spec fn encode_chunks(chunks: Seq<Seq<u8>>) -> Seq<u8>
    decreases chunks.len(),
{
    if chunks.len() == 0 {
        seq![48u8] + crlf() + crlf()
    } else {
        hex_digits(chunks[0].len()) + crlf() + chunks[0] + crlf() + encode_chunks(chunks.drop_first())
    }
}

pub open spec fn flatten(chunks: Seq<Seq<u8>>) -> Seq<u8>
    decreases chunks.len(),
{
    if chunks.len() == 0 { Seq::empty() } else { chunks[0] + flatten(chunks.drop_first()) }
}

pub proof fn lemma_run_concat(d: DecoderView, a: Seq<u8>, b: Seq<u8>)
    ensures run_decoder(d, a + b) == run_decoder(run_decoder(d, a), b),
    decreases b.len(),
{
    if b.len() == 0 {
        assert(a + b =~= a);
    } else {
        assert((a + b).drop_last() =~= a + b.drop_last());
        lemma_run_concat(d, a, b.drop_last());
    }
}

proof fn lemma_run_one(d: DecoderView, b: u8)
    ensures run_decoder(d, seq![b]) == step(d, b),
{
    assert(seq![b].drop_last() =~= Seq::<u8>::empty());
    assert(run_decoder(d, Seq::<u8>::empty()) == d);
}

proof fn lemma_run_two(d: DecoderView, a: u8, b: u8)
    ensures run_decoder(d, seq![a, b]) == step(step(d, a), b),
{
    lemma_run_one(d, a);
    lemma_run_one(step(d, a), b);
    lemma_run_concat(d, seq![a], seq![b]);
    assert(seq![a] + seq![b] =~= seq![a, b]);
}

proof fn lemma_run_hex(d: DecoderView, n: nat)
    requires
        d.phase == ChunkPhase::Size,
        d.size == 0,
        !d.digits,
        n <= usize::MAX,
    ensures
        run_decoder(d, hex_digits(n)) == (DecoderView { size: n, digits: true, ..d }),
    decreases n,
{
    if n < 16 {
        lemma_run_one(d, hex_char(n));
        assert(is_hex_digit(hex_char(n)) && hex_value(hex_char(n)) == n);
    } else {
        lemma_run_hex(d, n / 16);
        let c = seq![hex_char(n % 16)];
        lemma_run_concat(d, hex_digits(n / 16), c);
        let d1 = DecoderView { size: n / 16, digits: true, ..d };
        lemma_run_one(d1, hex_char(n % 16));
        assert(is_hex_digit(hex_char(n % 16)) && hex_value(hex_char(n % 16)) == n % 16);
        assert((n / 16) * 16 + n % 16 == n);
    }
}

proof fn lemma_run_payload(d: DecoderView, c: Seq<u8>)
    requires
        d.phase == ChunkPhase::Data,
        d.remaining == c.len(),
        c.len() > 0,
    ensures
        run_decoder(d, c) == (DecoderView { phase: ChunkPhase::DataCr, remaining: 0, body: d.body + c, ..d }),
    decreases c.len(),
{
    if c.len() == 1 {
        assert(c.drop_last() =~= Seq::<u8>::empty());
        assert(d.body.push(c[0]) =~= d.body + c);
    } else {
        lemma_run_payload_prefix(d, c.drop_last());
        assert(d.body + c.drop_last() + seq![c.last()] =~= d.body + c);
        assert((d.body + c.drop_last()).push(c.last()) =~= d.body + c);
    }
}

proof fn lemma_run_payload_prefix(d: DecoderView, c: Seq<u8>)
    requires
        d.phase == ChunkPhase::Data,
        d.remaining > c.len(),
    ensures
        run_decoder(d, c) == (DecoderView { remaining: (d.remaining - c.len()) as nat, body: d.body + c, ..d }),
    decreases c.len(),
{
    if c.len() == 0 {
        assert(d.body + c =~= d.body);
    } else {
        lemma_run_payload_prefix(d, c.drop_last());
        assert((d.body + c.drop_last()).push(c.last()) =~= d.body + c);
    }
}

proof fn lemma_run_encoded(d: DecoderView, chunks: Seq<Seq<u8>>)
    requires
        d.phase == ChunkPhase::Size,
        d.size == 0,
        !d.digits,
        forall|i: int| 0 <= i < chunks.len() ==> (#[trigger] chunks[i]).len() > 0,
        d.body.len() + flatten(chunks).len() <= d.limit,
        d.limit <= usize::MAX,
        d.body.len() > 0 || chunks.len() > 0,
    ensures
        run_decoder(d, encode_chunks(chunks)).phase == ChunkPhase::Done,
        run_decoder(d, encode_chunks(chunks)).body == d.body + flatten(chunks),
    decreases chunks.len(),
{
    let x = crlf();
    if chunks.len() == 0 {
        lemma_run_one(d, 48u8);
        let e1 = step(d, 48u8);
        lemma_run_two(e1, CR, LF);
        let e2 = step(step(e1, CR), LF);
        lemma_run_two(e2, CR, LF);
        lemma_run_concat(d, seq![48u8], x);
        lemma_run_concat(d, seq![48u8] + x, x);
        assert(d.body + flatten(chunks) =~= d.body);
    } else {
        let c = chunks[0];
        let rest = chunks.drop_first();
        assert(flatten(chunks) == c + flatten(rest));
        let n = c.len();
        lemma_run_hex(d, n);
        let d1 = DecoderView { size: n, digits: true, ..d };
        lemma_run_concat(d, hex_digits(n), x);
        lemma_run_two(d1, CR, LF);
        let d2 = DecoderView { phase: ChunkPhase::Data, remaining: n, ..d1 };
        assert(run_decoder(d, hex_digits(n) + x) == d2);
        lemma_run_concat(d, hex_digits(n) + x, c);
        lemma_run_payload(d2, c);
        let d3 = DecoderView { phase: ChunkPhase::DataCr, remaining: 0, body: d.body + c, ..d2 };
        lemma_run_concat(d, hex_digits(n) + x + c, x);
        lemma_run_two(d3, CR, LF);
        let d4 = DecoderView { phase: ChunkPhase::Size, size: 0, digits: false, ..d3 };
        assert(run_decoder(d, hex_digits(n) + x + c + x) == d4);
        assert forall|i: int| 0 <= i < rest.len() implies (#[trigger] rest[i]).len() > 0 by {
            assert(rest[i] == chunks[i + 1]);
        }
        lemma_run_encoded(d4, rest);
        lemma_run_concat(d, hex_digits(n) + x + c + x, encode_chunks(rest));
        assert(hex_digits(n) + x + c + x + encode_chunks(rest) =~= encode_chunks(chunks));
        assert(d.body + c + flatten(rest) =~= d.body + flatten(chunks));
    }
}

/// The decoder's own bound: the payload fits the limit, and so does a
/// chunk being read.
pub open spec fn within_limit(d: DecoderView) -> bool {
    &&& d.body.len() <= d.limit
    &&& d.phase == ChunkPhase::Data ==> d.remaining > 0 && d.body.len() + d.remaining <= d.limit
}

proof fn lemma_run_within_limit(d: DecoderView, s: Seq<u8>)
    requires within_limit(d),
    ensures
        within_limit(run_decoder(d, s)),
        run_decoder(d, s).limit == d.limit,
    decreases s.len(),
{
    if s.len() > 0 {
        lemma_run_within_limit(d, s.drop_last());
    }
}

/// A body never grows past the chosen host's limit: whatever bytes a
/// chunked body brings, the decoded payload fits; a `Content-Length` that
/// is accepted fits; an unchunked read goes on or finishes only while what
/// arrived fits.
pub proof fn lemma_body_within_limit(
    hs: Seq<(Seq<u8>, Seq<u8>)>,
    limit: usize,
    data: Seq<u8>,
    framing: Framing,
    received: nat,
    timed_out: bool,
    dirty_timed_out: bool,
    eof: bool,
)
    ensures
        run_decoder(initial(limit as nat), data).body.len() <= limit,
        framing_spec(hs, limit as nat) matches Ok(Framing::Length(n)) ==> n <= limit,
        (unchunked_spec(framing, received, limit as nat, timed_out, dirty_timed_out, eof) is Continue
            || unchunked_spec(framing, received, limit as nat, timed_out, dirty_timed_out, eof) is Finished)
            ==> received <= limit,
{
    lemma_run_within_limit(initial(limit as nat), data);
}

/// A body sent with chunked encoding and the same bytes sent with a
/// `Content-Length` give the same payload: the decoder ends on exactly
/// those bytes, and a length-framed read of them finishes.
pub proof fn lemma_chunked_matches_plain(chunks: Seq<Seq<u8>>, limit: usize)
    requires
        chunks.len() > 0,
        forall|i: int| 0 <= i < chunks.len() ==> (#[trigger] chunks[i]).len() > 0,
        flatten(chunks).len() <= limit,
    ensures
        chunked_outcome(run_decoder(initial(limit as nat), encode_chunks(chunks))) == Ok::<Seq<u8>, ErrorToken>(flatten(chunks)),
        unchunked_spec(
            Framing::Length(flatten(chunks).len() as usize),
            flatten(chunks).len(),
            limit as nat,
            false,
            false,
            false,
        ) == BodyProgress::Finished,
{
    lemma_run_encoded(initial(limit as nat), chunks);
    assert(Seq::<u8>::empty() + flatten(chunks) =~= flatten(chunks));
}

} // verus!
