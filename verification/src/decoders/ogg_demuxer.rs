//! An Ogg page/packet demuxer over an in-memory byte stream.
//!
//! Pages are parsed bit-exactly: capture pattern `OggS`, version byte 0,
//! a header-type byte, the 64-bit granule position, the 32-bit bitstream
//! serial, and a 1-255 entry segment table. Packets are assembled by
//! concatenating segments until one of length < 255 is seen, crossing
//! page boundaries where needed. Random access works by walking page
//! headers and comparing granule positions; page bodies are skipped, not
//! read. The checksum field is never verified.

use vstd::prelude::*;

verus! {

/// The header-type bit-field of an Ogg page.
#[derive(Clone, Copy, Debug, PartialEq, Eq, Structural)]
pub enum OggHeaderType {
    Plain,
    Continuation,
    Start,
    End,
}

/// Errors surfaced by the demuxer.
#[derive(Clone, Copy, Debug, PartialEq, Eq, Structural)]
pub enum OggError {
    /// The capture pattern is absent where a stream must begin.
    NotValidOgg,
    /// The version byte of a page is not 0.
    UnsupportedVersion,
    /// A structural violation mid-stream.
    MalformedPage,
    /// The stream ended before an expected packet or segment.
    UnexpectedEof,
    /// No page satisfies a seek request.
    NotFound,
}

/// The little-endian integer held in `n` bytes of `d` starting at `i`.
pub open spec fn le_bytes(d: Seq<u8>, i: int, n: nat) -> int
    decreases n,
{
    if n == 0 {
        0
    } else {
        d[i] + 256 * le_bytes(d, i + 1, (n - 1) as nat)
    }
}

/// 256 to the power `n`.
pub open spec fn pow256(n: nat) -> int
    decreases n,
{
    if n == 0 {
        1
    } else {
        256 * pow256((n - 1) as nat)
    }
}

pub proof fn lemma_pow256_positive(n: nat)
    ensures
        pow256(n) >= 1,
    decreases n,
{
    if n > 0 {
        lemma_pow256_positive((n - 1) as nat);
    }
}

pub proof fn lemma_pow256_increases(a: nat, b: nat)
    requires
        a <= b,
    ensures
        pow256(a) <= pow256(b),
    decreases b,
{
    if a < b {
        lemma_pow256_increases(a, (b - 1) as nat);
        lemma_pow256_positive((b - 1) as nat);
    }
}

pub proof fn lemma_le_bytes_bound(d: Seq<u8>, i: int, n: nat)
    requires
        forall|j: int| i <= j < i + n ==> 0 <= #[trigger] d[j] < 256,
    ensures
        0 <= le_bytes(d, i, n) < pow256(n),
    decreases n,
{
    if n > 0 {
        lemma_le_bytes_bound(d, i + 1, (n - 1) as nat);
    }
}

/// A parsed page header: its type, granule position, bitstream serial,
/// and the segment table in stream order.
pub struct PageHeader {
    pub htype: OggHeaderType,
    pub granule: int,
    pub bitstream: int,
    pub seg_lens: Seq<u8>,
}

/// The outcome of parsing a page header at one position.
pub enum PageParse {
    /// The bytes ran out before the header was complete.
    TooShort,
    /// A byte contradicts the capture pattern, or the header-type byte
    /// is not one of the four defined values.
    NotAPage,
    /// The version byte is not 0.
    BadVersion,
    /// The segment table is empty.
    NoSegments,
    Valid(PageHeader),
}

pub open spec fn header_type_of(b: u8) -> OggHeaderType {
    if b == 0 {
        OggHeaderType::Plain
    } else if b == 1 {
        OggHeaderType::Continuation
    } else if b == 2 {
        OggHeaderType::Start
    } else {
        OggHeaderType::End
    }
}

pub open spec fn valid_header_type_byte(b: u8) -> bool {
    b == 0 || b == 1 || b == 2 || b == 4
}

/// True when a byte within bounds contradicts the `OggS` capture pattern.
pub open spec fn capture_fails(d: Seq<u8>, i: int) -> bool {
    ||| (i < d.len() && d[i] != 79)
    ||| (i + 1 < d.len() && d[i] == 79 && d[i + 1] != 103)
    ||| (i + 2 < d.len() && d[i] == 79 && d[i + 1] == 103 && d[i + 2] != 103)
    ||| (i + 3 < d.len() && d[i] == 79 && d[i + 1] == 103 && d[i + 2] == 103 && d[i + 3] != 83)
}

/// Parse the page header at byte `i` of `d`, checks in stream order:
/// capture pattern, version, header type, then the segment table.
pub open spec fn parse_page_header(d: Seq<u8>, i: int) -> PageParse {
    if capture_fails(d, i) {
        PageParse::NotAPage
    } else if i + 27 > d.len() {
        PageParse::TooShort
    } else if d[i + 4] != 0 {
        PageParse::BadVersion
    } else if !valid_header_type_byte(d[i + 5]) {
        PageParse::NotAPage
    } else if d[i + 26] == 0 {
        PageParse::NoSegments
    } else if i + 27 + d[i + 26] > d.len() {
        PageParse::TooShort
    } else {
        PageParse::Valid(
            PageHeader {
                htype: header_type_of(d[i + 5]),
                granule: le_bytes(d, i + 6, 8),
                bitstream: le_bytes(d, i + 14, 4),
                seg_lens: d.subrange(i + 27, i + 27 + d[i + 26]),
            },
        )
    }
}

/// The abstract state of a demuxer.
pub struct ReaderView {
    pub bytes: Seq<u8>,
    /// The read cursor.
    pub pos: int,
    /// The unconsumed segment table of the current page, in stream
    /// order: the next segment length is `segs.first()`.
    pub segs: Seq<u8>,
    pub htype: OggHeaderType,
    pub granule: int,
    pub bitstream: int,
    /// Byte offset of the current page header.
    pub hpos: int,
}

/// The state a demuxer is in directly after reading the page header at `i`.
pub open spec fn page_view(d: Seq<u8>, i: int, p: PageHeader) -> ReaderView {
    ReaderView {
        bytes: d,
        pos: i + 27 + p.seg_lens.len(),
        segs: p.seg_lens,
        htype: p.htype,
        granule: p.granule,
        bitstream: p.bitstream,
        hpos: i,
    }
}

/// A sequential packet reader over an Ogg-framed byte stream, with
/// random-access seeking by granule position.
pub struct OggReader {
    data: Vec<u8>,
    pos: usize,
    bitstream: u32,
    // Unconsumed segment lengths of the current page, in reverse order.
    page_segments: Vec<u8>,
    header_type: OggHeaderType,
    header_position: usize,
    granule_position: u64,
}

impl View for OggReader {
    type V = ReaderView;

    closed spec fn view(&self) -> ReaderView {
        ReaderView {
            bytes: self.data@,
            pos: self.pos as int,
            segs: self.page_segments@.reverse(),
            htype: self.header_type,
            granule: self.granule_position as int,
            bitstream: self.bitstream as int,
            hpos: self.header_position as int,
        }
    }
}

impl OggReader {
    pub open spec fn wf(&self) -> bool {
        self@.pos <= self@.bytes.len() && self@.segs.len() <= 255 && self@.hpos
            <= self@.bytes.len()
    }

    /// Read the little-endian integer in `n <= 8` bytes at `i`.
    fn read_le(d: &Vec<u8>, i: usize, n: usize) -> (r: u64)
        requires
            n <= 8,
            i + n <= d@.len(),
        ensures
            r as int == le_bytes(d@, i as int, n as nat),
    {
        let dlen: usize = d.len();
        let mut r: u64 = 0;
        let mut k: usize = n;
        while k > 0
            invariant
                n <= 8,
                i + n <= dlen,
                dlen == d@.len(),
                k <= n,
                r as int == le_bytes(d@, i + k, (n - k) as nat),
            decreases k,
        {
            k = k - 1;
            proof {
                lemma_le_bytes_bound(d@, i + k + 1, (n - k - 1) as nat);
                lemma_pow256_increases((n - k - 1) as nat, 7);
                reveal_with_fuel(pow256, 9);
                assert(pow256(7) == 0x100000000000000);
            }
            r = r * 256 + (d[i + k] as u64);
        }
        r
    }

    /// Open a demuxer over a whole Ogg stream, reading the first page
    /// header eagerly.
    pub fn try_new(data: Vec<u8>) -> (r: Result<OggReader, OggError>)
        ensures
            match parse_page_header(data@, 0) {
                PageParse::Valid(p) => r matches Ok(rd) && rd@ == page_view(data@, 0, p)
                    && rd.wf(),
                PageParse::NotAPage => r matches Err(e) && e == OggError::NotValidOgg,
                PageParse::TooShort => r matches Err(e) && e == OggError::UnexpectedEof,
                PageParse::BadVersion => r matches Err(e) && e == OggError::UnsupportedVersion,
                PageParse::NoSegments => r matches Err(e) && e == OggError::MalformedPage,
            },
    {
        let mut reader = OggReader {
            data,
            pos: 0,
            bitstream: 0,
            page_segments: Vec::new(),
            header_type: OggHeaderType::End,
            header_position: 0,
            granule_position: 0,
        };
        match reader.read_page_header_try() {
            Ok(Some(())) => Ok(reader),
            Ok(None) => Err(OggError::NotValidOgg),
            Err(e) => Err(e),
        }
    }

    /// Granule position of the current page.
    pub fn granular_position(&self) -> (r: u64)
        ensures
            r as int == self@.granule,
    {
        self.granule_position
    }

    /// Read a page header at the cursor, expecting one to be there.
    pub fn read_page_header_expect(&mut self) -> (r: Result<(), OggError>)
        requires
            old(self).wf(),
        ensures
            final(self).wf(),
            final(self)@.bytes == old(self)@.bytes,
            match parse_page_header(old(self)@.bytes, old(self)@.pos) {
                PageParse::Valid(p) => r matches Ok(())
                    && final(self)@ == page_view(old(self)@.bytes, old(self)@.pos, p),
                PageParse::NotAPage => r matches Err(e) && e == OggError::NotFound
                    && final(self)@ == old(self)@,
                PageParse::TooShort => r matches Err(e) && e == OggError::UnexpectedEof
                    && final(self)@ == old(self)@,
                PageParse::BadVersion => r matches Err(e) && e == OggError::UnsupportedVersion
                    && final(self)@ == old(self)@,
                PageParse::NoSegments => r matches Err(e) && e == OggError::MalformedPage
                    && final(self)@ == old(self)@,
            },
    {
        match self.read_page_header_try() {
            Ok(Some(())) => Ok(()),
            Ok(None) => Err(OggError::NotFound),
            Err(e) => Err(e),
        }
    }

    /// Try to read a page header at the cursor. `Ok(None)` means the
    /// bytes there are not a page; the cursor then stays put.
    pub fn read_page_header_try(&mut self) -> (r: Result<Option<()>, OggError>)
        requires
            old(self).wf(),
        ensures
            final(self).wf(),
            final(self)@.bytes == old(self)@.bytes,
            match parse_page_header(old(self)@.bytes, old(self)@.pos) {
                PageParse::Valid(p) => r matches Ok(o) && o matches Some(_)
                    && final(self)@ == page_view(old(self)@.bytes, old(self)@.pos, p),
                PageParse::NotAPage => r matches Ok(o) && o matches None
                    && final(self)@ == old(self)@,
                PageParse::TooShort => r matches Err(e) && e == OggError::UnexpectedEof
                    && final(self)@ == old(self)@,
                PageParse::BadVersion => r matches Err(e) && e == OggError::UnsupportedVersion
                    && final(self)@ == old(self)@,
                PageParse::NoSegments => r matches Err(e) && e == OggError::MalformedPage
                    && final(self)@ == old(self)@,
            },
    {
        let i = self.pos;
        let len = self.data.len();
        // Capture pattern "OggS".
        if i < len && self.data[i] != 79 {
            return Ok(None);
        }
        if len - i > 1 && self.data[i + 1] != 103 {
            return Ok(None);
        }
        if len - i > 2 && self.data[i + 2] != 103 {
            return Ok(None);
        }
        if len - i > 3 && self.data[i + 3] != 83 {
            return Ok(None);
        }
        if len - i < 27 {
            return Err(OggError::UnexpectedEof);
        }
        if self.data[i + 4] != 0 {
            return Err(OggError::UnsupportedVersion);
        }
        let htype_byte = self.data[i + 5];
        let htype = if htype_byte == 0 {
            OggHeaderType::Plain
        } else if htype_byte == 1 {
            OggHeaderType::Continuation
        } else if htype_byte == 2 {
            OggHeaderType::Start
        } else if htype_byte == 4 {
            OggHeaderType::End
        } else {
            return Ok(None);
        };
        let nseg = self.data[i + 26] as usize;
        if nseg == 0 {
            return Err(OggError::MalformedPage);
        }
        if len - (i + 27) < nseg {
            return Err(OggError::UnexpectedEof);
        }
        let granule = Self::read_le(&self.data, i + 6, 8);
        let serial = Self::read_le(&self.data, i + 14, 4);
        proof {
            lemma_le_bytes_bound(self.data@, i + 14, 4);
            reveal_with_fuel(pow256, 5);
            assert(pow256(4) == 0x100000000);
        }
        let mut segs: Vec<u8> = Vec::new();
        let mut k: usize = 0;
        while k < nseg
            invariant
                k <= nseg,
                i + 27 + nseg <= len,
                len == self.data@.len(),
                segs@.len() == k,
                forall|j: int| 0 <= j < k ==> segs@[j] == self.data@[i + 27 + nseg - 1 - j],
            decreases nseg - k,
        {
            segs.push(self.data[i + 27 + (nseg - 1 - k)]);
            k = k + 1;
        }
        proof {
            let d = self.data@;
            let p = parse_page_header(d, i as int)->Valid_0;
            assert(segs@.reverse() =~= p.seg_lens);
        }
        self.granule_position = granule;
        self.bitstream = serial as u32;
        self.header_type = htype;
        self.header_position = i;
        self.page_segments = segs;
        self.pos = i + 27 + nseg;
        Ok(Some(()))
    }
}

/// A packet handed out by the demuxer: its bytes, and whether it is the
/// last packet of the logical stream.
pub struct Packet {
    pub data: Vec<u8>,
    pub last: bool,
}

impl Packet {
    pub fn new(data: Vec<u8>) -> (r: Packet)
        ensures
            r.data == data,
            !r.last,
    {
        Packet { data, last: false }
    }

    pub fn new_last(data: Vec<u8>) -> (r: Packet)
        ensures
            r.data == data,
            r.last,
    {
        Packet { data, last: true }
    }
}

/// The outcome of assembling one packet.
pub enum PacketStep {
    Fail(OggError),
    /// The packet bytes, its last flag, and the demuxer state after it.
    Good(Seq<u8>, bool, ReaderView),
}

/// Close off a completed packet: flag it last when it ends on an
/// exhausted End page; otherwise advance to the next page header
/// if the current one is used up.
pub open spec fn packet_done(v: ReaderView, acc: Seq<u8>) -> PacketStep {
    if v.segs.len() > 0 {
        PacketStep::Good(acc, false, v)
    } else if v.htype == OggHeaderType::End {
        PacketStep::Good(acc, true, v)
    } else {
        match parse_page_header(v.bytes, v.pos) {
            PageParse::Valid(p) => PacketStep::Good(acc, false, page_view(v.bytes, v.pos, p)),
            _ => PacketStep::Fail(OggError::MalformedPage),
        }
    }
}

/// Assemble a packet from the segments ahead of `v`, with `acc` already
/// read: segments are concatenated until one of length < 255; a page
/// boundary mid-packet requires a Continuation page.
pub open spec fn packet_next(v: ReaderView, acc: Seq<u8>) -> PacketStep
    decreases v.bytes.len() - v.pos + v.segs.len() when v.pos <= v.bytes.len()
{
    if v.segs.len() == 0 {
        if v.htype == OggHeaderType::End {
            PacketStep::Fail(OggError::UnexpectedEof)
        } else {
            match parse_page_header(v.bytes, v.pos) {
                PageParse::Valid(p) => {
                    if p.htype == OggHeaderType::Continuation {
                        packet_next(page_view(v.bytes, v.pos, p), acc)
                    } else {
                        PacketStep::Fail(OggError::MalformedPage)
                    }
                },
                _ => PacketStep::Fail(OggError::MalformedPage),
            }
        }
    } else {
        let s = v.segs.first();
        if v.pos + s > v.bytes.len() {
            PacketStep::Fail(OggError::UnexpectedEof)
        } else {
            let acc2 = acc + v.bytes.subrange(v.pos, v.pos + s);
            let v2 = ReaderView { pos: v.pos + s, segs: v.segs.drop_first(), ..v };
            if s == 255 {
                packet_next(v2, acc2)
            } else {
                packet_done(v2, acc2)
            }
        }
    }
}

/// What one `read_packet` call returns and leaves behind.
pub open spec fn spec_read_packet(v: ReaderView) -> PacketStep {
    if v.segs.len() == 0 {
        PacketStep::Fail(OggError::MalformedPage)
    } else {
        packet_next(v, Seq::empty())
    }
}

impl OggReader {
    /// Read the next packet: concatenate segments of the current page,
    /// crossing into Continuation pages while 255-length segments keep
    /// the packet open. The returned flag is true when the packet
    /// completes on an exhausted End page.
    pub fn read_packet(&mut self) -> (r: Result<(Vec<u8>, bool), OggError>)
        requires
            old(self).wf(),
        ensures
            final(self).wf(),
            final(self)@.bytes == old(self)@.bytes,
            match spec_read_packet(old(self)@) {
                PacketStep::Good(bytes, last, v2) => r matches Ok(p) && p.0@ == bytes && p.1
                    == last && final(self)@ == v2,
                PacketStep::Fail(e) => r matches Err(e2) && e2 == e,
            },
    {
        let ghost v0 = self@;
        if self.page_segments.len() == 0 {
            proof {
                assert(self@.segs.len() == 0);
            }
            return Err(OggError::MalformedPage);
        }
        let mut acc: Vec<u8> = Vec::new();
        let mut done = false;
        proof {
            assert(self@.segs.len() > 0);
        }
        while !done
            invariant
                v0 == old(self)@,
                self.wf(),
                self@.bytes == v0.bytes,
                !done ==> spec_read_packet(v0) == packet_next(self@, acc@),
                done ==> spec_read_packet(v0) == packet_done(self@, acc@),
            decreases
                    self@.bytes.len() - self@.pos + self@.segs.len() + (if done {
                        0int
                    } else {
                        1int
                    }),
        {
            let ghost v_at = self@;
            let ghost acc_at = acc@;
            if self.page_segments.len() == 0 {
                proof {
                    assert(v_at.segs.len() == 0);
                }
                if self.header_type == OggHeaderType::End {
                    return Err(OggError::UnexpectedEof);
                }
                match self.read_page_header_try() {
                    Ok(Some(())) => {
                        if !matches!(self.header_type, OggHeaderType::Continuation) {
                            return Err(OggError::MalformedPage);
                        }
                    },
                    _ => {
                        return Err(OggError::MalformedPage);
                    },
                }
            } else {
                let seg = match self.page_segments.pop() {
                    Some(s) => s,
                    None => {
                        proof {
                            assert(false);
                        }
                        return Err(OggError::MalformedPage);
                    },
                };
                proof {
                    assert(v_at.segs.len() > 0);
                    assert(seg == v_at.segs.first());
                    assert(self.page_segments@.reverse() =~= v_at.segs.drop_first());
                }
                let slen = seg as usize;
                let dl = self.data.len();
                if dl - self.pos < slen {
                    return Err(OggError::UnexpectedEof);
                }
                let ghost p0 = self.pos as int;
                let mut k: usize = 0;
                while k < slen
                    invariant
                        k <= slen,
                        p0 == self.pos as int,
                        dl == self.data@.len(),
                        p0 + slen <= self.data@.len(),
                        acc@ == acc_at + self.data@.subrange(p0, p0 + k),
                        self@.bytes == v0.bytes,
                        self@.segs == v_at.segs.drop_first(),
                        self@.htype == v_at.htype,
                        self@.granule == v_at.granule,
                        self@.bitstream == v_at.bitstream,
                        self@.hpos == v_at.hpos,
                    decreases slen - k,
                {
                    proof {
                        assert(self.data@.subrange(p0, p0 + k + 1) =~= self.data@.subrange(
                            p0,
                            p0 + k,
                        ) + seq![self.data@[p0 + k]]);
                        assert(acc_at + self.data@.subrange(p0, p0 + k) + seq![self.data@[p0 + k]]
                            =~= acc_at + self.data@.subrange(p0, p0 + k + 1));
                    }
                    acc.push(self.data[self.pos + k]);
                    k = k + 1;
                }
                self.pos = self.pos + slen;
                if seg != 255 {
                    done = true;
                }
            }
        }
        if self.page_segments.len() > 0 {
            proof {
                assert(self@.segs.len() > 0);
            }
            return Ok((acc, false));
        }
        proof {
            assert(self@.segs.len() == 0);
        }
        if matches!(self.header_type, OggHeaderType::End) {
            return Ok((acc, true));
        }
        match self.read_page_header_try() {
            Ok(Some(())) => Ok((acc, false)),
            _ => Err(OggError::MalformedPage),
        }
    }
}

/// Total byte length of a segment table.
pub open spec fn seg_sum(s: Seq<u8>) -> nat
    decreases s.len(),
{
    if s.len() == 0 {
        0
    } else {
        (s.first() + seg_sum(s.drop_first())) as nat
    }
}

pub proof fn lemma_seg_sum_snoc(s: Seq<u8>, x: u8)
    ensures
        seg_sum(s.push(x)) == seg_sum(s) + x,
    decreases s.len(),
{
    if s.len() == 0 {
        assert(s.push(x).drop_first() =~= Seq::<u8>::empty());
        assert(seg_sum(Seq::<u8>::empty()) == 0);
    } else {
        assert(s.push(x).drop_first() =~= s.drop_first().push(x));
        lemma_seg_sum_snoc(s.drop_first(), x);
    }
}

pub proof fn lemma_seg_sum_reverse(s: Seq<u8>)
    ensures
        seg_sum(s.reverse()) == seg_sum(s),
    decreases s.len(),
{
    if s.len() > 0 {
        assert(s.reverse() =~= s.drop_first().reverse().push(s[0]));
        lemma_seg_sum_reverse(s.drop_first());
        lemma_seg_sum_snoc(s.drop_first().reverse(), s[0]);
    }
}

/// The granule position of the first End page at or after `pos`,
/// walking page headers and skipping page bodies.
pub open spec fn spec_last_granule(d: Seq<u8>, pos: int) -> Result<int, OggError>
    decreases d.len() - pos,
    when pos <= d.len()
{
    match parse_page_header(d, pos) {
        PageParse::Valid(p) => {
            if p.htype == OggHeaderType::End {
                Ok(p.granule)
            } else if p.htype == OggHeaderType::Start {
                Err(OggError::NotFound)
            } else {
                let pos2 = pos + 27 + p.seg_lens.len() + seg_sum(p.seg_lens);
                if pos2 > d.len() {
                    Err(OggError::UnexpectedEof)
                } else {
                    spec_last_granule(d, pos2)
                }
            }
        },
        PageParse::TooShort => Err(OggError::UnexpectedEof),
        PageParse::NotAPage => Err(OggError::MalformedPage),
        PageParse::BadVersion => Err(OggError::UnsupportedVersion),
        PageParse::NoSegments => Err(OggError::MalformedPage),
    }
}

/// Walk from `pos` to the header of the Start page of bitstream `serial`.
pub open spec fn spec_seek_start(d: Seq<u8>, pos: int, serial: int) -> Result<
    ReaderView,
    OggError,
>
    decreases d.len() - pos,
    when pos <= d.len()
{
    match parse_page_header(d, pos) {
        PageParse::Valid(p) => {
            if p.bitstream == serial && p.htype == OggHeaderType::Start {
                Ok(page_view(d, pos, p))
            } else {
                let pos2 = pos + 27 + p.seg_lens.len() + seg_sum(p.seg_lens);
                if pos2 > d.len() {
                    Err(OggError::UnexpectedEof)
                } else {
                    spec_seek_start(d, pos2, serial)
                }
            }
        },
        PageParse::TooShort => Err(OggError::UnexpectedEof),
        PageParse::NotAPage => Err(OggError::MalformedPage),
        PageParse::BadVersion => Err(OggError::UnsupportedVersion),
        PageParse::NoSegments => Err(OggError::MalformedPage),
    }
}

/// Walk forward from `pos` to the page whose granule range covers
/// `target`, returning the granule of the page before it and the state
/// positioned at the covering page.
pub open spec fn spec_find_last(d: Seq<u8>, pos: int, last_gran: int, target: int) -> Result<
    (int, ReaderView),
    OggError,
>
    decreases d.len() - pos,
    when pos <= d.len()
{
    match parse_page_header(d, pos) {
        PageParse::Valid(p) => {
            if p.htype == OggHeaderType::End {
                Err(OggError::NotFound)
            } else if p.htype == OggHeaderType::Start {
                Err(OggError::MalformedPage)
            } else if last_gran <= target && target <= p.granule {
                Ok((last_gran, page_view(d, pos, p)))
            } else {
                let pos2 = pos + 27 + p.seg_lens.len() + seg_sum(p.seg_lens);
                if pos2 > d.len() {
                    Err(OggError::UnexpectedEof)
                } else {
                    spec_find_last(d, pos2, p.granule, target)
                }
            }
        },
        PageParse::TooShort => Err(OggError::UnexpectedEof),
        PageParse::NotAPage => Err(OggError::MalformedPage),
        PageParse::BadVersion => Err(OggError::UnsupportedVersion),
        PageParse::NoSegments => Err(OggError::MalformedPage),
    }
}

/// As `spec_find_last`, but the reader is put back on the page *before*
/// the covering one, so the packet after the seek starts at or before
/// `target`; a target below the walked range answers with the current
/// page instead.
pub open spec fn spec_find_first(
    d: Seq<u8>,
    pos: int,
    last_gran: int,
    last_pos: int,
    target: int,
) -> Result<(int, ReaderView), OggError>
    decreases d.len() - pos,
    when pos <= d.len()
{
    match parse_page_header(d, pos) {
        PageParse::Valid(p) => {
            if p.htype == OggHeaderType::End {
                Err(OggError::NotFound)
            } else if p.htype == OggHeaderType::Start {
                Err(OggError::MalformedPage)
            } else if last_gran <= target && target <= p.granule {
                match parse_page_header(d, last_pos) {
                    PageParse::Valid(q) => Ok((last_gran, page_view(d, last_pos, q))),
                    PageParse::TooShort => Err(OggError::UnexpectedEof),
                    PageParse::NotAPage => Err(OggError::NotFound),
                    PageParse::BadVersion => Err(OggError::UnsupportedVersion),
                    PageParse::NoSegments => Err(OggError::MalformedPage),
                }
            } else if target < p.granule {
                // The target lies below every page walked: no page
                // holds it.
                Err(OggError::NotFound)
            } else {
                let pos2 = pos + 27 + p.seg_lens.len() + seg_sum(p.seg_lens);
                if pos2 > d.len() {
                    Err(OggError::UnexpectedEof)
                } else {
                    spec_find_first(d, pos2, p.granule, pos, target)
                }
            }
        },
        PageParse::TooShort => Err(OggError::UnexpectedEof),
        PageParse::NotAPage => Err(OggError::MalformedPage),
        PageParse::BadVersion => Err(OggError::UnsupportedVersion),
        PageParse::NoSegments => Err(OggError::MalformedPage),
    }
}

impl OggReader {
    /// Skip past the bodies of all unconsumed segments of the current
    /// page, leaving the cursor at the next page header.
    fn skip_page(&mut self) -> (r: Result<(), OggError>)
        requires
            old(self).wf(),
        ensures
            final(self).wf(),
            ({
                let v = old(self)@;
                if v.pos + seg_sum(v.segs) <= v.bytes.len() {
                    r matches Ok(())
                        && final(self)@ == (ReaderView { pos: v.pos + seg_sum(v.segs), ..v })
                } else {
                    (r matches Err(e) && e == OggError::UnexpectedEof) && final(self)@ == v
                }
            }),
    {
        let n = self.page_segments.len();
        let ghost rsegs = self.page_segments@;
        let mut total: usize = 0;
        let mut j: usize = 0;
        while j < n
            invariant
                n == rsegs.len() <= 255,
                rsegs == self.page_segments@,
                j <= n,
                total == seg_sum(rsegs.take(j as int)),
                total <= j * 255,
            decreases n - j,
        {
            proof {
                assert(rsegs.take(j + 1) =~= rsegs.take(j as int).push(rsegs[j as int]));
                lemma_seg_sum_snoc(rsegs.take(j as int), rsegs[j as int]);
            }
            total = total + (self.page_segments[j] as usize);
            j = j + 1;
        }
        proof {
            assert(rsegs.take(n as int) =~= rsegs);
            lemma_seg_sum_reverse(rsegs);
            assert(self@.segs == rsegs.reverse());
            assert(seg_sum(self@.segs) == seg_sum(rsegs));
        }
        if total > self.data.len() - self.pos {
            return Err(OggError::UnexpectedEof);
        }
        self.pos = self.pos + total;
        Ok(())
    }

    /// Find the granule position of the final End page of the current
    /// logical stream without consuming it: the reader state is saved,
    /// pages ahead are skipped header by header, and the state restored.
    pub fn last_granular_position(&mut self) -> (r: Result<u64, OggError>)
        requires
            old(self).wf(),
        ensures
            final(self).wf(),
            final(self)@.bytes == old(self)@.bytes,
            ({
                let v = old(self)@;
                if v.pos + seg_sum(v.segs) > v.bytes.len() {
                    r matches Err(e) && e == OggError::UnexpectedEof
                } else {
                    match spec_last_granule(v.bytes, v.pos + seg_sum(v.segs)) {
                        Ok(g) => r matches Ok(x) && x as int == g && final(self)@ == v,
                        Err(e) => r matches Err(e2) && e2 == e,
                    }
                }
            }),
    {
        let ghost v0 = self@;
        let saved_pos = self.pos;
        let saved_htype = self.header_type;
        let saved_hpos = self.header_position;
        let saved_granule = self.granule_position;
        let saved_bitstream = self.bitstream;
        match self.skip_page() {
            Ok(()) => (),
            Err(e) => {
                return Err(e);
            },
        }
        let mut saved_segments: Vec<u8> = Vec::new();
        core::mem::swap(&mut saved_segments, &mut self.page_segments);
        let ghost start0 = self@.pos;
        loop
            invariant
                v0 == old(self)@,
                self.wf(),
                self@.bytes == v0.bytes,
                saved_pos == v0.pos,
                saved_htype == v0.htype,
                saved_hpos == v0.hpos,
                saved_granule as int == v0.granule,
                saved_bitstream as int == v0.bitstream,
                saved_segments@.reverse() == v0.segs,
                saved_segments@.len() <= 255,
                saved_pos <= v0.bytes.len(),
                saved_hpos <= v0.bytes.len(),
                v0.pos + seg_sum(v0.segs) <= v0.bytes.len(),
                start0 == v0.pos + seg_sum(v0.segs),
                spec_last_granule(v0.bytes, self@.pos) == spec_last_granule(v0.bytes, start0),
            decreases v0.bytes.len() - self@.pos,
        {
            match self.read_page_header_try() {
                Ok(Some(())) => {
                    match self.header_type {
                        OggHeaderType::End => {
                            let g = self.granule_position;
                            self.pos = saved_pos;
                            self.header_type = saved_htype;
                            self.header_position = saved_hpos;
                            self.granule_position = saved_granule;
                            self.bitstream = saved_bitstream;
                            self.page_segments = saved_segments;
                            proof {
                                assert(self@ == v0);
                            }
                            return Ok(g);
                        },
                        OggHeaderType::Start => {
                            return Err(OggError::NotFound);
                        },
                        _ => {
                            match self.skip_page() {
                                Ok(()) => (),
                                Err(e) => {
                                    return Err(e);
                                },
                            }
                        },
                    }
                },
                Ok(None) => {
                    return Err(OggError::MalformedPage);
                },
                Err(e) => {
                    return Err(e);
                },
            }
        }
    }

    /// Rewind to the Start page of the bitstream with the given serial,
    /// searching from the beginning of the stream.
    fn find_start_stream(&mut self, target_bitstream: u32) -> (r: Result<(), OggError>)
        requires
            old(self).wf(),
        ensures
            final(self).wf(),
            final(self)@.bytes == old(self)@.bytes,
            match spec_seek_start(old(self)@.bytes, 0, target_bitstream as int) {
                Ok(v) => r matches Ok(()) && final(self)@ == v,
                Err(e) => r matches Err(e2) && e2 == e,
            },
    {
        let ghost v0 = self@;
        self.pos = 0;
        loop
            invariant
                v0 == old(self)@,
                self.wf(),
                self@.bytes == v0.bytes,
                spec_seek_start(v0.bytes, self@.pos, target_bitstream as int) == spec_seek_start(
                    v0.bytes,
                    0,
                    target_bitstream as int,
                ),
            decreases v0.bytes.len() - self@.pos,
        {
            match self.read_page_header_try() {
                Ok(Some(())) => {
                    if self.bitstream == target_bitstream && matches!(
                        self.header_type,
                        OggHeaderType::Start,
                    ) {
                        return Ok(());
                    }
                    match self.skip_page() {
                        Ok(()) => (),
                        Err(e) => {
                            return Err(e);
                        },
                    }
                },
                Ok(None) => {
                    return Err(OggError::MalformedPage);
                },
                Err(e) => {
                    return Err(e);
                },
            }
        }
    }

    /// What `find_granular_position_last` computes, composed from its
    /// optional rewind and the page walk.
    pub open spec fn spec_find_last_from(v: ReaderView, target: int, start_current: bool) -> Result<
        (int, ReaderView),
        OggError,
    > {
        let v1 = if start_current {
            Ok(v)
        } else {
            spec_seek_start(v.bytes, 0, v.bitstream)
        };
        match v1 {
            Ok(v1) => {
                if v1.pos + seg_sum(v1.segs) > v.bytes.len() {
                    Err(OggError::UnexpectedEof)
                } else {
                    spec_find_last(v.bytes, v1.pos + seg_sum(v1.segs), v1.granule, target)
                }
            },
            Err(e) => Err(e),
        }
    }

    /// Position the demuxer on the page whose granule range covers
    /// `target`, so the next `read_packet` returns data from the page
    /// whose granule position is the smallest value at or above it.
    /// Returns the granule of the page before, never above `target`.
    /// With `start_current` false the walk first rewinds to the Start
    /// page of the current logical stream.
    pub fn find_granular_position_last(&mut self, target: u64, start_current: bool) -> (r: Result<
        u64,
        OggError,
    >)
        requires
            old(self).wf(),
        ensures
            final(self).wf(),
            final(self)@.bytes == old(self)@.bytes,
            match Self::spec_find_last_from(old(self)@, target as int, start_current) {
                Ok(gv) => r matches Ok(g) && g as int == gv.0 && final(self)@ == gv.1 && g <= target
                    && target as int <= final(self)@.granule,
                Err(e) => r matches Err(e2) && e2 == e,
            },
    {
        let ghost v0 = self@;
        if !start_current {
            match self.find_start_stream(self.bitstream) {
                Ok(()) => (),
                Err(e) => {
                    return Err(e);
                },
            }
        }
        let mut last_granular = self.granule_position;
        match self.skip_page() {
            Ok(()) => (),
            Err(e) => {
                return Err(e);
            },
        }
        let ghost start0 = self@.pos;
        loop
            invariant
                v0 == old(self)@,
                self.wf(),
                self@.bytes == v0.bytes,
                spec_find_last(v0.bytes, self@.pos, last_granular as int, target as int)
                    == Self::spec_find_last_from(v0, target as int, start_current),
            decreases v0.bytes.len() - self@.pos,
        {
            match self.read_page_header_try() {
                Ok(Some(())) => {
                    match self.header_type {
                        OggHeaderType::End => {
                            return Err(OggError::NotFound);
                        },
                        OggHeaderType::Start => {
                            return Err(OggError::MalformedPage);
                        },
                        _ => {
                            if last_granular <= target && target <= self.granule_position {
                                return Ok(last_granular);
                            }
                            match self.skip_page() {
                                Ok(()) => (),
                                Err(e) => {
                                    return Err(e);
                                },
                            }
                            last_granular = self.granule_position;
                        },
                    }
                },
                Ok(None) => {
                    return Err(OggError::MalformedPage);
                },
                Err(e) => {
                    return Err(e);
                },
            }
        }
    }

    /// What `find_granular_position_first` computes.
    pub open spec fn spec_find_first_from(v: ReaderView, target: int, start_current: bool) -> Result<
        (int, ReaderView),
        OggError,
    > {
        let v1 = if start_current {
            Ok(v)
        } else {
            spec_seek_start(v.bytes, 0, v.bitstream)
        };
        match v1 {
            Ok(v1) => {
                if v1.pos + seg_sum(v1.segs) > v.bytes.len() {
                    Err(OggError::UnexpectedEof)
                } else {
                    spec_find_first(
                        v.bytes,
                        v1.pos + seg_sum(v1.segs),
                        v1.granule,
                        v1.hpos,
                        target,
                    )
                }
            },
            Err(e) => Err(e),
        }
    }

    /// Position the demuxer on the page whose granule position is the
    /// greatest value at or below `target`, so the packet after the
    /// seek starts at or before it. Returns that granule position,
    /// never above `target`; a target below every page is not found.
    pub fn find_granular_position_first(&mut self, target: u64, start_current: bool) -> (r: Result<
        u64,
        OggError,
    >)
        requires
            old(self).wf(),
        ensures
            final(self).wf(),
            final(self)@.bytes == old(self)@.bytes,
            match Self::spec_find_first_from(old(self)@, target as int, start_current) {
                Ok(gv) => r matches Ok(g) && g as int == gv.0 && final(self)@ == gv.1 && g
                    <= target,
                Err(e) => r matches Err(e2) && e2 == e,
            },
    {
        let ghost v0 = self@;
        if !start_current {
            match self.find_start_stream(self.bitstream) {
                Ok(()) => (),
                Err(e) => {
                    return Err(e);
                },
            }
        }
        let mut last_granular = self.granule_position;
        let mut last_pos = self.header_position;
        match self.skip_page() {
            Ok(()) => (),
            Err(e) => {
                return Err(e);
            },
        }
        loop
            invariant
                v0 == old(self)@,
                self.wf(),
                self@.bytes == v0.bytes,
                last_pos <= self@.bytes.len(),
                spec_find_first(
                    v0.bytes,
                    self@.pos,
                    last_granular as int,
                    last_pos as int,
                    target as int,
                ) == Self::spec_find_first_from(v0, target as int, start_current),
            decreases v0.bytes.len() - self@.pos,
        {
            match self.read_page_header_try() {
                Ok(Some(())) => {
                    match self.header_type {
                        OggHeaderType::End => {
                            return Err(OggError::NotFound);
                        },
                        OggHeaderType::Start => {
                            return Err(OggError::MalformedPage);
                        },
                        _ => {
                            if last_granular <= target && target <= self.granule_position {
                                // Go back to the page where the target begins.
                                self.pos = last_pos;
                                match self.read_page_header_expect() {
                                    Ok(()) => {
                                        return Ok(last_granular);
                                    },
                                    Err(e) => {
                                        return Err(e);
                                    },
                                }
                            }
                            if target < self.granule_position {
                                // The target lies below every page
                                // walked: no page holds it.
                                return Err(OggError::NotFound);
                            }
                            last_granular = self.granule_position;
                            last_pos = self.header_position;
                            match self.skip_page() {
                                Ok(()) => (),
                                Err(e) => {
                                    return Err(e);
                                },
                            }
                        },
                    }
                },
                Ok(None) => {
                    return Err(OggError::MalformedPage);
                },
                Err(e) => {
                    return Err(e);
                },
            }
        }
    }
}

/// A valid page header lies whole within the stream and carries a
/// segment table of 1 to 255 entries.
pub proof fn lemma_valid_page_bounds(d: Seq<u8>, i: int)
    requires
        0 <= i,
    ensures
        parse_page_header(d, i) matches PageParse::Valid(p) ==> i + 27 + p.seg_lens.len()
            <= d.len() && 0 < p.seg_lens.len() <= 255,
{
    match parse_page_header(d, i) {
        PageParse::Valid(p) => {
            assert(p.seg_lens.len() == d[i + 26]);
        },
        _ => {},
    }
}

/// The payload bytes ahead of `v`: every segment body of the current
/// and following pages, up to the exhausted End page, concatenated
/// without regard to packet boundaries.
pub open spec fn stream_payload(v: ReaderView) -> Seq<u8>
    decreases 2 * (v.bytes.len() - v.pos) + v.segs.len()
        when 0 <= v.pos <= v.bytes.len()
        via stream_payload_decreases
{
    if v.segs.len() > 0 {
        let s = v.segs.first();
        if v.pos + s > v.bytes.len() {
            Seq::empty()
        } else {
            v.bytes.subrange(v.pos, v.pos + s) + stream_payload(
                ReaderView { pos: v.pos + s, segs: v.segs.drop_first(), ..v },
            )
        }
    } else if v.htype == OggHeaderType::End {
        Seq::empty()
    } else {
        match parse_page_header(v.bytes, v.pos) {
            PageParse::Valid(p) => stream_payload(page_view(v.bytes, v.pos, p)),
            _ => Seq::empty(),
        }
    }
}

#[via_fn]
proof fn stream_payload_decreases(v: ReaderView) {
    if 0 <= v.pos {
        lemma_valid_page_bounds(v.bytes, v.pos);
    }
}

/// A successfully assembled packet leaves a strictly smaller stream
/// behind, over the same bytes.
pub proof fn lemma_packet_next_measure(v: ReaderView, acc: Seq<u8>)
    requires
        0 <= v.pos <= v.bytes.len(),
        v.segs.len() <= 255,
    ensures
        match packet_next(v, acc) {
            PacketStep::Good(b, l, v2) => v2.bytes == v.bytes && 0 <= v2.pos <= v.bytes.len()
                && v2.segs.len() <= 255 && 2 * (v.bytes.len() - v2.pos) + v2.segs.len() < 2 * (
            v.bytes.len() - v.pos) + v.segs.len(),
            PacketStep::Fail(e) => true,
        },
    decreases v.bytes.len() - v.pos + v.segs.len(),
{
    if v.segs.len() == 0 {
        if v.htype != OggHeaderType::End {
            lemma_valid_page_bounds(v.bytes, v.pos);
            match parse_page_header(v.bytes, v.pos) {
                PageParse::Valid(p) => {
                    if p.htype == OggHeaderType::Continuation {
                        lemma_packet_next_measure(page_view(v.bytes, v.pos, p), acc);
                        assert(packet_next(v, acc) == packet_next(
                            page_view(v.bytes, v.pos, p),
                            acc,
                        ));
                        assert(page_view(v.bytes, v.pos, p).segs.len() == p.seg_lens.len());
                        assert(2 * (v.bytes.len() - page_view(v.bytes, v.pos, p).pos) + page_view(
                            v.bytes,
                            v.pos,
                            p,
                        ).segs.len() < 2 * (v.bytes.len() - v.pos) + v.segs.len());
                    }
                },
                _ => {},
            }
        }
    } else {
        let s = v.segs.first();
        if v.pos + s <= v.bytes.len() {
            let acc2 = acc + v.bytes.subrange(v.pos, v.pos + s);
            let v2 = ReaderView { pos: v.pos + s, segs: v.segs.drop_first(), ..v };
            if s == 255 {
                lemma_packet_next_measure(v2, acc2);
                assert(packet_next(v, acc) == packet_next(v2, acc2));
            } else {
                assert(packet_next(v, acc) == packet_done(v2, acc2));
                if v2.segs.len() > 0 {
                } else if v2.htype == OggHeaderType::End {
                } else {
                    lemma_valid_page_bounds(v2.bytes, v2.pos);
                    match parse_page_header(v2.bytes, v2.pos) {
                        PageParse::Valid(p) => {
                            assert(packet_done(v2, acc2) == PacketStep::Good(
                                acc2,
                                false,
                                page_view(v2.bytes, v2.pos, p),
                            ));
                        },
                        _ => {},
                    }
                }
            }
        }
    }
}

/// One assembled packet accounts for exactly the payload bytes it
/// consumed: the payload ahead of `v` is the packet's new bytes
/// followed by the payload ahead of the state it leaves behind.
pub proof fn lemma_packet_next_payload(v: ReaderView, acc: Seq<u8>)
    requires
        0 <= v.pos <= v.bytes.len(),
    ensures
        packet_next(v, acc) matches PacketStep::Good(b, l, v2) ==> acc + stream_payload(v) == b + (
        if l {
            Seq::<u8>::empty()
        } else {
            stream_payload(v2)
        }),
    decreases v.bytes.len() - v.pos + v.segs.len(),
{
    if v.segs.len() == 0 {
        if v.htype != OggHeaderType::End {
            lemma_valid_page_bounds(v.bytes, v.pos);
            match parse_page_header(v.bytes, v.pos) {
                PageParse::Valid(p) => {
                    if p.htype == OggHeaderType::Continuation {
                        lemma_packet_next_payload(page_view(v.bytes, v.pos, p), acc);
                    }
                },
                _ => {},
            }
        }
    } else {
        let s = v.segs.first();
        if v.pos + s <= v.bytes.len() {
            let seg_bytes = v.bytes.subrange(v.pos, v.pos + s);
            let acc2 = acc + seg_bytes;
            let v2 = ReaderView { pos: v.pos + s, segs: v.segs.drop_first(), ..v };
            assert(acc + (seg_bytes + stream_payload(v2)) =~= acc2 + stream_payload(v2));
            if s == 255 {
                lemma_packet_next_payload(v2, acc2);
            } else {
                if v2.segs.len() > 0 {
                } else if v2.htype == OggHeaderType::End {
                    assert(stream_payload(v2) =~= Seq::<u8>::empty());
                    assert(acc2 + Seq::<u8>::empty() =~= acc2);
                } else {
                    lemma_valid_page_bounds(v2.bytes, v2.pos);
                    match parse_page_header(v2.bytes, v2.pos) {
                        PageParse::Valid(p) => {
                            assert(stream_payload(v2) == stream_payload(
                                page_view(v2.bytes, v2.pos, p),
                            ));
                        },
                        _ => {},
                    }
                }
            }
        }
    }
}

/// The concatenation of every packet read until the last flag, or
/// `None` when assembly fails along the way.
pub open spec fn spec_read_all(v: ReaderView) -> Option<Seq<u8>>
    decreases 2 * (v.bytes.len() - v.pos) + v.segs.len()
        when 0 <= v.pos <= v.bytes.len() && v.segs.len() <= 255
        via spec_read_all_decreases
{
    match spec_read_packet(v) {
        PacketStep::Good(bytes, last, v2) => {
            if last {
                Some(bytes)
            } else {
                match spec_read_all(v2) {
                    Some(rest) => Some(bytes + rest),
                    None => None,
                }
            }
        },
        PacketStep::Fail(e) => None,
    }
}

#[via_fn]
proof fn spec_read_all_decreases(v: ReaderView) {
    if v.segs.len() > 0 {
        lemma_packet_next_measure(v, Seq::empty());
    }
}

/// Ogg round-trip: reading all packets of a stream and concatenating
/// them yields exactly the stream's payload bytes. How the payload was
/// cut into segments and spread over pages leaves no trace.
pub proof fn lemma_read_all_is_payload(v: ReaderView, all: Seq<u8>)
    requires
        0 <= v.pos <= v.bytes.len(),
        v.segs.len() <= 255,
        spec_read_all(v) == Some(all),
    ensures
        all == stream_payload(v),
    decreases 2 * (v.bytes.len() - v.pos) + v.segs.len(),
{
    match spec_read_packet(v) {
        PacketStep::Good(bytes, last, v2) => {
            lemma_packet_next_payload(v, Seq::empty());
            lemma_packet_next_measure(v, Seq::empty());
            assert(Seq::<u8>::empty() + stream_payload(v) =~= stream_payload(v));
            if last {
                assert(bytes + Seq::<u8>::empty() =~= bytes);
            } else {
                let rest = spec_read_all(v2)->Some_0;
                lemma_read_all_is_payload(v2, rest);
            }
        },
        PacketStep::Fail(e) => {},
    }
}

/// Two streams carrying the same payload hand out the same bytes once
/// all packets are read, whatever their segmentation.
pub proof fn lemma_round_trip_segmentation_free(
    v1: ReaderView,
    v2: ReaderView,
    a1: Seq<u8>,
    a2: Seq<u8>,
)
    requires
        0 <= v1.pos <= v1.bytes.len(),
        v1.segs.len() <= 255,
        0 <= v2.pos <= v2.bytes.len(),
        v2.segs.len() <= 255,
        spec_read_all(v1) == Some(a1),
        spec_read_all(v2) == Some(a2),
        stream_payload(v1) == stream_payload(v2),
    ensures
        a1 == a2,
{
    lemma_read_all_is_payload(v1, a1);
    lemma_read_all_is_payload(v2, a2);
}

} // verus!
