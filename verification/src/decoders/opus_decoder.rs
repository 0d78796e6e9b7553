//! An Opus stream reader over the Ogg demuxer.
//!
//! The first packet must carry an `OpusHead` header, the second an
//! `OpusTags` comment block. The total length in samples is the final
//! page's granule position minus the pre-skip, and the leading pre-skip
//! samples are decoded and discarded before the exported stream begins.
//! The reader never interprets sample values: a [`PacketDecoder`]
//! supplied by the caller turns packet bytes into PCM frames, and the
//! reader does the framing, trimming and accounting around it.

use crate::decoders::ogg_demuxer::le_bytes;
use crate::decoders::ogg_demuxer::lemma_le_bytes_bound;
use crate::decoders::ogg_demuxer::pow256;
use crate::decoders::ogg_demuxer::OggError;
use crate::decoders::ogg_demuxer::OggReader;
use std::collections::VecDeque;
use vstd::prelude::*;

verus! {

/// The header of an Opus stream.
#[derive(Clone, Copy, Debug)]
pub struct OpusHeader {
    pub version: u8,
    pub channels: u8,
    pub pre_skip: u16,
    /// The rate of the source before it was coded; decoding always
    /// produces 48 kHz output and never consults this.
    pub input_sample_rate: u32,
    pub output_gain: i16,
    pub channel_mapping_family: u8,
}

#[derive(Clone, Copy, Debug, PartialEq, Eq, Structural)]
pub enum OpusPhraseErrorKind {
    /// The bytes are not an Opus header.
    NotValid,
    /// The stream uses an Opus feature this reader does not support.
    Unsupported,
}

/// An error from parsing the Opus header packets.
#[derive(Clone, Copy, Debug, PartialEq, Eq, Structural)]
pub struct OpusPhraseError {
    pub opus_header_error_kind: OpusPhraseErrorKind,
}

/// The signed 16-bit little-endian integer at `i`.
pub open spec fn le_i16(d: Seq<u8>, i: int) -> int {
    if le_bytes(d, i, 2) >= 0x8000 {
        le_bytes(d, i, 2) - 0x10000
    } else {
        le_bytes(d, i, 2)
    }
}

/// Whether `d` begins with the eight magic bytes `m` ("OpusHead" or
/// "OpusTags").
pub open spec fn starts_with_magic(d: Seq<u8>, m: Seq<u8>) -> bool {
    d.len() >= 8 && m.len() == 8 && forall|j: int| 0 <= j < 8 ==> d[j] == m[j]
}

pub open spec fn opus_head_magic() -> Seq<u8> {
    seq![79u8, 112u8, 117u8, 115u8, 72u8, 101u8, 97u8, 100u8]
}

pub open spec fn opus_tags_magic() -> Seq<u8> {
    seq![79u8, 112u8, 117u8, 115u8, 84u8, 97u8, 103u8, 115u8]
}

/// What parsing an `OpusHead` packet yields, checks in stream order.
pub enum OpusHeadParse {
    /// Too short, or the magic signature is absent.
    NotOpusHead,
    /// The version byte is above 15.
    BadVersion,
    /// A channel mapping family other than 0.
    UnsupportedFamily,
    Valid(OpusHeader),
}

pub open spec fn parse_opus_head(d: Seq<u8>) -> OpusHeadParse {
    if d.len() < 19 || !starts_with_magic(d, opus_head_magic()) {
        OpusHeadParse::NotOpusHead
    } else if d[8] > 15 {
        OpusHeadParse::BadVersion
    } else if d[18] != 0 {
        OpusHeadParse::UnsupportedFamily
    } else {
        OpusHeadParse::Valid(
            OpusHeader {
                version: d[8],
                channels: d[9],
                pre_skip: le_bytes(d, 10, 2) as u16,
                input_sample_rate: le_bytes(d, 12, 4) as u32,
                output_gain: le_i16(d, 16) as i16,
                channel_mapping_family: d[18],
            },
        )
    }
}

impl OpusHeader {
    /// Parse the `OpusHead` packet: magic signature, version at most
    /// 15, then the fixed header fields; only channel mapping family 0
    /// is supported.
    pub fn new(header: &Vec<u8>) -> (r: Result<OpusHeader, OpusPhraseError>)
        ensures
            match parse_opus_head(header@) {
                OpusHeadParse::Valid(h) => r matches Ok(g) && g == h,
                OpusHeadParse::NotOpusHead => r matches Err(e) && e.opus_header_error_kind
                    == OpusPhraseErrorKind::NotValid,
                OpusHeadParse::BadVersion => r matches Err(e) && e.opus_header_error_kind
                    == OpusPhraseErrorKind::NotValid,
                OpusHeadParse::UnsupportedFamily => r matches Err(e) && e.opus_header_error_kind
                    == OpusPhraseErrorKind::Unsupported,
            },
    {
        if header.len() < 19 {
            return Err(
                OpusPhraseError { opus_header_error_kind: OpusPhraseErrorKind::NotValid },
            );
        }
        if header[0] != 79 || header[1] != 112 || header[2] != 117 || header[3] != 115
            || header[4] != 72 || header[5] != 101 || header[6] != 97 || header[7] != 100 {
            return Err(
                OpusPhraseError { opus_header_error_kind: OpusPhraseErrorKind::NotValid },
            );
        }
        let version = header[8];
        if version > 15 {
            return Err(
                OpusPhraseError { opus_header_error_kind: OpusPhraseErrorKind::NotValid },
            );
        }
        let channels = header[9];
        let pre_skip = (header[10] as u16) + 256 * (header[11] as u16);
        let input_sample_rate = (header[12] as u32) + 256 * ((header[13] as u32) + 256 * ((
        header[14] as u32) + 256 * (header[15] as u32)));
        let raw_gain: u32 = (header[16] as u32) + 256 * (header[17] as u32);
        let output_gain: i16 = if raw_gain >= 0x8000 {
            ((raw_gain as i32) - 0x10000) as i16
        } else {
            raw_gain as i16
        };
        let channel_mapping_family = header[18];
        if channel_mapping_family != 0 {
            return Err(
                OpusPhraseError { opus_header_error_kind: OpusPhraseErrorKind::Unsupported },
            );
        }
        proof {
            let d = header@;
            reveal_with_fuel(le_bytes, 5);
            assert(starts_with_magic(d, opus_head_magic()));
            assert(le_bytes(d, 10, 2) == d[10] + 256 * d[11]);
            assert(le_bytes(d, 12, 4) == d[12] + 256 * (d[13] + 256 * (d[14] + 256 * d[15])));
            assert(le_bytes(d, 16, 2) == d[16] + 256 * d[17]);
        }
        Ok(
            OpusHeader {
                version,
                channels,
                pre_skip,
                input_sample_rate,
                output_gain,
                channel_mapping_family,
            },
        )
    }
}

/// Turns one Opus packet into PCM samples, interleaved when there is
/// more than one channel. The playback layer implements this with an
/// Opus codec; `None` reports a corrupt or undecodable packet.
pub trait PacketDecoder<S> {
    fn decode_packet(&mut self, packet: &Vec<u8>) -> Option<Vec<S>>;
}

/// Errors surfaced by the Opus reader.
#[derive(Clone, Copy, Debug, PartialEq, Eq, Structural)]
pub enum OpusError {
    /// The Ogg layer failed.
    Ogg(OggError),
    /// The header packets could not be parsed.
    Header(OpusPhraseError),
    /// The packet decoder rejected a packet, or returned a frame of an
    /// unexpected size.
    DecodeFailed,
    /// Consecutive decode failures exhausted the retry budget.
    DecodeRetryExceeded,
    /// A seek target beyond the length of the stream.
    SeekOutOfRange,
    /// The granule positions contradict the packets of the stream.
    Inconsistent,
}

/// Everything `new` decides from the bytes alone, before any decoder
/// call: open the demuxer, read the header packet and parse
/// `OpusHead`, check the channel count, read and check the `OpusTags`
/// packet, and take the stream's length from the final page's granule
/// position minus the pre-skip.
pub open spec fn spec_opus_open(d: Seq<u8>) -> Result<(OpusHeader, u64), OpusError> {
    match crate::decoders::ogg_demuxer::parse_page_header(d, 0) {
        crate::decoders::ogg_demuxer::PageParse::Valid(p) => {
            let v0 = crate::decoders::ogg_demuxer::page_view(d, 0, p);
            match crate::decoders::ogg_demuxer::spec_read_packet(v0) {
                crate::decoders::ogg_demuxer::PacketStep::Good(b1, l1, v1) => {
                    match parse_opus_head(b1) {
                        OpusHeadParse::Valid(h) => {
                            if h.channels != 1 && h.channels != 2 {
                                Err(
                                    OpusError::Header(
                                        OpusPhraseError {
                                            opus_header_error_kind:
                                                OpusPhraseErrorKind::Unsupported,
                                        },
                                    ),
                                )
                            } else {
                                match crate::decoders::ogg_demuxer::spec_read_packet(v1) {
                                    crate::decoders::ogg_demuxer::PacketStep::Good(b2, l2, v2) => {
                                        if !starts_with_magic(b2, opus_tags_magic()) {
                                            Err(
                                                OpusError::Header(
                                                    OpusPhraseError {
                                                        opus_header_error_kind:
                                                            OpusPhraseErrorKind::NotValid,
                                                    },
                                                ),
                                            )
                                        } else if v2.pos + crate::decoders::ogg_demuxer::seg_sum(
                                            v2.segs,
                                        ) > d.len() {
                                            Err(OpusError::Ogg(OggError::UnexpectedEof))
                                        } else {
                                            match crate::decoders::ogg_demuxer::spec_last_granule(
                                                d,
                                                v2.pos + crate::decoders::ogg_demuxer::seg_sum(
                                                    v2.segs,
                                                ),
                                            ) {
                                                Ok(g) => {
                                                    if g < h.pre_skip {
                                                        Err(OpusError::Inconsistent)
                                                    } else {
                                                        Ok((h, (g - h.pre_skip) as u64))
                                                    }
                                                },
                                                Err(e) => Err(OpusError::Ogg(e)),
                                            }
                                        }
                                    },
                                    crate::decoders::ogg_demuxer::PacketStep::Fail(e) => Err(
                                        OpusError::Ogg(e),
                                    ),
                                }
                            }
                        },
                        OpusHeadParse::NotOpusHead => Err(
                            OpusError::Header(
                                OpusPhraseError {
                                    opus_header_error_kind: OpusPhraseErrorKind::NotValid,
                                },
                            ),
                        ),
                        OpusHeadParse::BadVersion => Err(
                            OpusError::Header(
                                OpusPhraseError {
                                    opus_header_error_kind: OpusPhraseErrorKind::NotValid,
                                },
                            ),
                        ),
                        OpusHeadParse::UnsupportedFamily => Err(
                            OpusError::Header(
                                OpusPhraseError {
                                    opus_header_error_kind: OpusPhraseErrorKind::Unsupported,
                                },
                            ),
                        ),
                    }
                },
                crate::decoders::ogg_demuxer::PacketStep::Fail(e) => Err(OpusError::Ogg(e)),
            }
        },
        crate::decoders::ogg_demuxer::PageParse::NotAPage => Err(
            OpusError::Ogg(OggError::NotValidOgg),
        ),
        crate::decoders::ogg_demuxer::PageParse::TooShort => Err(
            OpusError::Ogg(OggError::UnexpectedEof),
        ),
        crate::decoders::ogg_demuxer::PageParse::BadVersion => Err(
            OpusError::Ogg(OggError::UnsupportedVersion),
        ),
        crate::decoders::ogg_demuxer::PageParse::NoSegments => Err(
            OpusError::Ogg(OggError::MalformedPage),
        ),
    }
}

/// An Opus stream reader: demuxes packets, hands them to a
/// [`PacketDecoder`], trims pre-skip and end-of-stream padding, and
/// accounts for every sample.
///
/// `length` and `left` count samples per channel; the buffer holds
/// interleaved values, `channels` of them per sample.
pub struct OpusReader<S> {
    pub ogg_reader: OggReader,
    pub opus_header: OpusHeader,
    pub buffer: VecDeque<S>,
    /// Samples per channel produced by one packet.
    pub package_size: usize,
    /// Length of the exported stream in samples.
    pub length: u64,
    pub finished: bool,
    /// Samples not yet decoded or skipped.
    pub left: u64,
    /// Interleaved values handed out or skipped over so far.
    pub delivered_values: Ghost<nat>,
}

impl<S: Copy> OpusReader<S> {
    pub open spec fn channels(&self) -> int {
        self.opus_header.channels as int
    }

    /// Sample accounting: every decoded value of the stream is either
    /// still buffered, or was handed out or skipped.
    pub open spec fn inv(&self) -> bool {
        &&& self.ogg_reader.wf()
        &&& 1 <= self.opus_header.channels <= 2
        &&& self.package_size > 0
        &&& self.package_size * self.channels() <= usize::MAX
        &&& self.left <= self.length
        &&& self.delivered_values@ + self.buffer@.len() == (self.length - self.left)
            * self.channels()
        &&& (self.finished ==> self.left == 0)
    }

    /// Interleaved values handed out by `fill` or skipped by `goto`.
    pub open spec fn delivered(&self) -> nat {
        self.delivered_values@
    }

    /// Where the next value `fill` hands out sits in the exported
    /// stream, in interleaved values: `channels` of them per sample.
    pub open spec fn pos_values(&self) -> int {
        (self.length - self.left) * self.channels() - self.buffer@.len()
    }

    /// Decode one packet and push its samples: a packet flagged last is
    /// trimmed to the samples that remain of the stream's length,
    /// dropping the pre-allocated padding from its end; any other
    /// packet must produce one whole frame. The stream position never
    /// moves.
    fn add_buffer<D: PacketDecoder<S>>(&mut self, dec: &mut D) -> (r: Result<(), OpusError>)
        requires
            old(self).inv(),
            !old(self).finished,
        ensures
            final(self).inv(),
            final(self).opus_header == old(self).opus_header,
            final(self).length == old(self).length,
            final(self).package_size == old(self).package_size,
            final(self).delivered_values == old(self).delivered_values,
            final(self).left <= old(self).left,
            final(self).pos_values() == old(self).pos_values(),
            r matches Ok(()) ==> final(self).buffer@.len() >= old(self).buffer@.len() && (forall|
                j: int,
            |
                0 <= j < old(self).buffer@.len() ==> final(self).buffer@[j] == old(self).buffer@[j]),
            // A packet's decoded frame joins the buffer whole; the
            // final frame is cut after the samples that remain of the
            // stream, dropping the padding at its end.
            r matches Ok(()) ==> (exists|frame: Seq<S>|
                frame.len() == old(self).package_size * old(self).opus_header.channels && (final(self).finished ==> final(self).buffer@ == old(self).buffer@ + frame.take(
                    (old(self).left * old(self).opus_header.channels) as int,
                )) && (!final(self).finished ==> final(self).buffer@ == old(self).buffer@
                    + frame)),
            r matches Ok(()) ==> final(self).finished || final(self).buffer@.len() == old(self).buffer@.len() + old(self).package_size * old(self).opus_header.channels,
            r matches Ok(()) && !final(self).finished ==> final(self).left == old(self).left
                - old(self).package_size,
            r matches Err(e) ==> final(self).buffer == old(self).buffer && final(self).left == old(self).left && final(self).finished == old(self).finished && (e == OpusError::DecodeFailed
                || e == OpusError::Inconsistent || e matches OpusError::Ogg(_)),
    {
        let ghost pre = *self;
        let (pkt, last) = match self.ogg_reader.read_packet() {
            Ok(p) => p,
            Err(e) => {
                return Err(OpusError::Ogg(e));
            },
        };
        let samples = match dec.decode_packet(&pkt) {
            Some(s) => s,
            None => {
                return Err(OpusError::DecodeFailed);
            },
        };
        let ch = self.opus_header.channels as usize;
        if samples.len() != self.package_size * ch {
            return Err(OpusError::DecodeFailed);
        }
        if last {
            if self.left > self.package_size as u64 {
                return Err(OpusError::Inconsistent);
            }
            let lastlen = self.left as usize;
            proof {
                assert(lastlen * ch <= self.package_size * ch) by (nonlinear_arith)
                    requires
                        0 <= lastlen <= self.package_size,
                        0 <= ch,
                ;
            }
            let keep = lastlen * ch;
            let ghost buf0 = self.buffer@;
            let mut k: usize = 0;
            while k < keep
                invariant
                    k <= keep,
                    keep <= samples@.len(),
                    self.buffer@.len() == buf0.len() + k,
                    self.buffer@ == buf0 + samples@.take(k as int),
                    forall|j: int| 0 <= j < buf0.len() ==> self.buffer@[j] == buf0[j],
                    self.opus_header == pre.opus_header,
                    self.length == pre.length,
                    self.package_size == pre.package_size,
                    self.left == pre.left,
                    self.finished == pre.finished,
                    self.delivered_values == pre.delivered_values,
                    self.ogg_reader.wf(),
                decreases keep - k,
            {
                proof {
                    assert(samples@.take(k + 1) =~= samples@.take(k as int).push(
                        samples@[k as int],
                    ));
                    assert((buf0 + samples@.take(k as int)).push(samples@[k as int]) =~= buf0
                        + samples@.take(k + 1));
                }
                self.buffer.push_back(samples[k]);
                k = k + 1;
            }
            proof {
                assert(samples@.take(keep as int) == samples@.take(
                    (self.left * self.opus_header.channels) as int,
                ));
            }
            self.left = 0;
            self.finished = true;
            proof {
                assert(pre.length as int * pre.channels() == (pre.length - pre.left)
                    * pre.channels() + pre.left * pre.channels()) by (nonlinear_arith);
                assert(keep == pre.left * pre.channels());
            }
            Ok(())
        } else {
            if self.left < self.package_size as u64 {
                return Err(OpusError::Inconsistent);
            }
            let n = samples.len();
            let ghost buf0 = self.buffer@;
            let mut k: usize = 0;
            while k < n
                invariant
                    k <= n,
                    n == samples@.len(),
                    self.buffer@.len() == buf0.len() + k,
                    self.buffer@ == buf0 + samples@.take(k as int),
                    forall|j: int| 0 <= j < buf0.len() ==> self.buffer@[j] == buf0[j],
                    self.opus_header == pre.opus_header,
                    self.length == pre.length,
                    self.package_size == pre.package_size,
                    self.left == pre.left,
                    self.finished == pre.finished,
                    self.delivered_values == pre.delivered_values,
                    self.ogg_reader.wf(),
                decreases n - k,
            {
                proof {
                    assert(samples@.take(k + 1) =~= samples@.take(k as int).push(
                        samples@[k as int],
                    ));
                    assert((buf0 + samples@.take(k as int)).push(samples@[k as int]) =~= buf0
                        + samples@.take(k + 1));
                }
                self.buffer.push_back(samples[k]);
                k = k + 1;
            }
            proof {
                assert(samples@.take(n as int) =~= samples@);
            }
            self.left = self.left - self.package_size as u64;
            proof {
                assert((pre.length - pre.left + pre.package_size) * pre.channels() == (pre.length
                    - pre.left) * pre.channels() + pre.package_size * pre.channels())
                    by (nonlinear_arith);
            }
            Ok(())
        }
    }

    /// Open an Opus stream: parse `OpusHead`, skip `OpusTags`, take the
    /// length from the final page's granule position minus the
    /// pre-skip, then decode forward until the pre-skip samples are
    /// buffered and drop them, so the exported stream begins at 0.
    #[verifier::loop_isolation(false)]
    pub fn new<D: PacketDecoder<S>>(data: Vec<u8>, dec: &mut D) -> (r: Result<
        OpusReader<S>,
        OpusError,
    >)
        ensures
            (match spec_opus_open(data@) {
                Ok(_) => true,
                Err(e) => r matches Err(e2) && e2 == e,
            }),
            (match spec_opus_open(data@) {
                Ok((h, len)) => {
                    &&& (r matches Ok(rd) ==> rd.inv() && !rd.finished && rd.pos_values() == 0
                        && rd.delivered() == 0 && rd.opus_header == h && rd.length == len)
                    &&& (r matches Err(e2) ==> (e2 == OpusError::DecodeFailed || e2
                        == OpusError::Inconsistent || e2 matches OpusError::Ogg(_)))
                },
                Err(_) => true,
            }),
    {
        let mut ogg_reader = match OggReader::try_new(data) {
            Ok(o) => o,
            Err(e) => {
                return Err(OpusError::Ogg(e));
            },
        };
        // The first packet holds the OpusHead header.
        let (head_pkt, _) = match ogg_reader.read_packet() {
            Ok(p) => p,
            Err(e) => {
                return Err(OpusError::Ogg(e));
            },
        };
        let opus_header = match OpusHeader::new(&head_pkt) {
            Ok(h) => h,
            Err(e) => {
                return Err(OpusError::Header(e));
            },
        };
        if opus_header.channels != 1 && opus_header.channels != 2 {
            return Err(
                OpusError::Header(
                    OpusPhraseError { opus_header_error_kind: OpusPhraseErrorKind::Unsupported },
                ),
            );
        }
        // The second packet must be the OpusTags comment block.
        let (tags_pkt, _) = match ogg_reader.read_packet() {
            Ok(p) => p,
            Err(e) => {
                return Err(OpusError::Ogg(e));
            },
        };
        if tags_pkt.len() < 8 || tags_pkt[0] != 79 || tags_pkt[1] != 112 || tags_pkt[2] != 117
            || tags_pkt[3] != 115 || tags_pkt[4] != 84 || tags_pkt[5] != 97 || tags_pkt[6] != 103
            || tags_pkt[7] != 115 {
            return Err(
                OpusError::Header(
                    OpusPhraseError { opus_header_error_kind: OpusPhraseErrorKind::NotValid },
                ),
            );
        }
        // The length in samples of the exported stream.
        let last_granule = match ogg_reader.last_granular_position() {
            Ok(g) => g,
            Err(e) => {
                return Err(OpusError::Ogg(e));
            },
        };
        if last_granule < opus_header.pre_skip as u64 {
            return Err(OpusError::Inconsistent);
        }
        let length = last_granule - opus_header.pre_skip as u64;
        let ch = opus_header.channels as usize;
        // Size the frame from the first audio packet.
        let (first_pkt, first_last) = match ogg_reader.read_packet() {
            Ok(p) => p,
            Err(e) => {
                return Err(OpusError::Ogg(e));
            },
        };
        if first_last {
            return Err(OpusError::Inconsistent);
        }
        let first_samples = match dec.decode_packet(&first_pkt) {
            Some(s) => s,
            None => {
                return Err(OpusError::DecodeFailed);
            },
        };
        if first_samples.len() == 0 || first_samples.len() % ch != 0 {
            return Err(OpusError::DecodeFailed);
        }
        let package_size = first_samples.len() / ch;
        if package_size as u64 > length {
            return Err(OpusError::Inconsistent);
        }
        let mut reader = OpusReader {
            ogg_reader,
            opus_header,
            buffer: VecDeque::new(),
            package_size,
            length,
            finished: false,
            left: length,
            delivered_values: Ghost(0nat),
        };
        proof {
            assert(package_size * ch == first_samples@.len()) by (nonlinear_arith)
                requires
                    ch >= 1,
                    first_samples@.len() % (ch as nat) == 0,
                    package_size == first_samples@.len() as int / (ch as int),
            ;
        }
        let n = first_samples.len();
        let mut k: usize = 0;
        while k < n
            invariant
                k <= n,
                n == first_samples@.len(),
                reader.buffer@.len() == k,
                reader.opus_header == opus_header,
                reader.package_size == package_size,
                reader.length == length,
                reader.left == length,
                !reader.finished,
                reader.delivered_values@ == 0,
                reader.ogg_reader.wf(),
            decreases n - k,
        {
            reader.buffer.push_back(first_samples[k]);
            k = k + 1;
        }
        reader.left = reader.left - package_size as u64;
        proof {
            assert((length - (length - package_size)) * (ch as int) == package_size * ch)
                by (nonlinear_arith);
        }
        // Decode forward until the pre-skip samples are buffered.
        proof {
            assert((opus_header.pre_skip as int) * (ch as int) <= 131070) by (nonlinear_arith)
                requires
                    opus_header.pre_skip <= 65535,
                    0 <= ch <= 2,
            ;
        }
        let pre_skip_values = (opus_header.pre_skip as usize) * ch;
        while reader.buffer.len() < pre_skip_values
            invariant
                reader.inv(),
                reader.opus_header == opus_header,
                reader.package_size == package_size,
                reader.length == length,
                reader.delivered_values@ == 0,
                pre_skip_values == opus_header.pre_skip * ch,
                ch == opus_header.channels as int,
            decreases (if reader.finished {
                0int
            } else {
                1int
            }), (if reader.buffer@.len() < pre_skip_values {
                pre_skip_values - reader.buffer@.len()
            } else {
                0int
            }),
        {
            if reader.finished {
                return Err(OpusError::Inconsistent);
            }
            match reader.add_buffer(dec) {
                Ok(()) => (),
                Err(e) => {
                    return Err(e);
                },
            }
            proof {
                assert(reader.package_size * reader.channels() >= 1) by (nonlinear_arith)
                    requires
                        reader.package_size >= 1,
                        reader.channels() >= 1,
                ;
            }
        }
        if reader.finished {
            return Err(OpusError::Inconsistent);
        }
        // Drop the pre-skip: the exported stream starts after it. The
        // dropped samples lie before sample 0 and count as undecoded
        // work done in advance, so `left` grows back by the pre-skip.
        let ghost before_drop = reader;
        let mut k2: usize = 0;
        while k2 < pre_skip_values
            invariant
                k2 <= pre_skip_values,
                before_drop.buffer@.len() >= pre_skip_values,
                reader.buffer@.len() == before_drop.buffer@.len() - k2,
                reader.opus_header == before_drop.opus_header,
                reader.package_size == before_drop.package_size,
                reader.length == before_drop.length,
                reader.left == before_drop.left,
                reader.finished == before_drop.finished,
                reader.delivered_values == before_drop.delivered_values,
                reader.ogg_reader == before_drop.ogg_reader,
            decreases pre_skip_values - k2,
        {
            let popped = reader.buffer.pop_front();
            proof {
                assert(popped is Some);
            }
            k2 = k2 + 1;
        }
        if reader.length - reader.left < opus_header.pre_skip as u64 {
            return Err(OpusError::Inconsistent);
        }
        reader.left = reader.left + opus_header.pre_skip as u64;
        proof {
            assert((before_drop.length - before_drop.left) * (ch as int) - opus_header.pre_skip
                * ch == (reader.length - reader.left) * (ch as int)) by (nonlinear_arith)
                requires
                    reader.length == before_drop.length,
                    reader.left == before_drop.left + opus_header.pre_skip,
                    ch == reader.channels(),
                    before_drop.channels() == reader.channels(),
            ;
        }
        Ok(reader)
    }

    /// Fill `data` entirely: decode packets until the buffer can cover
    /// it, then hand out buffered values, padding with `silence` only
    /// when the stream ran out. Corrupt packets are retried up to
    /// `MAXERROR` times before the error surfaces. Returns the samples
    /// left in the stream.
    pub fn fill<D: PacketDecoder<S>>(
        &mut self,
        data: &mut Vec<S>,
        silence: S,
        dec: &mut D,
    ) -> (r: Result<u64, OpusError>)
        requires
            old(self).inv(),
        ensures
            final(self).inv(),
            final(self).opus_header == old(self).opus_header,
            final(self).length == old(self).length,
            final(self).package_size == old(self).package_size,
            final(self).left <= old(self).left,
            final(data)@.len() == old(data)@.len(),
            r matches Ok(x) ==> x == final(self).left,
            r matches Err(e) ==> e == OpusError::DecodeRetryExceeded,
            old(self).finished ==> r matches Ok(_),
            old(self).buffer@.len() >= old(data)@.len() ==> r matches Ok(_),
            r matches Ok(_) ==> (forall|i: int|
                0 <= i < old(data)@.len() && i < old(self).buffer@.len() ==> final(data)@[i]
                    == old(self).buffer@[i]),
            r matches Ok(_) ==> (forall|i: int|
                final(self).delivered() - old(self).delivered() <= i < old(data)@.len()
                    ==> final(data)@[i] == silence),
            final(self).delivered() >= old(self).delivered(),
            final(self).delivered() <= old(self).delivered() + old(data)@.len(),
            r matches Ok(_) && !final(self).finished ==> final(self).delivered() == old(self).delivered() + old(data)@.len() && final(self).pos_values() == old(self).pos_values()
                + old(data)@.len(),
    {
        let ghost pre = *self;
        let mut errors: u32 = 0;
        let need = data.len();
        while need > self.buffer.len() && !self.finished && errors < crate::decoders::MAXERROR
            invariant
                self.inv(),
                self.opus_header == pre.opus_header,
                self.length == pre.length,
                self.package_size == pre.package_size,
                self.left <= pre.left,
                self.delivered_values == pre.delivered_values,
                self.pos_values() == pre.pos_values(),
                self.buffer@.len() >= pre.buffer@.len(),
                forall|j: int| 0 <= j < pre.buffer@.len() ==> self.buffer@[j] == pre.buffer@[j],
                need == data@.len(),
                errors <= crate::decoders::MAXERROR,
                pre.finished ==> self.finished && errors == 0,
                pre.buffer@.len() >= need ==> errors == 0,
            decreases (crate::decoders::MAXERROR - errors), (if self.finished {
                0int
            } else {
                1int
            }), (if self.buffer@.len() < need {
                need - self.buffer@.len()
            } else {
                0int
            }),
        {
            match self.add_buffer(dec) {
                Ok(()) => {
                    proof {
                        assert(self.package_size * self.channels() >= 1) by (nonlinear_arith)
                            requires
                                self.package_size >= 1,
                                self.channels() >= 1,
                        ;
                    }
                },
                Err(_) => {
                    errors = errors + 1;
                },
            }
        }
        if errors >= crate::decoders::MAXERROR {
            return Err(OpusError::DecodeRetryExceeded);
        }
        // Hand out the buffered values; only an exhausted stream is
        // padded with silence.
        let ghost mid = *self;
        let ghost data0 = data@;
        let mut i: usize = 0;
        let mut popped: usize = 0;
        while i < need
            invariant
                i <= need,
                popped <= i,
                need == data@.len(),
                self.opus_header == mid.opus_header,
                self.length == mid.length,
                self.package_size == mid.package_size,
                self.left == mid.left,
                self.finished == mid.finished,
                self.ogg_reader == mid.ogg_reader,
                self.buffer@.len() == mid.buffer@.len() - popped,
                self.buffer@ == mid.buffer@.skip(popped as int),
                self.delivered_values@ == mid.delivered_values@ + popped,
                mid.buffer@.len() >= need ==> popped == i,
                popped == i || popped == mid.buffer@.len(),
                forall|j: int| 0 <= j < popped && j < need ==> data@[j] == mid.buffer@[j],
                forall|j: int| popped <= j < i ==> data@[j] == silence,
                mid.inv(),
            decreases need - i,
        {
            match self.buffer.pop_front() {
                Some(x) => {
                    proof {
                        assert(x == mid.buffer@[popped as int]);
                        assert(mid.buffer@.skip(popped as int).subrange(
                            1,
                            mid.buffer@.skip(popped as int).len() as int,
                        ) =~= mid.buffer@.skip(popped + 1));
                    }
                    data.set(i, x);
                    popped = popped + 1;
                    proof {
                        self.delivered_values@ = self.delivered_values@ + 1;
                    }
                },
                None => {
                    data.set(i, silence);
                },
            }
            i = i + 1;
        }
        proof {
            assert(forall|j: int|
                0 <= j < need && j < pre.buffer@.len() ==> data@[j] == mid.buffer@[j]
                    && mid.buffer@[j] == pre.buffer@[j]);
        }
        Ok(self.left)
    }

    /// Seek so that the next value handed out is sample `target` of the
    /// exported stream: walk the pages to the one covering `target`,
    /// skip whole packets without decoding them, then decode one frame
    /// and discard the leading remainder. Targets beyond the stream are
    /// rejected.
    #[verifier::loop_isolation(false)]
    pub fn goto<D: PacketDecoder<S>>(&mut self, target: u64, dec: &mut D) -> (r: Result<
        (),
        OpusError,
    >)
        requires
            old(self).inv(),
        ensures
            final(self).inv(),
            final(self).opus_header == old(self).opus_header,
            final(self).length == old(self).length,
            final(self).package_size == old(self).package_size,
            (r matches Err(e) && e == OpusError::SeekOutOfRange) <==> target > old(self).length,
            target <= old(self).length ==> (match crate::decoders::ogg_demuxer::OggReader::spec_find_last_from(
                old(self).ogg_reader@,
                target as int,
                target as int > old(self).ogg_reader@.granule,
            ) {
                Err(e) => r matches Err(e2) && e2 == OpusError::Ogg(e),
                Ok(_) => r matches Err(e2) ==> (e2 == OpusError::DecodeFailed || e2
                    == OpusError::Inconsistent || e2 matches OpusError::Ogg(_)),
            }),
            r matches Ok(()) ==> final(self).pos_values() == target * final(self).channels()
                && final(self).left <= final(self).length - target,
    {
        let ghost pre = *self;
        if target > self.length {
            return Err(OpusError::SeekOutOfRange);
        }
        let cur = self.ogg_reader.granular_position();
        let gran = if target > cur {
            match self.ogg_reader.find_granular_position_last(target, true) {
                Ok(g) => g,
                Err(e) => {
                    return Err(OpusError::Ogg(e));
                },
            }
        } else {
            match self.ogg_reader.find_granular_position_last(target, false) {
                Ok(g) => g,
                Err(e) => {
                    return Err(OpusError::Ogg(e));
                },
            }
        };
        let ps64 = self.package_size as u64;
        let off = target - gran;
        let to_skip_packets = off / ps64;
        proof {
            let q = off as int / ps64 as int;
            let m = off as int % ps64 as int;
            vstd::arithmetic::div_mod::lemma_fundamental_div_mod(off as int, ps64 as int);
            assert(q * (ps64 as int) <= off as int) by (nonlinear_arith)
                requires
                    off as int == ps64 as int * q + m,
                    m >= 0,
            ;
        }
        // Skip whole packets; their samples lie before the remainder.
        let mut j: u64 = 0;
        while j < to_skip_packets
            invariant
                pre == *old(self),
                pre.inv(),
                j <= to_skip_packets,
                self.ogg_reader.wf(),
                self.opus_header == pre.opus_header,
                self.length == pre.length,
                self.package_size == pre.package_size,
            decreases to_skip_packets - j,
        {
            match self.ogg_reader.read_packet() {
                Ok(_) => (),
                Err(e) => {
                    // The stream stays consistent; the position is lost.
                    self.buffer.clear();
                    self.finished = false;
                    self.left = self.length;
                    self.delivered_values = Ghost(0nat);
                    proof {
                        assert((self.length - self.left) * self.channels() == 0)
                            by (nonlinear_arith)
                            requires
                                self.left == self.length,
                        ;
                    }
                    return Err(OpusError::Ogg(e));
                },
            }
            j = j + 1;
        }
        let ch = self.opus_header.channels as usize;
        let rem = (off % ps64) as usize;
        proof {
            assert(rem * ch <= self.package_size * ch) by (nonlinear_arith)
                requires
                    0 <= rem <= self.package_size,
                    0 <= ch,
            ;
        }
        let need = rem * ch;
        self.buffer.clear();
        self.finished = false;
        self.left = self.length - gran - to_skip_packets * ps64;
        proof {
            self.delivered_values@ = ((self.length - self.left) * self.channels()) as nat;
            assert((self.length - self.left) * self.channels() >= 0) by (nonlinear_arith)
                requires
                    self.left <= self.length,
                    self.channels() >= 0,
            ;
        }
        let ghost pv0 = self.pos_values();
        // Decode until the remainder inside the frame is buffered.
        while self.buffer.len() < need
            invariant
                pre == *old(self),
                self.inv(),
                self.opus_header == pre.opus_header,
                self.length == pre.length,
                self.package_size == pre.package_size,
                self.pos_values() == pv0,
                need == rem * ch,
                ch == self.channels(),
            decreases (if self.finished {
                0int
            } else {
                1int
            }), (if self.buffer@.len() < need {
                need - self.buffer@.len()
            } else {
                0int
            }),
        {
            if self.finished {
                return Err(OpusError::Inconsistent);
            }
            match self.add_buffer(dec) {
                Ok(()) => (),
                Err(e) => {
                    return Err(e);
                },
            }
            proof {
                assert(self.package_size * self.channels() >= 1) by (nonlinear_arith)
                    requires
                        self.package_size >= 1,
                        self.channels() >= 1,
                ;
            }
        }
        // Discard the remainder: those values lie before the target.
        let ghost mid = *self;
        let mut k: usize = 0;
        while k < need
            invariant
                pre == *old(self),
                mid.inv(),
                mid.pos_values() == pv0,
                ps64 == mid.package_size,
                k <= need,
                mid.buffer@.len() >= need,
                self.buffer@.len() == mid.buffer@.len() - k,
                self.delivered_values@ == mid.delivered_values@ + k,
                self.opus_header == mid.opus_header,
                self.length == mid.length,
                self.package_size == mid.package_size,
                self.left == mid.left,
                self.finished == mid.finished,
                self.ogg_reader == mid.ogg_reader,
            decreases need - k,
        {
            match self.buffer.pop_front() {
                Some(_) => {
                    proof {
                        self.delivered_values@ = self.delivered_values@ + 1;
                    }
                },
                None => {
                    proof {
                        assert(false);
                    }
                },
            }
            k = k + 1;
        }
        proof {
            assert(self.pos_values() == pv0 + need);
            assert(pv0 == (gran + to_skip_packets * ps64) * (ch as int)) by (nonlinear_arith)
                requires
                    pv0 == (pre.length - (pre.length - gran - to_skip_packets * ps64)) * (
                    ch as int),
                    self.length == pre.length,
            ;
            assert((gran + to_skip_packets * ps64) * (ch as int) + rem * ch == (gran
                + to_skip_packets * ps64 + rem) * (ch as int)) by (nonlinear_arith);
            assert(gran + to_skip_packets * ps64 + rem == target as int) by {
                let q = off as int / ps64 as int;
                let m = off as int % ps64 as int;
                vstd::arithmetic::div_mod::lemma_fundamental_div_mod(off as int, ps64 as int);
                assert(q * (ps64 as int) + m == off as int) by (nonlinear_arith)
                    requires
                        off as int == ps64 as int * q + m,
                ;
            }
            assert(self.left <= self.length - target) by (nonlinear_arith)
                requires
                    self.pos_values() == target * (ch as int),
                    self.pos_values() == (self.length - self.left) * (ch as int)
                        - self.buffer@.len(),
                    self.buffer@.len() >= 0,
                    ch >= 1,
                    self.left <= self.length,
            ;
        }
        Ok(())
    }
}


/// Opus length conservation: when the stream is exhausted — the final
/// packet decoded, every buffered value handed out — the values
/// delivered across all `fill` calls amount to exactly the stream's
/// length, the final granule position minus the pre-skip, times the
/// channel count.
pub proof fn lemma_length_conservation<S: Copy>(r: &OpusReader<S>)
    requires
        r.inv(),
        r.finished,
        r.buffer@.len() == 0,
    ensures
        r.delivered() == r.length * r.channels(),
{
}

/// Seek idempotence: `goto(t)` leaves the reader at sample `t` of the
/// exported stream whatever its position was before, so seeking twice
/// to the same target puts two readers at the same next sample.
pub proof fn lemma_seek_idempotent<S: Copy>(a: &OpusReader<S>, b: &OpusReader<S>, t: u64)
    requires
        a.inv(),
        b.inv(),
        a.channels() == b.channels(),
        a.pos_values() == t * a.channels(),
        b.pos_values() == t * b.channels(),
    ensures
        a.pos_values() == b.pos_values(),
{
}

/// Seek monotonicity: after `goto(t)` the source index of the next
/// sample handed out is exactly `t` — in particular it lies within the
/// frame-sized window ending at `t`.
pub proof fn lemma_seek_position<S: Copy>(r: &OpusReader<S>, t: u64)
    requires
        r.inv(),
        r.pos_values() == t * r.channels(),
    ensures
        (t - r.package_size) * r.channels() <= r.pos_values() <= t * r.channels(),
{
    assert((t - r.package_size) * r.channels() <= t * r.channels()) by (nonlinear_arith)
        requires
            r.package_size >= 0,
            r.channels() >= 0,
    ;
}

} // verus!
