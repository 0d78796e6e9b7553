//! Decoders for the playback engine: the Ogg demuxer, the Opus stream
//! reader built on top of it, and the decoder union that the engine
//! owns so it can exist before a track is chosen and swap tracks
//! without tearing down the audio callback.

pub mod ogg_demuxer;
pub mod opus_decoder;

use crate::decoders::opus_decoder::OpusError;
use crate::decoders::opus_decoder::OpusReader;
use crate::decoders::opus_decoder::PacketDecoder;
use vstd::prelude::*;

verus! {

/// How many consecutive decode failures `fill` tolerates before giving up.
pub const MAXERROR: u32 = 3;

/// A decoder the playback engine can drive without knowing the codec.
/// The playback layer implements it over its multi-codec library for
/// every format the Opus reader does not cover.
pub trait SecondaryDecoder<S> {
    fn channels(&self) -> usize;

    fn sample_rate(&self) -> usize;

    fn length(&self) -> u64;

    /// Fill `data` with decoded samples, `silence` past the end.
    /// Returns the samples left, or `None` on a decode failure.
    fn fill(&mut self, data: &mut Vec<S>, silence: S) -> Option<u64>;

    /// Seek to the given sample. Returns false when the seek failed.
    fn goto(&mut self, target: u64) -> bool;
}

/// The decoder of the current track: an Opus reader with its packet
/// decoder, the secondary decoder, or silence while no track is set.
pub enum Decoder<S, D, W> {
    Opus(OpusReader<S>, D),
    Secondary(W),
    Silence,
}

impl<S: Copy, D: PacketDecoder<S>, W: SecondaryDecoder<S>> Decoder<S, D, W> {
    pub open spec fn inv(&self) -> bool {
        match self {
            Decoder::Opus(r, _) => r.inv(),
            _ => true,
        }
    }

    /// Fill `data` and return the number of samples left in the track;
    /// silence answers zero samples of silence.
    pub fn fill(&mut self, data: &mut Vec<S>, silence: S) -> (r: Result<u64, OpusError>)
        requires
            old(self).inv(),
        ensures
            final(self).inv(),
            !(*old(self) is Secondary) ==> final(data)@.len() == old(data)@.len(),
            *old(self) is Silence ==> (r matches Ok(x) && x == 0) && (forall|i: int|
                0 <= i < old(data)@.len() ==> final(data)@[i] == silence),
            (match *old(self) {
                Decoder::Opus(rd, _) => true,
                _ => false,
            }) ==> (match *final(self) {
                Decoder::Opus(rd2, _) => r matches Ok(x) ==> x == rd2.left,
                _ => false,
            }),
    {
        match self {
            Decoder::Opus(reader, dec) => reader.fill(data, silence, dec),
            Decoder::Secondary(w) => match w.fill(data, silence) {
                Some(left) => Ok(left),
                None => Err(OpusError::DecodeFailed),
            },
            Decoder::Silence => {
                let n = data.len();
                let mut i: usize = 0;
                while i < n
                    invariant
                        i <= n,
                        n == data@.len(),
                        forall|j: int| 0 <= j < i ==> data@[j] == silence,
                    decreases n - i,
                {
                    data.set(i, silence);
                    i = i + 1;
                }
                Ok(0)
            },
        }
    }

    /// The channel count of the active decoder; silence has none.
    pub fn channels(&self) -> (r: usize)
        ensures
            self is Silence ==> r == 0,
            (match *self {
                Decoder::Opus(rd, _) => r == rd.opus_header.channels,
                _ => true,
            }),
    {
        match self {
            Decoder::Opus(reader, _) => reader.opus_header.channels as usize,
            Decoder::Secondary(w) => w.channels(),
            Decoder::Silence => 0,
        }
    }

    /// The native sample rate; Opus always decodes at 48 kHz.
    pub fn sample_rate(&self) -> (r: usize)
        ensures
            self is Silence ==> r == 1,
            (self matches Decoder::Opus(_, _)) ==> r == 48000,
    {
        match self {
            Decoder::Opus(_, _) => 48000,
            Decoder::Secondary(w) => w.sample_rate(),
            Decoder::Silence => 1,
        }
    }

    /// The length of the current track in samples.
    pub fn length(&self) -> (r: u64)
        ensures
            self is Silence ==> r == 0,
            (match *self {
                Decoder::Opus(rd, _) => r == rd.length,
                _ => true,
            }),
    {
        match self {
            Decoder::Opus(reader, _) => reader.length,
            Decoder::Secondary(w) => w.length(),
            Decoder::Silence => 0,
        }
    }

    /// Seek the active decoder; a no-op for silence.
    pub fn goto(&mut self, target: u64) -> (r: Result<(), OpusError>)
        requires
            old(self).inv(),
        ensures
            final(self).inv(),
            *old(self) is Silence ==> (r matches Ok(()) && *final(self) == *old(self)),
            (match *old(self) {
                Decoder::Opus(rd, _) => target > rd.length ==> (r matches Err(e) && e
                    == OpusError::SeekOutOfRange),
                _ => true,
            }),
            (match *final(self) {
                Decoder::Opus(rd2, _) => r matches Ok(()) ==> rd2.pos_values() == target
                    * rd2.channels(),
                _ => true,
            }),
    {
        match self {
            Decoder::Opus(reader, dec) => reader.goto(target, dec),
            Decoder::Secondary(w) => {
                if w.goto(target) {
                    Ok(())
                } else {
                    Err(OpusError::SeekOutOfRange)
                }
            },
            Decoder::Silence => Ok(()),
        }
    }
}

/// Which decoder arm a file extension selects.
#[derive(Clone, Copy, Debug, PartialEq, Eq, Structural)]
pub enum DecoderKind {
    Opus,
    Secondary,
    /// No decoder matches; the track is skipped.
    Unknown,
}

/// A byte with any ASCII upper-case letter lowered.
pub open spec fn lower_ascii(b: u8) -> u8 {
    if 65 <= b <= 90 {
        (b + 32) as u8
    } else {
        b
    }
}

pub open spec fn lowered(d: Seq<u8>) -> Seq<u8> {
    d.map_values(|b: u8| lower_ascii(b))
}

pub open spec fn spec_decoder_kind(ext: Seq<u8>) -> DecoderKind {
    if lowered(ext) == seq![111u8, 112u8, 117u8, 115u8] {  // "opus"
        DecoderKind::Opus
    } else if lowered(ext) == seq![109u8, 112u8, 51u8]  // "mp3"
     || lowered(ext) == seq![102u8, 108u8, 97u8, 99u8]  // "flac"
     || lowered(ext) == seq![119u8, 97u8, 118u8]  // "wav"
     {
        DecoderKind::Secondary
    } else {
        DecoderKind::Unknown
    }
}

/// Pick the decoder arm for a file extension, ASCII-lowercased:
/// `opus` decodes as Opus; `mp3`, `flac` and `wav` go to the secondary
/// decoder; anything else has no decoder and the track is skipped.
pub fn match_decoder(extension: &Vec<u8>) -> (r: DecoderKind)
    ensures
        r == spec_decoder_kind(extension@),
{
    let n = extension.len();
    let mut low: Vec<u8> = Vec::new();
    let mut i: usize = 0;
    while i < n
        invariant
            i <= n,
            n == extension@.len(),
            low@.len() == i,
            forall|j: int| 0 <= j < i ==> low@[j] == lower_ascii(extension@[j]),
        decreases n - i,
    {
        let b = extension[i];
        if 65 <= b && b <= 90 {
            low.push(b + 32);
        } else {
            low.push(b);
        }
        i = i + 1;
    }
    proof {
        assert(low@ =~= lowered(extension@));
    }
    let r = if low.len() == 4 && low[0] == 111 && low[1] == 112 && low[2] == 117 && low[3] == 115 {
        DecoderKind::Opus
    } else if low.len() == 3 && low[0] == 109 && low[1] == 112 && low[2] == 51 {
        DecoderKind::Secondary
    } else if low.len() == 4 && low[0] == 102 && low[1] == 108 && low[2] == 97 && low[3] == 99 {
        DecoderKind::Secondary
    } else if low.len() == 3 && low[0] == 119 && low[1] == 97 && low[2] == 118 {
        DecoderKind::Secondary
    } else {
        DecoderKind::Unknown
    };
    proof {
        if low@.len() == 4 {
            assert(low@ == seq![low@[0], low@[1], low@[2], low@[3]]) by {
                assert(low@ =~= seq![low@[0], low@[1], low@[2], low@[3]]);
            }
        }
        if low@.len() == 3 {
            assert(low@ == seq![low@[0], low@[1], low@[2]]) by {
                assert(low@ =~= seq![low@[0], low@[1], low@[2]]);
            }
        }
        if low@.len() != 4 {
            assert(low@ != seq![111u8, 112u8, 117u8, 115u8]);
            assert(low@ != seq![102u8, 108u8, 97u8, 99u8]);
        }
        if low@.len() != 3 {
            assert(low@ != seq![109u8, 112u8, 51u8]);
            assert(low@ != seq![119u8, 97u8, 118u8]);
        }
    }
    r
}

} // verus!
