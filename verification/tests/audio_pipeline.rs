//! Sample-layout conversion and the decoder union.

use rmusic::audio_conversion::{interleaved_to_planar, planar_to_interleaved};
use rmusic::decoders::opus_decoder::PacketDecoder;
use rmusic::decoders::{match_decoder, Decoder, DecoderKind, SecondaryDecoder};

#[test]
fn interleave_round_trip() {
    // Two channels, four frames, interleaved.
    let input: Vec<f32> = vec![1.0, -1.0, 2.0, -2.0, 3.0, -3.0, 4.0, -4.0];
    let mut planar: Vec<Vec<f32>> = vec![vec![0.0; 4], vec![0.0; 4]];
    interleaved_to_planar(&input, &mut planar, 2);
    assert_eq!(planar[0], vec![1.0, 2.0, 3.0, 4.0]);
    assert_eq!(planar[1], vec![-1.0, -2.0, -3.0, -4.0]);
    let mut back: Vec<f32> = vec![0.0; 8];
    planar_to_interleaved(&planar, &mut back, 2);
    assert_eq!(back, input);
}

#[test]
fn interleave_leaves_tail_untouched() {
    // Seven values at two channels: three whole frames, one spare.
    let input: Vec<f32> = vec![1.0, 2.0, 3.0, 4.0, 5.0, 6.0, 9.0];
    let mut planar: Vec<Vec<f32>> = vec![vec![0.0; 3], vec![0.0; 3]];
    interleaved_to_planar(&input, &mut planar, 2);
    assert_eq!(planar[0], vec![1.0, 3.0, 5.0]);
    let mut out: Vec<f32> = vec![7.0; 7];
    planar_to_interleaved(&planar, &mut out, 2);
    assert_eq!(out[6], 7.0, "the spare slot beyond whole frames stays");
}

#[test]
fn decoder_policy_by_extension() {
    assert_eq!(match_decoder(&b"opus".to_vec()), DecoderKind::Opus);
    assert_eq!(match_decoder(&b"OPUS".to_vec()), DecoderKind::Opus);
    assert_eq!(match_decoder(&b"Mp3".to_vec()), DecoderKind::Secondary);
    assert_eq!(match_decoder(&b"flac".to_vec()), DecoderKind::Secondary);
    assert_eq!(match_decoder(&b"WAV".to_vec()), DecoderKind::Secondary);
    assert_eq!(match_decoder(&b"ogg".to_vec()), DecoderKind::Unknown);
    assert_eq!(match_decoder(&b"".to_vec()), DecoderKind::Unknown);
}

struct NoDecode;

impl PacketDecoder<f32> for NoDecode {
    fn decode_packet(&mut self, _packet: &Vec<u8>) -> Option<Vec<f32>> {
        None
    }
}

struct NoSecondary;

impl SecondaryDecoder<f32> for NoSecondary {
    fn channels(&self) -> usize {
        2
    }
    fn sample_rate(&self) -> usize {
        44100
    }
    fn length(&self) -> u64 {
        0
    }
    fn fill(&mut self, _data: &mut Vec<f32>, _silence: f32) -> Option<u64> {
        None
    }
    fn goto(&mut self, _target: u64) -> bool {
        false
    }
}

#[test]
fn silence_decoder_answers_silence() {
    let mut d: Decoder<f32, NoDecode, NoSecondary> = Decoder::Silence;
    assert_eq!(d.channels(), 0);
    assert_eq!(d.sample_rate(), 1);
    assert_eq!(d.length(), 0);
    let mut buf = vec![1.0f32; 16];
    let left = d.fill(&mut buf, 0.0).expect("silence always fills");
    assert_eq!(left, 0);
    assert!(buf.iter().all(|v| *v == 0.0));
    assert!(d.goto(12345).is_ok());
}
