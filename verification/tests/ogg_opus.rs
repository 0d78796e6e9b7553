//! The demuxer and the Opus reader over hand-built streams.

use rmusic::decoders::ogg_demuxer::{OggError, OggReader, Packet};
use rmusic::decoders::opus_decoder::{OpusError, OpusHeader, OpusReader, PacketDecoder};

/// Build one Ogg page. Each packet is cut into 255-byte segments with
/// a shorter terminator, as the segment table demands.
fn page(htype: u8, granule: u64, serial: u32, packets: &[&[u8]]) -> Vec<u8> {
    let mut seg_lens: Vec<u8> = Vec::new();
    let mut body: Vec<u8> = Vec::new();
    for p in packets {
        let mut rest = *p;
        loop {
            if rest.len() >= 255 {
                seg_lens.push(255);
                body.extend_from_slice(&rest[..255]);
                rest = &rest[255..];
                if rest.is_empty() {
                    seg_lens.push(0);
                    break;
                }
            } else {
                seg_lens.push(rest.len() as u8);
                body.extend_from_slice(rest);
                break;
            }
        }
    }
    assert!(seg_lens.len() <= 255, "test page too large");
    let mut out = Vec::new();
    out.extend_from_slice(b"OggS");
    out.push(0);
    out.push(htype);
    out.extend_from_slice(&granule.to_le_bytes());
    out.extend_from_slice(&serial.to_le_bytes());
    out.extend_from_slice(&0u32.to_le_bytes());
    out.extend_from_slice(&0u32.to_le_bytes());
    out.push(seg_lens.len() as u8);
    out.extend_from_slice(&seg_lens);
    out.extend_from_slice(&body);
    out
}

#[test]
fn open_rejects_garbage() {
    let r = OggReader::try_new(b"not an ogg stream at all....".to_vec());
    assert!(matches!(r, Err(OggError::NotValidOgg)));
}

#[test]
fn open_rejects_bad_version() {
    let mut data = page(2, 0, 1, &[b"xy"]);
    data[4] = 1; // version byte
    let r = OggReader::try_new(data);
    assert!(matches!(r, Err(OggError::UnsupportedVersion)));
}

#[test]
fn packets_concatenate_across_segmentations() {
    // The same payload cut differently: one long packet spanning
    // segments, against many short ones. Reading all packets yields
    // the same bytes either way.
    let payload: Vec<u8> = (0u16..600).map(|i| (i % 251) as u8).collect();
    let one = [
        page(2, 0, 7, &[&payload[..]]),
        page(4, 600, 7, &[b"end"]),
    ]
    .concat();
    let chunks: Vec<&[u8]> = payload.chunks(100).collect();
    let many = [page(2, 0, 7, &chunks), page(4, 600, 7, &[b"end"])].concat();

    let read_all = |data: Vec<u8>| -> Vec<u8> {
        let mut rd = OggReader::try_new(data).expect("open");
        let mut out = Vec::new();
        loop {
            let (bytes, last) = rd.read_packet().expect("packet");
            if last && bytes == b"end" {
                break;
            }
            out.extend_from_slice(&bytes);
            if last {
                break;
            }
        }
        out
    };
    assert_eq!(read_all(one), read_all(many));
}

#[test]
fn packet_spans_pages() {
    // A packet of 300 bytes: 255 on the first page, the rest on a
    // Continuation page.
    let payload: Vec<u8> = (0u16..300).map(|i| (i & 0xff) as u8).collect();
    let mut first = page(2, 0, 3, &[&payload[..]]);
    // Cut the page after the first segment: rebuild by hand.
    // Easier: one page with first 255 bytes as an open segment.
    first.clear();
    first.extend_from_slice(b"OggS");
    first.push(0);
    first.push(2);
    first.extend_from_slice(&0u64.to_le_bytes());
    first.extend_from_slice(&3u32.to_le_bytes());
    first.extend_from_slice(&0u32.to_le_bytes());
    first.extend_from_slice(&0u32.to_le_bytes());
    first.push(1);
    first.push(255);
    first.extend_from_slice(&payload[..255]);
    let second = page(1, 300, 3, &[&payload[255..]]);
    let end = page(4, 300, 3, &[b"end"]);
    let data = [first, second, end].concat();
    let mut rd = OggReader::try_new(data).expect("open");
    let (bytes, last) = rd.read_packet().expect("packet");
    assert_eq!(bytes, payload);
    assert!(!last);
}

#[test]
fn last_granule_without_moving() {
    let data = [
        page(2, 0, 5, &[b"aa"]),
        page(0, 100, 5, &[b"bb"]),
        page(4, 999, 5, &[b"cc"]),
    ]
    .concat();
    let mut rd = OggReader::try_new(data).expect("open");
    assert_eq!(rd.last_granular_position(), Ok(999));
    // The reader still reads from the first page.
    let (bytes, _) = rd.read_packet().expect("packet");
    assert_eq!(bytes, b"aa".to_vec());
}

#[test]
fn seek_finds_covering_page() {
    let data = [
        page(2, 0, 5, &[b"aa"]),
        page(0, 100, 5, &[b"bb"]),
        page(0, 200, 5, &[b"cc"]),
        page(4, 300, 5, &[b"dd"]),
    ]
    .concat();
    let mut rd = OggReader::try_new(data).expect("open");
    // 150 lies in the page whose granule is 200; the prior granule is 100.
    assert_eq!(rd.find_granular_position_last(150, true), Ok(100));
    let (bytes, _) = rd.read_packet().expect("packet");
    assert_eq!(bytes, b"cc".to_vec());
}

/// A deterministic stand-in for the Opus codec: each packet holds its
/// number, and its samples are the raw sample indices it covers, so a
/// sample's value names its position in the source.
struct IndexDecoder {
    frame: usize,
}

impl PacketDecoder<f32> for IndexDecoder {
    fn decode_packet(&mut self, packet: &Vec<u8>) -> Option<Vec<f32>> {
        if packet.len() != 4 {
            return None;
        }
        let n = u32::from_le_bytes([packet[0], packet[1], packet[2], packet[3]]) as usize;
        Some(
            (0..self.frame)
                .map(|k| (n * self.frame + k) as f32)
                .collect(),
        )
    }
}

const FRAME: usize = 960;
const PACKETS: usize = 300;
const PRE_SKIP: u16 = 312;

fn opus_head(channels: u8, pre_skip: u16) -> Vec<u8> {
    let mut h = Vec::new();
    h.extend_from_slice(b"OpusHead");
    h.push(1);
    h.push(channels);
    h.extend_from_slice(&pre_skip.to_le_bytes());
    h.extend_from_slice(&48000u32.to_le_bytes());
    h.extend_from_slice(&0i16.to_le_bytes());
    h.push(0);
    h
}

/// Two 3-second 48 kHz mono tones back to back: 300 packets of 960
/// samples, final granule 288000, pre-skip 312.
fn album_stream() -> Vec<u8> {
    let mut data = page(2, 0, 11, &[&opus_head(1, PRE_SKIP)]);
    data.extend_from_slice(&page(0, 0, 11, &[b"OpusTags"]));
    let packet_bytes: Vec<Vec<u8>> = (0..PACKETS as u32)
        .map(|n| n.to_le_bytes().to_vec())
        .collect();
    for chunk_start in (0..PACKETS).step_by(100) {
        let refs: Vec<&[u8]> = packet_bytes[chunk_start..chunk_start + 100]
            .iter()
            .map(|v| &v[..])
            .collect();
        let granule = ((chunk_start + 100) * FRAME) as u64;
        let htype = if chunk_start + 100 == PACKETS { 4 } else { 0 };
        data.extend_from_slice(&page(htype, granule, 11, &refs));
    }
    data
}

#[test]
fn opus_album_length_conservation() {
    // Total samples emitted across all fills until exhaustion equal
    // the final granule minus the pre-skip, and then zero remain.
    let mut dec = IndexDecoder { frame: FRAME };
    let mut rd = OpusReader::<f32>::new(album_stream(), &mut dec).expect("open");
    let expected_len = (PACKETS * FRAME) as u64 - PRE_SKIP as u64;
    assert_eq!(rd.length, expected_len); // 287688
    let mut emitted = 0u64;
    let mut buf = vec![0f32; 48000];
    loop {
        let left = rd.fill(&mut buf, -1.0, &mut dec).expect("fill");
        for v in &buf {
            if *v >= 0.0 {
                emitted += 1;
            }
        }
        if left == 0 && rd.finished {
            break;
        }
    }
    assert_eq!(emitted, expected_len);
    // Exhausted: everything further is silence and zero remain.
    let left = rd.fill(&mut buf, -1.0, &mut dec).expect("fill");
    assert_eq!(left, 0);
    assert!(buf.iter().all(|v| *v < 0.0));
}

#[test]
fn opus_first_sample_follows_pre_skip() {
    let mut dec = IndexDecoder { frame: FRAME };
    let mut rd = OpusReader::<f32>::new(album_stream(), &mut dec).expect("open");
    let mut buf = vec![0f32; 4];
    rd.fill(&mut buf, -1.0, &mut dec).expect("fill");
    // The exported stream starts after the pre-skip samples.
    assert_eq!(buf[0], PRE_SKIP as f32);
    assert_eq!(buf[3], (PRE_SKIP + 3) as f32);
}

#[test]
fn mid_stream_seek() {
    let mut dec = IndexDecoder { frame: FRAME };
    let mut rd = OpusReader::<f32>::new(album_stream(), &mut dec).expect("open");
    rd.goto(144000, &mut dec).expect("seek");
    let mut buf = vec![0f32; 48000];
    let left = rd.fill(&mut buf, -1.0, &mut dec).expect("fill");
    // The remaining samples count down from the length at the target.
    assert_eq!(left, rd.length - 144000 - 48000); // 95688 after this fill
    // The next 48000 samples carry the source indices from the target on.
    for (k, v) in buf.iter().enumerate() {
        assert_eq!(*v, (144000 + k) as f32);
    }
}

#[test]
fn seek_idempotence() {
    let mut dec = IndexDecoder { frame: FRAME };
    let mut rd = OpusReader::<f32>::new(album_stream(), &mut dec).expect("open");
    rd.goto(100000, &mut dec).expect("seek");
    let mut first = vec![0f32; 1];
    rd.fill(&mut first, -1.0, &mut dec).expect("fill");
    // Seeking to the same target again yields the same first sample.
    rd.goto(100000, &mut dec).expect("seek");
    rd.goto(100000, &mut dec).expect("seek");
    let mut second = vec![0f32; 1];
    rd.fill(&mut second, -1.0, &mut dec).expect("fill");
    assert_eq!(first[0], second[0]);
    assert_eq!(first[0], 100000.0);
}

#[test]
fn seek_beyond_length_rejected() {
    let mut dec = IndexDecoder { frame: FRAME };
    let mut rd = OpusReader::<f32>::new(album_stream(), &mut dec).expect("open");
    let r = rd.goto(rd.length + 1, &mut dec);
    assert!(matches!(r, Err(OpusError::SeekOutOfRange)));
}

#[test]
fn opus_rejects_wrong_magic() {
    let mut head = opus_head(1, 0);
    head[0] = b'X';
    let data = [
        page(2, 0, 11, &[&head]),
        page(4, 0, 11, &[b"OpusTags"]),
    ]
    .concat();
    let mut dec = IndexDecoder { frame: FRAME };
    let r = OpusReader::<f32>::new(data, &mut dec);
    assert!(matches!(r, Err(OpusError::Header(_))));
}

#[test]
fn opus_rejects_bad_channel_count() {
    let data = [
        page(2, 0, 11, &[&opus_head(3, 0)]),
        page(4, 0, 11, &[b"OpusTags"]),
    ]
    .concat();
    let mut dec = IndexDecoder { frame: FRAME };
    let r = OpusReader::<f32>::new(data, &mut dec);
    assert!(matches!(r, Err(OpusError::Header(_))));
}

#[test]
fn decode_retry_budget_surfaces() {
    // Damage the packets after the first so decoding always fails:
    // fill retries its budget and then gives up.
    let mut data = page(2, 0, 11, &[&opus_head(1, 0)]);
    data.extend_from_slice(&page(0, 0, 11, &[b"OpusTags"]));
    let first = 0u32.to_le_bytes().to_vec();
    data.extend_from_slice(&page(0, 960, 11, &[&first]));
    let bad: Vec<Vec<u8>> = (0..9u32).map(|_| vec![1, 2, 3]).collect();
    let refs: Vec<&[u8]> = bad.iter().map(|v| &v[..]).collect();
    data.extend_from_slice(&page(4, 9600, 11, &refs));
    let mut dec = IndexDecoder { frame: FRAME };
    let mut rd = OpusReader::<f32>::new(data, &mut dec).expect("open");
    let mut buf = vec![0f32; 2000];
    let r = rd.fill(&mut buf, -1.0, &mut dec);
    assert!(matches!(r, Err(OpusError::DecodeRetryExceeded)));
}

#[test]
fn construction_rejects_undecodable_first_packet() {
    let mut data = page(2, 0, 11, &[&opus_head(1, 0)]);
    data.extend_from_slice(&page(0, 0, 11, &[b"OpusTags"]));
    data.extend_from_slice(&page(0, 960, 11, &[&[1u8, 2, 3][..]]));
    let good = 1u32.to_le_bytes().to_vec();
    data.extend_from_slice(&page(4, 1920, 11, &[&good]));
    let mut dec = IndexDecoder { frame: FRAME };
    let r = OpusReader::<f32>::new(data, &mut dec);
    assert!(matches!(r, Err(OpusError::DecodeFailed)));
}

#[test]
fn packet_flags() {
    let a = Packet::new(vec![1, 2, 3]);
    assert_eq!(a.data, vec![1, 2, 3]);
    assert!(!a.last);
    let b = Packet::new_last(vec![9]);
    assert!(b.last);
}

#[test]
fn opus_header_fields() {
    let bytes = opus_head(2, 312);
    let h = OpusHeader::new(&bytes).expect("valid header");
    assert_eq!(h.channels, 2);
    assert_eq!(h.pre_skip, 312);
    assert_eq!(h.input_sample_rate, 48000);
    assert_eq!(h.output_gain, 0);
    let mut high_gain = opus_head(1, 0);
    // Output gain is a signed Q7.8 value; bytes for -256.
    high_gain[16] = 0;
    high_gain[17] = 0xff;
    let h2 = OpusHeader::new(&high_gain).expect("valid header");
    assert_eq!(h2.output_gain, -256);
}

#[test]
fn seek_first_positions_at_covering_page() {
    let data = [
        page(2, 0, 5, &[b"aa"]),
        page(0, 100, 5, &[b"bb"]),
        page(0, 200, 5, &[b"cc"]),
        page(4, 300, 5, &[b"dd"]),
    ]
    .concat();
    let mut rd = OggReader::try_new(data).expect("open");
    // 150 lies on the page that starts at 100; the reader rereads it.
    assert_eq!(rd.find_granular_position_first(150, true), Ok(100));
    let (bytes, _) = rd.read_packet().expect("packet");
    assert_eq!(bytes, b"bb".to_vec());
}

#[test]
fn seek_below_walked_range_not_found() {
    let data = [
        page(2, 0, 5, &[b"aa"]),
        page(0, 100, 5, &[b"bb"]),
        page(0, 200, 5, &[b"cc"]),
        page(0, 250, 5, &[b"dd"]),
        page(0, 280, 5, &[b"ee"]),
        page(4, 300, 5, &[b"ff"]),
    ]
    .concat();
    let mut rd = OggReader::try_new(data).expect("open");
    // Walk forward past the target first.
    assert_eq!(rd.find_granular_position_last(220, true), Ok(200));
    // A backward target from here covers no walked page.
    assert!(matches!(
        rd.find_granular_position_first(150, true),
        Err(OggError::NotFound)
    ));
}
