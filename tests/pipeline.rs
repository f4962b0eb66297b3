use std::collections::VecDeque;
use walkietalkie::capture::{encoded_packet, CaptureFramer, ENCODE_BUFFER_LEN};
use walkietalkie::config::{pick_output_rate, RateRange, StreamConfig};
use walkietalkie::framing::{drain_frames, push_opus_packet};
use walkietalkie::playout::{Diagnostics, Playout, REPORT_EVERY, SILENCE};

fn stereo() -> StreamConfig {
    StreamConfig::new(2).unwrap()
}

fn mono() -> StreamConfig {
    StreamConfig::new(1).unwrap()
}

#[test]
fn frame_size_is_fixed_by_channels() {
    assert_eq!(stereo().frame_size(), 1920);
    assert_eq!(mono().frame_size(), 960);
    assert_eq!(stereo().sample_rate, 48000);
    assert_eq!(stereo().frame_duration_ms, 20);
}

#[test]
fn only_one_or_two_channels_are_accepted() {
    assert!(StreamConfig::new(0).is_none());
    assert!(StreamConfig::new(3).is_none());
    assert!(StreamConfig::new(6).is_none());
}

#[test]
fn underrun_fills_with_silence() {
    let mut p = Playout::new(mono());
    assert!(p.absorb_decoded(&[5, -6, 7], Some(3)));
    let mut out = [1i16; 5];
    let written = p.fill_output(&mut out);
    assert_eq!(written, 3);
    assert_eq!(out, [5, -6, 7, SILENCE, SILENCE]);
    assert_eq!(p.depth(), 0);
}

#[test]
fn output_takes_oldest_samples_first() {
    let mut p = Playout::new(mono());
    assert!(p.absorb_decoded(&[1, 2, 3, 4], Some(4)));
    let mut out = [0i16; 2];
    assert_eq!(p.fill_output(&mut out), 2);
    assert_eq!(out, [1, 2]);
    assert_eq!(p.depth(), 2);
    assert_eq!(p.fill_output(&mut out), 2);
    assert_eq!(out, [3, 4]);
}

#[test]
fn empty_ring_gives_all_silence() {
    let mut p = Playout::new(stereo());
    let mut out = [9i16; 4];
    assert_eq!(p.fill_output(&mut out), 0);
    assert_eq!(out, [0; 4]);
}

#[test]
fn decoded_count_is_per_channel() {
    let mut p = Playout::new(stereo());
    let decoded = [1i16, 2, 3, 4, 5, 6, 7, 8];
    assert!(p.absorb_decoded(&decoded, Some(3)));
    assert_eq!(p.depth(), 6);
    let mut out = [0i16; 6];
    p.fill_output(&mut out);
    assert_eq!(out, [1, 2, 3, 4, 5, 6]);
}

#[test]
fn impossible_decode_count_is_rejected() {
    let mut p = Playout::new(stereo());
    assert!(!p.absorb_decoded(&[1, 2, 3], Some(2)));
    assert_eq!(p.depth(), 0);
}

#[test]
fn corrupt_packet_does_not_stop_later_ones() {
    let mut q = VecDeque::new();
    push_opus_packet(&mut q, &[1]);
    push_opus_packet(&mut q, &[0xde, 0xad]);
    push_opus_packet(&mut q, &[3]);
    let packets = drain_frames(&mut q);
    assert_eq!(packets.len(), 3);
    assert!(q.is_empty());
    let mut p = Playout::new(mono());
    let mut accepted = Vec::new();
    for packet in &packets {
        // the middle packet stands for one the decoder rejects
        let outcome = if packet.len() == 2 { None } else { Some(1) };
        let decoded = [packet[0] as i16];
        accepted.push(p.absorb_decoded(&decoded, outcome));
    }
    assert_eq!(accepted, vec![true, false, true]);
    let mut out = [7i16; 3];
    assert_eq!(p.fill_output(&mut out), 2);
    assert_eq!(out, [1, 3, 0]);
}

#[test]
fn diagnostics_come_every_hundredth_callback() {
    let mut p = Playout::new(mono());
    for i in 1..REPORT_EVERY {
        assert_eq!(p.end_callback(0, 10), None, "callback {}", i);
    }
    assert!(p.absorb_decoded(&[1, 2], Some(2)));
    assert_eq!(
        p.end_callback(4, 10),
        Some(Diagnostics { callback: 100, written: 4, silent: 6, depth: 2 })
    );
    assert_eq!(p.end_callback(0, 10), None);
}

#[test]
fn decode_buffer_holds_one_frame() {
    assert_eq!(Playout::new(stereo()).decode_buffer_len(), 1920);
    assert_eq!(Playout::new(mono()).decode_buffer_len(), 960);
}

#[test]
fn capture_drains_exact_frames() {
    let mut c = CaptureFramer::new(mono());
    assert_eq!(c.frame_size(), 960);
    let input: Vec<i16> = (0..1000).map(|i| i as i16).collect();
    let frames = c.capture(true, true, &input);
    assert_eq!(frames.len(), 1);
    assert_eq!(frames[0].len(), 960);
    assert_eq!(frames[0][..], input[..960]);
    assert_eq!(c.pending_len(), 40);
    let more: Vec<i16> = (1000..3000).map(|i| i as i16).collect();
    let frames = c.capture(true, true, &more);
    assert_eq!(frames.len(), 2);
    assert!(frames.iter().all(|f| f.len() == 960));
    assert_eq!(frames[0][0], 960);
    assert_eq!(frames[1][959], 2879);
    assert_eq!(c.pending_len(), 120);
}

#[test]
fn stereo_capture_uses_1920_sample_frames() {
    let mut c = CaptureFramer::new(stereo());
    let input = vec![1i16; 1920 * 2 + 5];
    let frames = c.capture(true, true, &input);
    assert_eq!(frames.len(), 2);
    assert!(frames.iter().all(|f| f.len() == 1920));
    assert_eq!(c.pending_len(), 5);
}

#[test]
fn closed_gate_discards_input() {
    let mut c = CaptureFramer::new(mono());
    let frames = c.capture(false, true, &vec![3i16; 2000]);
    assert!(frames.is_empty());
    assert_eq!(c.pending_len(), 0);
    let input: Vec<i16> = (0..960).map(|i| i as i16).collect();
    let frames = c.capture(true, true, &input);
    assert_eq!(frames, vec![input]);
    assert_eq!(c.pending_len(), 0);
}

#[test]
fn no_peers_discards_input() {
    let mut c = CaptureFramer::new(mono());
    assert!(c.capture(true, false, &vec![3i16; 2000]).is_empty());
    assert_eq!(c.pending_len(), 0);
}

#[test]
fn encoded_packet_is_cut_to_length() {
    let buf = vec![4u8; ENCODE_BUFFER_LEN];
    assert_eq!(encoded_packet(buf.clone(), Some(3)), Some(vec![4u8; 3]));
    assert_eq!(encoded_packet(buf.clone(), None), None);
    assert_eq!(encoded_packet(vec![1, 2], Some(5)), Some(vec![1, 2]));
}

#[test]
fn default_codec_rate_is_kept() {
    assert_eq!(pick_output_rate(24000, &vec![]), 24000);
    assert_eq!(pick_output_rate(48000, &vec![]), 48000);
}

#[test]
fn best_supported_codec_rate_is_picked() {
    let ranges = vec![
        RateRange { matches_device: false, min_rate: 8000, max_rate: 96000 },
        RateRange { matches_device: true, min_rate: 11025, max_rate: 22050 },
    ];
    assert_eq!(pick_output_rate(44100, &ranges), 16000);
    let wide = vec![RateRange { matches_device: true, min_rate: 8000, max_rate: 192000 }];
    assert_eq!(pick_output_rate(44100, &wide), 48000);
}

#[test]
fn no_supported_rate_falls_back_to_48k() {
    let ranges = vec![RateRange { matches_device: true, min_rate: 44100, max_rate: 44100 }];
    assert_eq!(pick_output_rate(44100, &ranges), 48000);
}
