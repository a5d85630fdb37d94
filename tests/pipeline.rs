use std::collections::VecDeque;

use renderer::{
    decode_packet, decode_packet_length, name_less, encode_packet, filename_timestamp, frame_from_fields, frame_packet,
    pipeline_positions, recover_timestamp_from_filename, scan_directory_for_timestamps, shard_filename,
    strip_row_padding, video_filename, Decompressor, FfmpegPipe, FilterMode, Format, FrameMerger, FrameState,
    FrameStatus, ImageData, order_frames, PngEncoder, RecordingPosition, Recording, SessionTime, VideoFrame, VideoRecorder,
};

fn frame(n: usize, status: FrameStatus, bytes: Option<Vec<u8>>) -> VideoFrame {
    VideoFrame {
        status,
        image_data: bytes.map(ImageData::Bytes),
        width: 2,
        height: 1,
        format: Format::RgbaU8,
        unpadded_bytes_per_row: 8,
        padded_bytes_per_row: 16,
        frame_number: n,
        frame_size_in_bytes: 16,
    }
}

fn image_for(n: usize) -> Vec<u8> {
    (0..16).map(|i| (n * 16 + i) as u8).collect()
}

fn shard_stream(frames: &[VideoFrame]) -> Vec<u8> {
    let mut stream = vec![];
    for f in frames {
        let image = match &f.image_data {
            Some(ImageData::Bytes(b)) => b.clone(),
            _ => vec![],
        };
        stream.extend(encode_packet(f, &image).unwrap());
    }
    stream
}

fn read_shard(stream: &[u8]) -> VecDeque<VideoFrame> {
    let mut frames = VecDeque::new();
    let mut at = 0;
    while at + 8 <= stream.len() {
        let len = decode_packet_length(&stream[at..at + 8]).unwrap() as usize;
        let end = at + 8 + len;
        if end > stream.len() {
            break;
        }
        match decode_packet(&stream[at..end]) {
            Some(f) => frames.push_back(f),
            None => break,
        }
        at = end;
    }
    frames
}

fn merge(mut readers: Vec<VecDeque<VideoFrame>>) -> Vec<VideoFrame> {
    let mut merger = FrameMerger::new(readers.len());
    let mut out = vec![];
    loop {
        while let Some(i) = merger.next_reader() {
            let record = readers[i].pop_front();
            merger.receive(i, record);
        }
        out.extend(merger.end_round());
        if merger.is_finished() {
            break;
        }
    }
    out
}

fn bytes_of(f: &VideoFrame) -> Option<Vec<u8>> {
    match &f.image_data {
        Some(ImageData::Bytes(b)) => Some(b.clone()),
        _ => None,
    }
}

#[test]
fn format_sizes() {
    assert_eq!(Format::RU8.bytes_per_texel(), 1);
    assert_eq!(Format::BgraU8.bytes_per_texel(), 4);
    assert_eq!(Format::RgbaU8.channels(), 4);
    assert_eq!(Format::RgbaF16.bytes_per_texel(), 8);
    assert_eq!(Format::RgbaF32.bytes_per_channel(), 4);
    assert_eq!(Format::RgbaF32.bytes_per_texel(), 16);
    assert!(FilterMode::Linear.is_linear());
    assert!(!FilterMode::Nearest.is_linear());
}

#[test]
fn padded_rows_round_up_to_alignment() {
    let mut rec = VideoRecorder::new(65, 2, false, 1 << 20, 256);
    assert_eq!(rec.create_buffer_if_within_memory_limit(None), Some(1));
    let f = &rec.inner.video_frames[0];
    assert_eq!(f.unpadded_bytes_per_row, 260);
    assert_eq!(f.padded_bytes_per_row, 512);
    assert_eq!(f.frame_size_in_bytes, 1024);
    assert_eq!(rec.inner.buffer_size_in_bytes, 1024);
}

#[test]
fn budget_drops_frame_over_the_limit() {
    // Each frame takes 256 bytes; the budget is checked before adding.
    let mut rec = VideoRecorder::new(64, 1, false, 300, 256);
    assert_eq!(rec.create_buffer_if_within_memory_limit(None), Some(1));
    assert_eq!(rec.create_buffer_if_within_memory_limit(None), Some(2));
    assert_eq!(rec.inner.buffer_size_in_bytes, 512);
    assert_eq!(rec.create_buffer_if_within_memory_limit(None), None);
    assert_eq!(rec.inner.buffer_size_in_bytes, 512);
    assert!(rec.inner.buffer_size_in_bytes <= 300 + 256);
    let third = &rec.inner.video_frames[2];
    assert_eq!(third.status, FrameStatus::Dropped);
    assert!(third.image_data.is_none());
    assert_eq!(third.frame_number, 3);
    assert_eq!(third.frame_size_in_bytes, 256);
    for h in rec.initiate_buffer_mapping() {
        rec.map_completed(h, true);
    }
    assert!(rec.map_failure().is_none());
    for f in rec.process_mapped_buffers() {
        rec.release_frame(f);
    }
    assert_eq!(rec.inner.buffer_size_in_bytes, 0);
    assert_eq!(rec.create_buffer_if_within_memory_limit(None), Some(4));
}

#[test]
fn delivery_waits_for_the_oldest_frame() {
    let mut rec = VideoRecorder::new(64, 1, false, 1 << 20, 256);
    for _ in 0..3 {
        rec.create_buffer_if_within_memory_limit(None);
    }
    assert_eq!(rec.initiate_buffer_mapping(), vec![1, 2, 3]);
    assert_eq!(rec.inner.frame_states, vec![FrameState::Mapping; 3]);
    rec.map_completed(2, true);
    rec.map_completed(3, true);
    assert_eq!(rec.process_mapped_buffers().len(), 0);
    rec.map_completed(1, true);
    let out = rec.process_mapped_buffers();
    let numbers: Vec<usize> = out.iter().map(|f| f.frame_number).collect();
    assert_eq!(numbers, vec![1, 2, 3]);
}

#[test]
fn delivery_is_monotonic_across_drops() {
    let mut rec = VideoRecorder::new(64, 1, false, 0, 256);
    let mut delivered = vec![];
    for _ in 0..5 {
        rec.create_buffer_if_within_memory_limit(None);
        for h in rec.initiate_buffer_mapping() {
            rec.map_completed(h, true);
        }
        for f in rec.process_mapped_buffers() {
            delivered.push((f.frame_number, f.status));
            rec.release_frame(f);
        }
    }
    let numbers: Vec<usize> = delivered.iter().map(|d| d.0).collect();
    assert_eq!(numbers, vec![1, 2, 3, 4, 5]);
    assert!(delivered.iter().all(|d| d.1 == FrameStatus::Captured));
}

#[test]
fn failed_map_is_reported() {
    let mut rec = VideoRecorder::new(64, 1, false, 1 << 20, 256);
    rec.create_buffer_if_within_memory_limit(None);
    rec.initiate_buffer_mapping();
    rec.map_completed(1, false);
    assert_eq!(rec.map_failure(), Some(1));
    let (frames, failed) = rec.frames_before_failed_map();
    assert!(frames.is_empty());
    assert_eq!(failed, 1);
}

#[test]
fn failed_map_behind_mapped_frames_stops_delivery() {
    let mut rec = VideoRecorder::new(64, 1, false, 1 << 20, 256);
    for _ in 0..3 {
        rec.create_buffer_if_within_memory_limit(None);
    }
    rec.initiate_buffer_mapping();
    rec.map_completed(1, true);
    rec.map_completed(2, false);
    rec.map_completed(3, true);
    assert_eq!(rec.map_failure(), Some(2));
    let (frames, failed) = rec.frames_before_failed_map();
    let numbers: Vec<usize> = frames.iter().map(|f| f.frame_number).collect();
    assert_eq!(numbers, vec![1]);
    assert_eq!(failed, 2);
    assert_eq!(rec.inner.video_frames.len(), 2);
}

#[test]
fn clear_only_on_first_pass_of_a_frame() {
    let mut rec = VideoRecorder::new(4, 4, true, 0, 256);
    assert!(rec.clears_color_attachment());
    assert!(!rec.clears_color_attachment());
    rec.finish_frame();
    assert!(rec.clears_color_attachment());
    let mut plain = VideoRecorder::new(4, 4, false, 0, 256);
    assert!(!plain.clears_color_attachment());
}

#[test]
fn stop_recording_without_start_or_twice() {
    let mut recording = Recording::new();
    assert_eq!(recording.stop_recording(2), vec![RecordingPosition::NotRecorded; 2]);
    assert!(recording.recorder.is_none());
    let positions = recording.start_recording(3, 8, 8, false, 1024, 256);
    assert_eq!(positions, vec![RecordingPosition::NotLast, RecordingPosition::NotLast, RecordingPosition::Last]);
    assert!(recording.recorder.is_some());
    recording.stop_recording(3);
    recording.stop_recording(3);
    assert!(recording.recorder.is_none());
    assert_eq!(pipeline_positions(0, true), vec![]);
}

#[test]
fn packet_layout() {
    let f = frame(7, FrameStatus::Captured, Some(image_for(7)));
    let p = encode_packet(&f, &image_for(7)).unwrap();
    let packet_len = u64::from_be_bytes(p[0..8].try_into().unwrap()) as usize;
    let meta_len = u64::from_be_bytes(p[8..16].try_into().unwrap()) as usize;
    assert_eq!(packet_len, 8 + meta_len + 16);
    assert_eq!(p.len(), 8 + packet_len);
    assert_eq!(&p[16 + meta_len..], &image_for(7)[..]);
    assert_eq!(frame_packet(&[1, 2], &[3]).unwrap(), vec![0, 0, 0, 0, 0, 0, 0, 11, 0, 0, 0, 0, 0, 0, 0, 2, 1, 2, 3]);
}

#[test]
fn packet_round_trip() {
    let f = frame(3, FrameStatus::Captured, Some(image_for(3)));
    let g = decode_packet(&encode_packet(&f, &image_for(3)).unwrap()).unwrap();
    assert_eq!(g.frame_number, 3);
    assert_eq!(g.status, FrameStatus::Captured);
    assert_eq!(bytes_of(&g), Some(image_for(3)));
    assert_eq!((g.width, g.height, g.padded_bytes_per_row, g.unpadded_bytes_per_row), (2, 1, 16, 8));
    let d = frame(4, FrameStatus::Dropped, None);
    let h = decode_packet(&encode_packet(&d, &image_for(4)).unwrap()).unwrap();
    assert_eq!(h.status, FrameStatus::Dropped);
    assert!(h.image_data.is_none());
    assert_eq!(h.frame_size_in_bytes, 16);
}

#[test]
fn image_of_wrong_length_is_refused() {
    let f = frame(3, FrameStatus::Captured, Some(image_for(3)));
    assert!(encode_packet(&f, &image_for(3)[..15]).is_none());
    let d = frame(4, FrameStatus::Dropped, None);
    assert!(encode_packet(&d, &[1, 2, 3]).is_some());
}

#[test]
fn truncated_packet_is_not_decoded() {
    let f = frame(3, FrameStatus::Captured, Some(image_for(3)));
    let p = encode_packet(&f, &image_for(3)).unwrap();
    assert!(decode_packet(&p[..p.len() - 1]).is_none());
    assert!(decode_packet_length(&p[..7]).is_none());
    assert!(frame_from_fields((0, false, 1, 1, 2, 4, 256, 1, 256), vec![]).is_none());
    assert!(frame_from_fields((1, false, 1, 1, 2, 4, 256, 0, 256), vec![]).is_none());
    assert!(frame_from_fields((1, false, 1, 1, 9, 4, 256, 1, 256), vec![]).is_none());
}

#[test]
fn round_trip_across_workers() {
    let n = 12;
    let frames: Vec<VideoFrame> = (1..=n)
        .map(|i| if i % 4 == 0 { frame(i, FrameStatus::Dropped, None) } else { frame(i, FrameStatus::Captured, Some(image_for(i))) })
        .collect();
    // Work stealing: bursty, uneven assignment.
    let assignment = [0, 0, 1, 2, 2, 2, 0, 1, 1, 1, 1, 0];
    let mut shards: Vec<Vec<VideoFrame>> = vec![vec![], vec![], vec![]];
    for (f, w) in frames.into_iter().zip(assignment) {
        shards[w].push(f);
    }
    let readers = shards.iter().map(|s| read_shard(&shard_stream(s))).collect();
    let out = merge(readers);
    assert_eq!(out.len(), n);
    for (k, f) in out.iter().enumerate() {
        let i = k + 1;
        assert_eq!(f.frame_number, i);
        if i % 4 == 0 {
            assert_eq!(f.status, FrameStatus::Dropped);
            assert!(f.image_data.is_none());
        } else {
            assert_eq!(f.status, FrameStatus::Captured);
            assert_eq!(bytes_of(f), Some(image_for(i)));
        }
    }
}

#[test]
fn deleted_shard_becomes_missing() {
    let shards: Vec<Vec<VideoFrame>> = (0..3)
        .map(|w| (1..=10).filter(|i| i % 3 == w).map(|i| frame(i, FrameStatus::Captured, Some(image_for(i)))).collect())
        .collect();
    // The shard of worker 2 (frames 2, 5, 8) is gone.
    let readers = vec![read_shard(&shard_stream(&shards[0])), read_shard(&shard_stream(&shards[1]))];
    let out = merge(readers);
    let numbers: Vec<usize> = out.iter().map(|f| f.frame_number).collect();
    assert_eq!(numbers, (1..=10).collect::<Vec<_>>());
    for f in &out {
        if f.frame_number % 3 == 2 {
            assert_eq!(f.status, FrameStatus::Missing);
            assert!(f.image_data.is_none());
        } else {
            assert_eq!(f.status, FrameStatus::Captured);
            assert_eq!(bytes_of(f), Some(image_for(f.frame_number)));
        }
    }
}

#[test]
fn duplicate_frame_is_discarded() {
    let a = VecDeque::from(vec![frame(1, FrameStatus::Captured, Some(image_for(1))), frame(2, FrameStatus::Captured, Some(image_for(2)))]);
    let b = VecDeque::from(vec![frame(1, FrameStatus::Captured, Some(image_for(1)))]);
    let out = merge(vec![a, b]);
    let numbers: Vec<usize> = out.iter().map(|f| f.frame_number).collect();
    assert_eq!(numbers, vec![1, 2]);
}

#[test]
fn end_to_end_three_workers_ten_frames() {
    // Frames take 16 bytes; frames 5 and 6 go over the budget and are dropped.
    let mut rec = VideoRecorder::new(4, 1, false, 3 * 16, 16);
    let assignment = [0, 1, 2, 2, 1, 1, 0, 2, 0, 1];
    let mut streams: Vec<Vec<u8>> = vec![vec![], vec![], vec![]];
    let mut written = vec![];
    let mut delivered = 0;
    for i in 1..=10usize {
        if i == 7 {
            // The workers let go of the first four images.
            for f in written.drain(..) {
                rec.release_frame(f);
            }
        }
        rec.create_buffer_if_within_memory_limit(None);
        for h in rec.initiate_buffer_mapping() {
            rec.map_completed(h, true);
        }
        for mut f in rec.process_mapped_buffers() {
            if let Some(ImageData::Buffer(h)) = f.image_data {
                f.image_data = Some(ImageData::Bytes(image_for(h as usize)));
            }
            let image = bytes_of(&f).unwrap_or_default();
            streams[assignment[delivered]].extend(encode_packet(&f, &image).unwrap());
            delivered += 1;
            written.push(f);
        }
    }
    assert_eq!(delivered, 10);
    let out = merge(streams.iter().map(|s| read_shard(s)).collect());
    assert_eq!(out.len(), 10);
    for (k, f) in out.iter().enumerate() {
        let i = k + 1;
        assert_eq!(f.frame_number, i);
        if i == 5 || i == 6 {
            assert_eq!(f.status, FrameStatus::Dropped);
            assert!(f.image_data.is_none());
        } else {
            assert_eq!(f.status, FrameStatus::Captured);
            assert_eq!(bytes_of(f), Some(image_for(i)));
        }
    }
}

#[test]
fn encode_sink_repeats_last_image() {
    let mut pipe = FfmpegPipe::new(None, None, None, vec![]);
    let t = Some(SessionTime { seconds: 100, nanos: 0 });
    let writes: Vec<_> = vec![vec![1u8, 2], vec![], vec![], vec![3u8]]
        .into_iter()
        .map(|b| pipe.write(b, t).unwrap())
        .collect();
    assert_eq!(writes.len(), 4);
    assert_eq!(writes[0].bytes, vec![1, 2]);
    assert!(writes[0].respawn);
    assert_eq!(writes[1].bytes, vec![1, 2]);
    assert!(writes[1].duplicated && !writes[1].respawn);
    assert_eq!(writes[2].bytes, vec![1, 2]);
    assert_eq!(writes[3].bytes, vec![3]);
    assert!(!writes[3].duplicated);
}

#[test]
fn encode_sink_skips_leading_empty_and_respawns_per_session() {
    let mut pipe = FfmpegPipe::new(None, None, None, vec![]);
    let t1 = Some(SessionTime { seconds: 1, nanos: 0 });
    let t2 = Some(SessionTime { seconds: 2, nanos: 0 });
    assert!(pipe.write(vec![], t1).is_none());
    assert!(!pipe.running);
    assert!(pipe.write(vec![9], t1).unwrap().respawn);
    assert!(!pipe.write(vec![8], t1).unwrap().respawn);
    assert!(pipe.write(vec![7], t2).unwrap().respawn);
}

#[test]
fn encoder_arguments_template() {
    let pipe = FfmpegPipe::new(None, None, None, vec!["-c:v".to_string(), "libx264".to_string()]);
    let args = pipe.encoder_arguments(Some("a.wav".to_string()), "./out.mp4".to_string());
    let expected = [
        "-hide_banner", "-loglevel", "error", "-stats", "-f", "image2pipe", "-framerate", "60", "-y", "-i", "-", "-i",
        "a.wav", "-c:v", "libx264", "./out.mp4",
    ];
    assert_eq!(args, expected.iter().map(|s| s.to_string()).collect::<Vec<_>>());
    let no_audio = pipe.encoder_arguments(None, "o.mp4".to_string());
    assert_eq!(no_audio.len(), 14);
}

#[test]
fn output_filename_from_session() {
    let pipe = FfmpegPipe::new(None, None, None, vec![]);
    let now = SessionTime { seconds: 0, nanos: 0 };
    assert_eq!(pipe.output_filename(now).unwrap(), "1970-01-01T00_00_00.000Z.mp4");
    let named = FfmpegPipe::new(None, None, Some("clip.mp4".to_string()), vec![]);
    assert_eq!(named.output_filename(now).unwrap(), "clip.mp4");
    let t = SessionTime { seconds: 1_700_000_000, nanos: 123_000_000 };
    assert_eq!(video_filename(t).unwrap(), "2023-11-14T22_13_20.123Z.mp4");
}

#[test]
fn shard_names() {
    assert_eq!(shard_filename("2024-01-02T03_04_05.678Z", 0), "2024-01-02T03_04_05.678Z--0.sz");
    assert_eq!(shard_filename("t", 120), "t--120.sz");
    assert_eq!(filename_timestamp("2024-01-02T03:04:05.678Z"), "2024-01-02T03_04_05.678Z");
    let t = recover_timestamp_from_filename("2024-01-02T03_04_05.678Z--3.sz").unwrap();
    assert_eq!(t, SessionTime { seconds: 1_704_164_645, nanos: 678_000_000 });
    assert!(recover_timestamp_from_filename("2024-01-02T03_04_05.678Z--3.txt").is_none());
    assert!(recover_timestamp_from_filename("not-a-time--3.sz").is_none());
    assert!(recover_timestamp_from_filename(".sz").is_none());
}

#[test]
fn sessions_grouped_in_order() {
    let entries = vec![
        ("2024-01-02T03_04_05.678Z--1.sz".to_string(), 10u64),
        ("2023-05-06T07_08_09.000Z--0.sz".to_string(), 10),
        ("2024-01-02T03_04_05.678Z--0.sz".to_string(), 10),
        ("2024-01-02T03_04_05.678Z--2.sz".to_string(), 0),
        ("readme.txt".to_string(), 10),
        ("2024-01-02T03_04_05.678Z--1.sz".to_string(), 10),
    ];
    let groups = scan_directory_for_timestamps(&entries);
    assert_eq!(groups.len(), 2);
    assert_eq!(groups[0].1, vec!["2023-05-06T07_08_09.000Z--0.sz".to_string()]);
    assert_eq!(groups[1].1, vec!["2024-01-02T03_04_05.678Z--0.sz".to_string(), "2024-01-02T03_04_05.678Z--1.sz".to_string()]);
    assert!(groups[0].0.before(&groups[1].0));
    assert!(Decompressor::can_run(&entries));
    assert!(!Decompressor::can_run(&vec![("readme.txt".to_string(), 3)]));
    let d = Decompressor::new("frames", true);
    assert_eq!(d.directory, "frames");
}

#[test]
fn png_of_frame() {
    let mut padded = vec![0u8; 2 * 256];
    padded[..8].copy_from_slice(&[255, 0, 0, 255, 0, 255, 0, 255]);
    padded[256..264].copy_from_slice(&[0, 0, 255, 255, 9, 9, 9, 9]);
    let stripped = strip_row_padding(&padded, 256, 8, 2);
    assert_eq!(stripped, vec![255, 0, 0, 255, 0, 255, 0, 255, 0, 0, 255, 255, 9, 9, 9, 9]);
    let mut f = frame(1, FrameStatus::Captured, Some(padded));
    f.height = 2;
    f.padded_bytes_per_row = 256;
    let png = PngEncoder::encode_to_bytes(&f).unwrap();
    assert_eq!(&png[1..4], b"PNG");
    let d = frame(2, FrameStatus::Dropped, None);
    assert!(PngEncoder::encode_to_bytes(&d).is_err());
    f.height = 3;
    assert!(PngEncoder::encode_to_bytes(&f).is_err());
    let mut huge = frame(3, FrameStatus::Captured, Some(vec![]));
    huge.width = 1 << 31;
    huge.height = 1 << 31;
    huge.unpadded_bytes_per_row = 0;
    huge.padded_bytes_per_row = 0;
    assert!(PngEncoder::encode_to_bytes(&huge).is_err());
}

#[test]
fn status_words() {
    assert_eq!(FrameStatus::Captured.to_text(), "captured");
    assert_eq!(FrameStatus::Dropped.to_text(), "dropped");
    assert_eq!(FrameStatus::Missing.to_text(), "missing");
    assert_eq!(VideoFrame::missing(4).frame_number, 4);
}

#[test]
fn order_frames_round_trip() {
    let shards: Vec<Vec<VideoFrame>> = vec![
        vec![frame(2, FrameStatus::Captured, Some(image_for(2))), frame(3, FrameStatus::Dropped, None), frame(4, FrameStatus::Dropped, None)],
        vec![frame(1, FrameStatus::Captured, Some(image_for(1))), frame(6, FrameStatus::Captured, Some(image_for(6)))],
        vec![frame(5, FrameStatus::Captured, Some(image_for(5)))],
    ];
    let out = order_frames(shards);
    let numbers: Vec<usize> = out.iter().map(|f| f.frame_number).collect();
    assert_eq!(numbers, vec![1, 2, 3, 4, 5, 6]);
    assert_eq!(out[2].status, FrameStatus::Dropped);
    assert!(out[3].image_data.is_none());
    assert_eq!(bytes_of(&out[5]), Some(image_for(6)));
}

#[test]
fn order_frames_lost_shard() {
    let shards: Vec<Vec<VideoFrame>> = vec![
        vec![frame(1, FrameStatus::Captured, Some(image_for(1))), frame(4, FrameStatus::Captured, Some(image_for(4)))],
        vec![frame(3, FrameStatus::Captured, Some(image_for(3))), frame(6, FrameStatus::Captured, Some(image_for(6)))],
    ];
    // The shard with frames 2 and 5 is gone.
    let out = order_frames(shards);
    let statuses: Vec<FrameStatus> = out.iter().map(|f| f.status).collect();
    assert_eq!(
        statuses,
        vec![
            FrameStatus::Captured,
            FrameStatus::Missing,
            FrameStatus::Captured,
            FrameStatus::Captured,
            FrameStatus::Missing,
            FrameStatus::Captured
        ]
    );
    assert_eq!(out[4].frame_number, 5);
    assert!(order_frames(vec![]).is_empty());
    assert!(order_frames(vec![vec![], vec![]]).is_empty());
}

#[test]
fn names_sort_by_code_point() {
    assert!(name_less("a--10.sz", "a--2.sz"));
    assert!(!name_less("b", "a"));
    assert!(name_less("a", "ab"));
    assert!(!name_less("ab", "ab"));
}

#[test]
fn truncated_packets_are_not_decoded() {
    let f = frame(9, FrameStatus::Captured, Some(image_for(9)));
    let p = encode_packet(&f, &image_for(9)).unwrap();
    for cut in 0..p.len() {
        assert!(decode_packet(&p[..cut]).is_none());
    }
    assert!(decode_packet(&p).is_some());
}

#[test]
fn releasing_a_dropped_frame_keeps_the_counter() {
    let mut rec = VideoRecorder::new(64, 1, false, 0, 256);
    rec.create_buffer_if_within_memory_limit(None);
    rec.create_buffer_if_within_memory_limit(None);
    assert_eq!(rec.inner.buffer_size_in_bytes, 256);
    for h in rec.initiate_buffer_mapping() {
        rec.map_completed(h, true);
    }
    let frames = rec.process_mapped_buffers();
    assert_eq!(frames[1].status, FrameStatus::Dropped);
    let mut frames = frames.into_iter();
    let captured = frames.next().unwrap();
    rec.release_frame(frames.next().unwrap());
    assert_eq!(rec.inner.buffer_size_in_bytes, 256);
    rec.release_frame(captured);
    assert_eq!(rec.inner.buffer_size_in_bytes, 0);
}
