use haema::cache::Cache;
use haema::error::AppError;
use haema::keyframes::get_video_keyframes;
use haema::playlist::{create_hls_media_playlist, create_keyframe_media_playlist, append_seconds};
use haema::pool::Pool;
use haema::segment_name::parse_segment_filename;
use haema::service::{
    checked_video_duration, finish_segment, get_video_info, plan_fixed_segment,
    plan_keyframe_segment, HMff,
};
use haema::timeline::{
    fixed_playlist_durations, fixed_segment_boundary, fixed_segment_count,
    keyframe_playlist_durations, keyframe_segment_boundary, target_duration, SEGMENT_DURATION,
    TICKS_PER_SECOND,
};
use haema::variant::{AudioCodec, StreamType, VideoCodec};

const S: u64 = TICKS_PER_SECOND;

#[test]
fn nine_seconds_cut_every_four() {
    let d = 9 * S;
    let seg = 4 * S;
    assert_eq!(fixed_playlist_durations(d, seg), vec![4 * S, 4 * S, S]);
    assert_eq!(fixed_segment_count(d, seg), 3);
    assert_eq!(fixed_segment_boundary(d, seg, 0).unwrap(), (0, 4 * S));
    assert_eq!(fixed_segment_boundary(d, seg, 1).unwrap(), (4 * S, 4 * S));
    assert_eq!(fixed_segment_boundary(d, seg, 2).unwrap(), (8 * S, S));
    assert_eq!(target_duration(&fixed_playlist_durations(d, seg)), 4);
}

#[test]
fn boundaries_agree_with_playlist_entries() {
    for (d, seg) in [(9 * S, 4 * S), (8 * S, 4 * S), (3 * S, 4 * S), (0, 4 * S), (12_345_678, 1_000_000), (7, 3)] {
        let durations = fixed_playlist_durations(d, seg);
        let mut start: u64 = 0;
        for (i, dur) in durations.iter().enumerate() {
            assert_eq!(fixed_segment_boundary(d, seg, i as u64).unwrap(), (start, *dur));
            start += dur;
        }
        assert!(matches!(
            fixed_segment_boundary(d, seg, durations.len() as u64),
            Err(AppError::IndexOutOfRange)
        ));
    }
}

#[test]
fn durations_add_up_to_the_stream() {
    for (d, seg) in [(9 * S, 4 * S), (8 * S, 4 * S), (1, 4 * S), (0, 5), (1_234_567_891, 4 * S)] {
        let total: u64 = fixed_playlist_durations(d, seg).iter().sum();
        assert_eq!(total, d);
    }
    let k = vec![0, 2_002_000, 4_004_000, 5_500_000];
    let total: u64 = keyframe_playlist_durations(&k).iter().sum();
    assert_eq!(total, 5_500_000);
}

#[test]
fn target_is_longest_segment_rounded_up() {
    assert_eq!(target_duration(&vec![]), 0);
    assert_eq!(target_duration(&vec![S, 4 * S, 2 * S]), 4);
    assert_eq!(target_duration(&vec![S, 4 * S + 1, 2 * S]), 5);
    assert_eq!(target_duration(&vec![1]), 1);
    assert_eq!(target_duration(&fixed_playlist_durations(3_500_000, 4 * S)), 4);
    assert_eq!(target_duration(&fixed_playlist_durations(2_500_000, 4 * S)), 3);
}

#[test]
fn index_past_the_last_segment_is_refused() {
    assert!(matches!(fixed_segment_boundary(9 * S, 4 * S, 3), Err(AppError::IndexOutOfRange)));
    assert!(matches!(fixed_segment_boundary(8 * S, 4 * S, 2), Err(AppError::IndexOutOfRange)));
    let k = vec![S, 3 * S];
    assert!(matches!(keyframe_segment_boundary(&k, 2), Err(AppError::IndexOutOfRange)));
    let st = StreamType::from_str("720p,h264,aac").unwrap();
    assert!(matches!(plan_fixed_segment(&st, 9 * S, 4 * S, 7), Err(AppError::IndexOutOfRange)));
}

#[test]
fn fixed_playlist_text() {
    let text = create_hls_media_playlist(9 * S, SEGMENT_DURATION);
    assert_eq!(
        text,
        "#EXTM3U\n#EXT-X-PLAYLIST-TYPE:VOD\n#EXT-X-TARGETDURATION:4\n#EXT-X-VERSION:4\n\
         #EXT-X-MEDIA-SEQUENCE:0\n#EXTINF:4\n0.ts\n#EXTINF:4\n1.ts\n#EXTINF:1\n2.ts\n\
         #EXT-X-ENDLIST\n"
    );
    let text = create_hls_media_playlist(10_250_000, 4 * S);
    assert!(text.contains("#EXTINF:2.25\n2.ts\n"));
}

#[test]
fn keyframe_playlist_text() {
    let text = create_keyframe_media_playlist(&vec![0, 2_002_000, 4_500_000]);
    assert_eq!(
        text,
        "#EXTM3U\n#EXT-X-PLAYLIST-TYPE:VOD\n#EXT-X-TARGETDURATION:3\n#EXT-X-VERSION:4\n\
         #EXT-X-MEDIA-SEQUENCE:0\n#EXT-X-DISCONTINUITY\n#EXTINF:0\n0.ts\n\
         #EXT-X-DISCONTINUITY\n#EXTINF:2.002\n1.ts\n#EXT-X-DISCONTINUITY\n#EXTINF:2.498\n2.ts\n\
         #EXT-X-ENDLIST\n"
    );
}

#[test]
fn seconds_are_written_without_trailing_zeros() {
    let mut out = String::new();
    append_seconds(&mut out, 1_500_000);
    assert_eq!(out, "1.5");
    let mut out = String::new();
    append_seconds(&mut out, 12_000_001);
    assert_eq!(out, "12.000001");
    let mut out = String::new();
    append_seconds(&mut out, 0);
    assert_eq!(out, "0");
}

#[test]
fn keyframe_boundaries() {
    let k = vec![0, 2 * S, 5 * S];
    assert_eq!(keyframe_segment_boundary(&k, 0).unwrap(), (0, 0));
    assert_eq!(keyframe_segment_boundary(&k, 1).unwrap(), (0, 2 * S));
    assert_eq!(keyframe_segment_boundary(&k, 2).unwrap(), (2 * S, 3 * S));
    assert_eq!(keyframe_playlist_durations(&k), vec![0, 2 * S, 3 * S]);
}

#[test]
fn pool_admits_at_most_its_size() {
    let mut pool = Pool::new(|| 7u32, 2);
    let a = pool.get();
    let b = pool.get();
    assert_eq!(a, Some(7));
    assert_eq!(b, Some(7));
    assert_eq!(pool.get(), None);
    pool.release(a.unwrap());
    assert_eq!(pool.get(), Some(7));
    assert_eq!(pool.get(), None);
}

#[test]
fn released_item_is_the_next_leased() {
    let mut pool = Pool::new(|| 1u32, 2);
    let a = pool.get().unwrap();
    assert_eq!(a, 1);
    pool.release(99);
    assert_eq!(pool.get(), Some(99));
    assert_eq!(pool.get(), Some(1));
    assert_eq!(pool.get(), None);
    let seen = pool.run_leased(|engine: &u32| *engine);
    assert_eq!(seen, None);
    pool.release(5);
    assert_eq!(pool.run_leased(|engine: &u32| *engine * 2), Some(10));
    assert_eq!(pool.get(), Some(5));
}

#[test]
fn lease_comes_back_after_failed_work() {
    let mut pool = Pool::new(|| 1u8, 1);
    let failed: Option<Result<u8, AppError>> =
        pool.run_leased(|_engine: &u8| Err(AppError::NativeCallFailed(-5)));
    assert!(matches!(failed, Some(Err(AppError::NativeCallFailed(-5)))));
    let ok = pool.run_leased(|engine: &u8| *engine + 1);
    assert_eq!(ok, Some(2));
    assert_eq!(pool.get(), Some(1));
    assert!(pool.run_leased(|engine: &u8| *engine).is_none());
}

#[test]
fn cache_misses_then_last_write_wins() {
    let mut cache: Cache<Vec<u64>> = Cache::new();
    let key = String::from("movie.mp4");
    assert!(cache.get(&key).is_none());
    cache.put(key.clone(), vec![1, 2]);
    cache.put(key.clone(), vec![3]);
    assert_eq!(cache.get(&key), Some(&vec![3]));
    cache.put(String::from("other.mp4"), vec![9]);
    assert_eq!(cache.get(&key), Some(&vec![3]));
    assert_eq!(cache.get(&String::from("other.mp4")), Some(&vec![9]));
}

#[test]
fn variant_parses_and_round_trips() {
    let st = StreamType::from_str("720p,h264,aac").unwrap();
    assert_eq!(st.resolution, "720p");
    assert_eq!(st.video_codec, VideoCodec::H264);
    assert_eq!(st.audio_codec, AudioCodec::AAC);
    assert_eq!(st.to_string(), "720p,h264,aac");
    let st = StreamType::from_str("1080p,none,none").unwrap();
    assert_eq!(st.video_codec, VideoCodec::Disabled);
    assert_eq!(st.audio_codec, AudioCodec::Disabled);
    assert_eq!(st.to_string(), "1080p,none,none");
}

#[test]
fn variant_errors() {
    match StreamType::from_str("720p,h264") {
        Err(AppError::InvalidStreamType(m)) => assert_eq!(m, "720p,h264"),
        _ => panic!("two fields accepted"),
    }
    assert!(matches!(StreamType::from_str("720p,h264,aac,x"), Err(AppError::InvalidStreamType(_))));
    match StreamType::from_str("720p,vp9,aac") {
        Err(AppError::InvalidCodec(m)) => assert_eq!(m, "vp9"),
        _ => panic!("unknown video codec accepted"),
    }
    match StreamType::from_str("720p,av1,opus") {
        Err(AppError::InvalidCodec(m)) => assert_eq!(m, "opus"),
        _ => panic!("unknown audio codec accepted"),
    }
    assert!(VideoCodec::from_str("H264").is_err());
}

#[test]
fn codec_names() {
    assert_eq!(VideoCodec::AV1.encoder_name(), "av1_qsv");
    assert_eq!(VideoCodec::H264.encoder_name(), "h264_qsv");
    assert_eq!(VideoCodec::H265.encoder_name(), "hevc_qsv");
    assert_eq!(VideoCodec::H265.to_string(), "h265");
    assert_eq!(AudioCodec::from_str("aac").unwrap(), AudioCodec::AAC);
}

#[test]
fn segment_file_names() {
    assert_eq!(parse_segment_filename(&String::from("3.ts")).unwrap(), 3);
    assert_eq!(parse_segment_filename(&String::from("0042.ts")).unwrap(), 42);
    assert_eq!(parse_segment_filename(&String::from("seg12.ts")).unwrap(), 12);
    assert!(matches!(parse_segment_filename(&String::from("abc.ts")), Err(AppError::InvalidSegmentName)));
    assert!(matches!(parse_segment_filename(&String::from("3.mp4")), Err(AppError::InvalidSegmentName)));
    assert!(matches!(parse_segment_filename(&String::from(".ts")), Err(AppError::InvalidSegmentName)));
    assert!(matches!(
        parse_segment_filename(&String::from("x\u{663}3.ts")),
        Err(AppError::InvalidSegmentName)
    ));
    assert!(matches!(
        parse_segment_filename(&String::from("\u{663}.ts")),
        Err(AppError::InvalidSegmentName)
    ));
    assert_eq!(parse_segment_filename(&String::from("\u{663}x3.ts")).unwrap(), 3);
    assert!(matches!(
        parse_segment_filename(&String::from("99999999999999999999999.ts")),
        Err(AppError::InvalidSegmentName)
    ));
}

fn chars(s: &str) -> Vec<char> {
    s.chars().collect()
}

#[test]
fn keyframes_from_listing() {
    let listing = chars("0.000000,K__\n0.041708,___\n2.002000,K__\n4.004000,___\n");
    assert_eq!(get_video_keyframes(&listing).unwrap(), vec![0, 2_002_000, 4_004_000]);
    let listing = chars("1.5,K_\n2.25,__");
    assert_eq!(get_video_keyframes(&listing).unwrap(), vec![1_500_000, 2_250_000]);
    let listing = chars("N/A,K_\n0.1234567,K_\n");
    assert_eq!(get_video_keyframes(&listing).unwrap(), vec![123_456, 123_456]);
    let listing = chars("x5,K");
    assert_eq!(get_video_keyframes(&listing).unwrap(), vec![5 * S, 5 * S]);
    let listing = chars("5.,K\n.5,K\n9,_");
    assert!(matches!(get_video_keyframes(&listing), Err(AppError::CommandFail(_))));
    let listing = chars(".5,K\n5.,K\n9,_");
    assert_eq!(get_video_keyframes(&listing).unwrap(), vec![500_000, 5 * S, 9 * S]);
    let listing = chars("1,K\n2,_\nlast line N/A,_");
    assert_eq!(get_video_keyframes(&listing).unwrap(), vec![S]);
    assert!(matches!(get_video_keyframes(&chars("")), Err(AppError::CommandFail(_))));
    assert!(matches!(get_video_keyframes(&chars("5.0,K\n1.0,_\n")), Err(AppError::CommandFail(_))));
}

#[test]
fn unreadable_keyframe_time_is_an_error() {
    assert!(matches!(get_video_keyframes(&chars(".,K\n5,K")), Err(AppError::CommandFail(_))));
    assert!(matches!(get_video_keyframes(&chars("1.2.3,K\n5,K")), Err(AppError::CommandFail(_))));
    assert!(matches!(get_video_keyframes(&chars("\u{663}3,K\n5,K")), Err(AppError::CommandFail(_))));
}

#[test]
fn segment_jobs_and_outcomes() {
    let st = StreamType::from_str("720p,h265,aac").unwrap();
    let job = plan_fixed_segment(&st, 9 * S, 4 * S, 2).unwrap();
    assert_eq!(job.encoder, "hevc_qsv");
    assert_eq!((job.start, job.duration), (8 * S, S));
    let job = plan_keyframe_segment(&st, &vec![S, 3 * S], 1).unwrap();
    assert_eq!((job.start, job.duration), (S, 2 * S));
    assert_eq!(finish_segment(Ok(vec![1, 2, 3])).unwrap(), vec![1, 2, 3]);
    assert!(matches!(finish_segment(Err(-22)), Err(AppError::NativeCallFailed(-22))));
    assert_eq!(checked_video_duration(5).unwrap(), 5);
    assert!(matches!(checked_video_duration(0), Err(AppError::NativeCallFailed(0))));
    assert!(matches!(checked_video_duration(-7), Err(AppError::NativeCallFailed(-7))));
    assert!(matches!(checked_video_duration(i64::MIN), Err(AppError::NativeCallFailed(i32::MIN))));
}

#[test]
fn error_statuses_and_messages() {
    let e = AppError::VideoNotFound(String::from("x"));
    assert_eq!(e.status_code(), 404);
    assert_eq!(e.message(), "Video Not Found: x");
    assert_eq!(AppError::InvalidSegmentName.status_code(), 500);
    assert_eq!(AppError::IndexOutOfRange.status_code(), 500);
    assert_eq!(AppError::NativeCallFailed(-12).message(), "native call failed with code -12");
    assert_eq!(AppError::NativeCallFailed(7).message(), "native call failed with code 7");
    assert_eq!(AppError::InvalidCodec(String::from("vp9")).message(), "Invalid codec: vp9");
    match get_video_info(&String::from("abc")) {
        Err(e) => assert_eq!(e.message(), "Video Not Found: video with id abc not found"),
        Ok(_) => panic!("unknown video found"),
    }
}

#[test]
fn engine_keeps_its_context() {
    let engine = HMff::new(41u32);
    assert_eq!(*engine.context(), 41);
}
