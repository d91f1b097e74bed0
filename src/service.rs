//! What a segment request decides before and after the native call: which
//! encoder runs on which stretch of the asset, and what its outcome becomes.
use vstd::prelude::*;

use crate::error::AppError;
use crate::timeline::{
    fixed_count, fixed_duration, fixed_segment_boundary, fixed_start, is_ascending,
    keyframe_durations, keyframe_segment_boundary, keyframe_start,
};
use crate::variant::{encoder_of, StreamType};

verus! {

/// A transcoding engine held in the pool, around its native context.
pub struct HMff<C> {
    ctx: C,
}

impl<C> HMff<C> {
    /// The native context this engine runs on.
    pub closed spec fn spec_context(&self) -> C {
        self.ctx
    }

    /// An engine around the native context `ctx`.
    pub fn new(ctx: C) -> (r: HMff<C>)
        ensures
            r.spec_context() == ctx,
    {
        HMff { ctx }
    }

    /// The native context of this engine.
    pub fn context(&self) -> (r: &C)
        ensures
            *r == self.spec_context(),
    {
        &self.ctx
    }
}

/// What is known of an asset; nothing yet.
pub struct VideoInfo {}

/// Looks up an asset by id. No catalogue exists, so every id is unknown.
pub fn get_video_info(video_id: &String) -> (r: Result<VideoInfo, AppError>)
    ensures
        r matches Err(AppError::VideoNotFound(m)) && m@ == "video with id "@ + video_id@
            + " not found"@,
{
    let msg = String::from_str("video with id ").concat(video_id.as_str()).concat(" not found");
    Err(AppError::VideoNotFound(msg))
}

/// One native transcoding job: the encoder to run, and where the segment
/// starts and how long it lasts, in ticks.
pub struct SegmentJob {
    pub encoder: String,
    pub start: u64,
    pub duration: u64,
}

/// Plans segment `segment_idx` of an asset of `video_duration` ticks cut
/// every `segment_duration` ticks, in the variant `stream_type`.
pub fn plan_fixed_segment(
    stream_type: &StreamType,
    video_duration: u64,
    segment_duration: u64,
    segment_idx: usize,
) -> (r: Result<SegmentJob, AppError>)
    requires
        segment_duration > 0,
    ensures
        r is Ok <==> segment_idx < fixed_count(video_duration, segment_duration),
        r is Err ==> r->Err_0 is IndexOutOfRange,
        r matches Ok(job) ==> job.encoder@ == encoder_of(stream_type.video_codec) && job.start
            == fixed_start(segment_duration, segment_idx as int) && job.duration
            == fixed_duration(video_duration, segment_duration, segment_idx as int),
{
    match fixed_segment_boundary(video_duration, segment_duration, segment_idx as u64) {
        Ok((start, duration)) => Ok(
            SegmentJob { encoder: stream_type.video_codec.encoder_name(), start, duration },
        ),
        Err(e) => Err(e),
    }
}

/// Plans segment `segment_idx` of an asset cut at the ascending boundaries
/// `keyframes`, in the variant `stream_type`.
pub fn plan_keyframe_segment(
    stream_type: &StreamType,
    keyframes: &Vec<u64>,
    segment_idx: usize,
) -> (r: Result<SegmentJob, AppError>)
    requires
        is_ascending(keyframes@),
    ensures
        r is Ok <==> segment_idx < keyframes@.len(),
        r is Err ==> r->Err_0 is IndexOutOfRange,
        r matches Ok(job) ==> job.encoder@ == encoder_of(stream_type.video_codec) && job.start
            == keyframe_start(keyframes@, segment_idx as int) && job.duration
            == keyframe_durations(keyframes@)[segment_idx as int],
{
    match keyframe_segment_boundary(keyframes, segment_idx) {
        Ok((start, duration)) => Ok(
            SegmentJob { encoder: stream_type.video_codec.encoder_name(), start, duration },
        ),
        Err(e) => Err(e),
    }
}

/// Turns the outcome of a native transcoding call into the segment's bytes,
/// or into the error that carries the native status code.
pub fn finish_segment(outcome: Result<Vec<u8>, i32>) -> (r: Result<Vec<u8>, AppError>)
    ensures
        outcome is Ok <==> r is Ok,
        outcome matches Ok(b) ==> r == Ok::<Vec<u8>, AppError>(b),
        outcome matches Err(c) ==> r == Err::<Vec<u8>, AppError>(AppError::NativeCallFailed(c)),
{
    match outcome {
        Ok(bytes) => Ok(bytes),
        Err(code) => Err(AppError::NativeCallFailed(code)),
    }
}

/// The status code reported for a failed probe: the duration it gave, in
/// ticks, held within `i32`.
pub open spec fn probe_status(duration: i64) -> i32 {
    if duration < i32::MIN {
        i32::MIN
    } else {
        duration as i32
    }
}

/// Checks the duration that probing an asset gave, in ticks: a duration of
/// zero or less is the probe's failure, reported with its status.
pub fn checked_video_duration(duration: i64) -> (r: Result<u64, AppError>)
    ensures
        r is Ok <==> duration > 0,
        r is Ok ==> r->Ok_0 == duration,
        r is Err ==> r == Err::<u64, AppError>(AppError::NativeCallFailed(probe_status(duration))),
{
    if duration > 0 {
        Ok(duration as u64)
    } else if duration < i32::MIN as i64 {
        Err(AppError::NativeCallFailed(i32::MIN))
    } else {
        Err(AppError::NativeCallFailed(duration as i32))
    }
}

} // verus!
