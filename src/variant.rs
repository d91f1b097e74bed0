//! Stream variants: a resolution, a video codec and an audio codec, written
//! as three comma-separated fields (`720p,h264,aac`).
use vstd::prelude::*;

use crate::error::AppError;

verus! {

/// Video codec of a stream variant.
#[derive(Clone, Copy, Debug, PartialEq, Eq, Structural)]
pub enum VideoCodec {
    AV1,
    H264,
    H265,
    Disabled,
}

/// Audio codec of a stream variant.
#[derive(Clone, Copy, Debug, PartialEq, Eq, Structural)]
pub enum AudioCodec {
    AAC,
    Disabled,
}

/// A stream variant.
#[derive(Debug)]
pub struct StreamType {
    pub resolution: String,
    pub video_codec: VideoCodec,
    pub audio_codec: AudioCodec,
}

impl View for StreamType {
    type V = (Seq<char>, VideoCodec, AudioCodec);

    open spec fn view(&self) -> Self::V {
        (self.resolution@, self.video_codec, self.audio_codec)
    }
}

/// The token that names a video codec in a variant string.
pub open spec fn video_token(c: VideoCodec) -> Seq<char> {
    match c {
        VideoCodec::AV1 => "av1"@,
        VideoCodec::H264 => "h264"@,
        VideoCodec::H265 => "h265"@,
        VideoCodec::Disabled => "none"@,
    }
}

/// The native encoder that produces a video codec: the Quick Sync encoders of
/// the native media library, named as the library expects them.
pub open spec fn encoder_of(c: VideoCodec) -> Seq<char> {
    match c {
        VideoCodec::AV1 => "av1_qsv"@,
        VideoCodec::H264 => "h264_qsv"@,
        VideoCodec::H265 => "hevc_qsv"@,
        VideoCodec::Disabled => "none"@,
    }
}

/// The token that names an audio codec in a variant string.
pub open spec fn audio_token(c: AudioCodec) -> Seq<char> {
    match c {
        AudioCodec::AAC => "aac"@,
        AudioCodec::Disabled => "none"@,
    }
}

/// The video codec a token names, if any.
pub open spec fn video_codec_of(t: Seq<char>) -> Option<VideoCodec> {
    if t == "av1"@ {
        Some(VideoCodec::AV1)
    } else if t == "h264"@ {
        Some(VideoCodec::H264)
    } else if t == "h265"@ {
        Some(VideoCodec::H265)
    } else if t == "none"@ {
        Some(VideoCodec::Disabled)
    } else {
        None
    }
}

/// The audio codec a token names, if any.
pub open spec fn audio_codec_of(t: Seq<char>) -> Option<AudioCodec> {
    if t == "aac"@ {
        Some(AudioCodec::AAC)
    } else if t == "none"@ {
        Some(AudioCodec::Disabled)
    } else {
        None
    }
}

/// Position of the first comma in `s`, or its length when it has none.
pub open spec fn comma_at(s: Seq<char>) -> int
    decreases s.len(),
{
    if s.len() == 0 || s[0] == ',' {
        0
    } else {
        1 + comma_at(s.drop_first())
    }
}

/// `s` holds no comma.
pub open spec fn comma_free(s: Seq<char>) -> bool {
    forall|i: int| 0 <= i < s.len() ==> s[i] != ','
}

/// What comes before the first comma of `s`, and what comes after it if there
/// is one.
pub open spec fn split_comma(s: Seq<char>) -> (Seq<char>, Option<Seq<char>>) {
    let p = comma_at(s);
    if p >= s.len() {
        (s, None)
    } else {
        (s.subrange(0, p), Some(s.subrange(p + 1, s.len() as int)))
    }
}

/// The three fields of `s`, when it holds exactly two commas.
pub open spec fn variant_fields(s: Seq<char>) -> Option<(Seq<char>, Seq<char>, Seq<char>)> {
    match split_comma(s).1 {
        None => None,
        Some(rest) => match split_comma(rest).1 {
            None => None,
            Some(tail) => if split_comma(tail).1 is Some {
                None
            } else {
                Some((split_comma(s).0, split_comma(rest).0, tail))
            },
        },
    }
}

/// The variant that `s` names, when it has three fields and both codec
/// tokens are known.
pub open spec fn variant_of(s: Seq<char>) -> Option<(Seq<char>, VideoCodec, AudioCodec)> {
    match variant_fields(s) {
        None => None,
        Some(f) => match (video_codec_of(f.1), audio_codec_of(f.2)) {
            (Some(v), Some(a)) => Some((f.0, v, a)),
            _ => None,
        },
    }
}

/// The variant string of a variant.
pub open spec fn variant_text(v: (Seq<char>, VideoCodec, AudioCodec)) -> Seq<char> {
    v.0 + seq![','] + video_token(v.1) + seq![','] + audio_token(v.2)
}

/// `e` is the error for the unknown codec token `t`.
pub open spec fn is_invalid_codec(e: AppError, t: Seq<char>) -> bool {
    match e {
        AppError::InvalidCodec(m) => m@ == t,
        _ => false,
    }
}

/// `e` is the error for the malformed variant string `s`.
pub open spec fn is_invalid_stream_type(e: AppError, s: Seq<char>) -> bool {
    match e {
        AppError::InvalidStreamType(m) => m@ == s,
        _ => false,
    }
}

/// Whether two strings hold the same characters.
pub fn str_eq(a: &str, b: &str) -> (r: bool)
    ensures
        r == (a@ == b@),
{
    let n = a.unicode_len();
    if n != b.unicode_len() {
        return false;
    }
    let mut i: usize = 0;
    while i < n
        invariant
            n == a@.len(),
            n == b@.len(),
            i <= n,
            forall|j: int| 0 <= j < i ==> a@[j] == b@[j],
        decreases n - i,
    {
        if a.get_char(i) != b.get_char(i) {
            return false;
        }
        i = i + 1;
    }
    assert(a@ =~= b@);
    true
}

proof fn lemma_comma_at(s: Seq<char>, i: int)
    requires
        0 <= i <= s.len(),
        forall|j: int| 0 <= j < i ==> s[j] != ',',
        i == s.len() || s[i] == ',',
    ensures
        comma_at(s) == i,
    decreases i,
{
    if i > 0 {
        lemma_comma_at(s.drop_first(), i - 1);
    }
}

proof fn lemma_comma_at_bound(s: Seq<char>)
    ensures
        0 <= comma_at(s) <= s.len(),
        comma_at(s) < s.len() ==> s[comma_at(s)] == ',',
        forall|j: int| 0 <= j < comma_at(s) ==> s[j] != ',',
    decreases s.len(),
{
    if s.len() > 0 && s[0] != ',' {
        lemma_comma_at_bound(s.drop_first());
        assert forall|j: int| 0 <= j < comma_at(s) implies s[j] != ',' by {
            if j > 0 {
                assert(s[j] == s.drop_first()[j - 1]);
            }
        }
    }
}

/// Splits `s` at its first comma.
fn split_at_comma(s: &str) -> (r: (&str, Option<&str>))
    ensures
        r.0@ == split_comma(s@).0,
        r.1 is Some <==> split_comma(s@).1 is Some,
        r.1 is Some ==> r.1->Some_0@ == split_comma(s@).1->Some_0,
{
    let n = s.unicode_len();
    let mut i: usize = 0;
    while i < n && s.get_char(i) != ','
        invariant
            n == s@.len(),
            i <= n,
            forall|j: int| 0 <= j < i ==> s@[j] != ',',
        decreases n - i,
    {
        i = i + 1;
    }
    proof {
        lemma_comma_at(s@, i as int);
    }
    if i == n {
        assert(s@.subrange(0, n as int) =~= s@);
        (s, None)
    } else {
        (s.substring_char(0, i), Some(s.substring_char(i + 1, n)))
    }
}

impl VideoCodec {
    /// Reads a video codec token: `av1`, `h264`, `h265` or `none`.
    pub fn from_str(s: &str) -> (r: Result<VideoCodec, AppError>)
        ensures
            r is Ok <==> video_codec_of(s@) is Some,
            r is Ok ==> video_codec_of(s@) == Some(r->Ok_0),
            r is Err ==> is_invalid_codec(r->Err_0, s@),
    {
        if str_eq(s, "av1") {
            Ok(VideoCodec::AV1)
        } else if str_eq(s, "h264") {
            Ok(VideoCodec::H264)
        } else if str_eq(s, "h265") {
            Ok(VideoCodec::H265)
        } else if str_eq(s, "none") {
            Ok(VideoCodec::Disabled)
        } else {
            Err(AppError::InvalidCodec(String::from_str(s)))
        }
    }

    /// The token that names this codec in a variant string.
    pub fn to_string(&self) -> (r: String)
        ensures
            r@ == video_token(*self),
    {
        match self {
            VideoCodec::AV1 => String::from_str("av1"),
            VideoCodec::H264 => String::from_str("h264"),
            VideoCodec::H265 => String::from_str("h265"),
            VideoCodec::Disabled => String::from_str("none"),
        }
    }

    /// The native encoder that produces this codec.
    pub fn encoder_name(&self) -> (r: String)
        ensures
            r@ == encoder_of(*self),
    {
        match self {
            VideoCodec::AV1 => String::from_str("av1_qsv"),
            VideoCodec::H264 => String::from_str("h264_qsv"),
            VideoCodec::H265 => String::from_str("hevc_qsv"),
            VideoCodec::Disabled => String::from_str("none"),
        }
    }
}

impl AudioCodec {
    /// Reads an audio codec token: `aac` or `none`.
    pub fn from_str(s: &str) -> (r: Result<AudioCodec, AppError>)
        ensures
            r is Ok <==> audio_codec_of(s@) is Some,
            r is Ok ==> audio_codec_of(s@) == Some(r->Ok_0),
            r is Err ==> is_invalid_codec(r->Err_0, s@),
    {
        if str_eq(s, "aac") {
            Ok(AudioCodec::AAC)
        } else if str_eq(s, "none") {
            Ok(AudioCodec::Disabled)
        } else {
            Err(AppError::InvalidCodec(String::from_str(s)))
        }
    }

    /// The token that names this codec in a variant string.
    pub fn to_string(&self) -> (r: String)
        ensures
            r@ == audio_token(*self),
    {
        match self {
            AudioCodec::AAC => String::from_str("aac"),
            AudioCodec::Disabled => String::from_str("none"),
        }
    }
}

impl StreamType {
    /// Reads a variant string: exactly three comma-separated fields, the
    /// resolution, a video codec token and an audio codec token.
    pub fn from_str(s: &str) -> (r: Result<StreamType, AppError>)
        ensures
            r is Ok <==> variant_of(s@) is Some,
            r is Ok ==> variant_of(s@) == Some(r->Ok_0@),
            variant_fields(s@) is None ==> r is Err && is_invalid_stream_type(r->Err_0, s@),
            variant_fields(s@) matches Some(f) ==> (video_codec_of(f.1) is None ==> r is Err
                && is_invalid_codec(r->Err_0, f.1)),
            variant_fields(s@) matches Some(f) ==> (video_codec_of(f.1) is Some
                && audio_codec_of(f.2) is None ==> r is Err && is_invalid_codec(r->Err_0, f.2)),
    {
        let (resolution, rest) = split_at_comma(s);
        let rest = match rest {
            Some(rest) => rest,
            None => return Err(AppError::InvalidStreamType(String::from_str(s))),
        };
        let (video, tail) = split_at_comma(rest);
        let tail = match tail {
            Some(tail) => tail,
            None => return Err(AppError::InvalidStreamType(String::from_str(s))),
        };
        let (audio, extra) = split_at_comma(tail);
        if extra.is_some() {
            return Err(AppError::InvalidStreamType(String::from_str(s)));
        }
        assert(audio@ == tail@);
        let video_codec = match VideoCodec::from_str(video) {
            Ok(c) => c,
            Err(e) => return Err(e),
        };
        let audio_codec = match AudioCodec::from_str(tail) {
            Ok(c) => c,
            Err(e) => return Err(e),
        };
        Ok(StreamType { resolution: String::from_str(resolution), video_codec, audio_codec })
    }

    /// The variant string of this variant.
    pub fn to_string(&self) -> (r: String)
        ensures
            r@ == variant_text(self@),
    {
        let mut out = self.resolution.clone();
        proof {
            reveal_strlit(",");
        }
        out.append(",");
        let v = self.video_codec.to_string();
        out.append(v.as_str());
        out.append(",");
        let a = self.audio_codec.to_string();
        out.append(a.as_str());
        out
    }
}

proof fn lemma_tokens_comma_free(v: VideoCodec, a: AudioCodec)
    ensures
        comma_free(video_token(v)),
        comma_free(audio_token(a)),
        video_codec_of(video_token(v)) == Some(v),
        audio_codec_of(audio_token(a)) == Some(a),
{
    reveal_strlit("av1");
    reveal_strlit("h264");
    reveal_strlit("h265");
    reveal_strlit("none");
    reveal_strlit("aac");
    assert("av1"@.len() == 3 && "aac"@.len() == 3);
    assert("h264"@.len() == 4 && "h265"@.len() == 4 && "none"@.len() == 4);
    assert("av1"@ != "h264"@ && "av1"@ != "h265"@ && "av1"@ != "none"@);
    assert("h264"@[3] != "h265"@[3]);
    assert("h264"@ != "none"@ && "h265"@ != "none"@);
    assert("aac"@ != "none"@);
}

/// Writing a variant whose resolution holds no comma and reading the text back
/// gives the same variant.
pub proof fn lemma_variant_round_trip(v: (Seq<char>, VideoCodec, AudioCodec))
    requires
        comma_free(v.0),
    ensures
        variant_of(variant_text(v)) == Some(v),
{
    lemma_tokens_comma_free(v.1, v.2);
    let s = variant_text(v);
    let vt = video_token(v.1);
    let at = audio_token(v.2);
    let rest = vt + seq![','] + at;
    assert(s =~= v.0 + seq![','] + rest);
    lemma_comma_at(s, v.0.len() as int);
    assert(s.subrange(0, v.0.len() as int) =~= v.0);
    assert(s.subrange(v.0.len() as int + 1, s.len() as int) =~= rest);
    lemma_comma_at(rest, vt.len() as int);
    assert(rest.subrange(0, vt.len() as int) =~= vt);
    assert(rest.subrange(vt.len() as int + 1, rest.len() as int) =~= at);
    lemma_comma_at(at, at.len() as int);
}

/// A variant string that reads as a variant is exactly that variant's text.
pub proof fn lemma_variant_text_of_parse(s: Seq<char>)
    requires
        variant_of(s) is Some,
    ensures
        variant_text(variant_of(s)->Some_0) == s,
        comma_free(variant_of(s)->Some_0.0),
{
    let v = variant_of(s)->Some_0;
    lemma_comma_at_bound(s);
    let p = comma_at(s);
    let rest = s.subrange(p + 1, s.len() as int);
    lemma_comma_at_bound(rest);
    let q = comma_at(rest);
    let tail = rest.subrange(q + 1, rest.len() as int);
    lemma_tokens_comma_free(v.1, v.2);
    assert(rest =~= rest.subrange(0, q) + seq![','] + tail);
    assert(s =~= s.subrange(0, p) + seq![','] + rest);
    assert(variant_text(v) =~= s);
}

} // verus!
