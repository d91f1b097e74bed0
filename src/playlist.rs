//! HLS media playlists, rendered from the segment durations.
use vstd::prelude::*;

use crate::timeline::{
    fixed_durations, fixed_playlist_durations, is_ascending, keyframe_durations,
    keyframe_playlist_durations, target_duration, target_of, TICKS_PER_SECOND,
};

verus! {

/// Decimal digit `d` as a character.
pub open spec fn digit_char(d: int) -> char {
    if d == 0 {
        '0'
    } else if d == 1 {
        '1'
    } else if d == 2 {
        '2'
    } else if d == 3 {
        '3'
    } else if d == 4 {
        '4'
    } else if d == 5 {
        '5'
    } else if d == 6 {
        '6'
    } else if d == 7 {
        '7'
    } else if d == 8 {
        '8'
    } else {
        '9'
    }
}

/// Decimal text of `n`, without leading zeros.
pub open spec fn decimal(n: nat) -> Seq<char>
    decreases n,
{
    if n < 10 {
        seq![digit_char(n as int)]
    } else {
        decimal(n / 10).push(digit_char((n % 10) as int))
    }
}

/// The last `w` decimal digits of `n`, zeros in front included.
pub open spec fn padded(n: nat, w: nat) -> Seq<char>
    decreases w,
{
    if w == 0 {
        Seq::empty()
    } else {
        padded(n / 10, (w - 1) as nat).push(digit_char((n % 10) as int))
    }
}

/// The fraction `f` of `w` digits, trailing zeros dropped.
pub open spec fn trimmed_fraction(f: nat, w: nat) -> Seq<char>
    decreases w,
{
    if w > 0 && f % 10 == 0 {
        trimmed_fraction(f / 10, (w - 1) as nat)
    } else {
        padded(f, w)
    }
}

/// A duration in ticks, written in seconds: whole seconds, then a point and
/// the fraction without trailing zeros if there is one (`4`, `1.5`).
pub open spec fn seconds_text(t: u64) -> Seq<char> {
    let whole = decimal((t / TICKS_PER_SECOND) as nat);
    let frac = (t % TICKS_PER_SECOND) as nat;
    if frac == 0 {
        whole
    } else {
        whole + "."@ + trimmed_fraction(frac, 6)
    }
}

/// The lines before the segments, advertising `target` as target duration.
pub open spec fn playlist_header(target: nat) -> Seq<char> {
    "#EXTM3U\n"@ + "#EXT-X-PLAYLIST-TYPE:VOD\n"@ + "#EXT-X-TARGETDURATION:"@ + decimal(target)
        + "\n"@ + "#EXT-X-VERSION:4\n"@ + "#EXT-X-MEDIA-SEQUENCE:0\n"@
}

/// The lines of segment `i`, of duration `d`.
pub open spec fn playlist_entry(d: u64, i: nat, discontinuity: bool) -> Seq<char> {
    let mark = if discontinuity {
        "#EXT-X-DISCONTINUITY\n"@
    } else {
        Seq::empty()
    };
    mark + "#EXTINF:"@ + seconds_text(d) + "\n"@ + decimal(i) + ".ts\n"@
}

/// The lines of all segments, in order.
pub open spec fn playlist_entries(durations: Seq<u64>, discontinuity: bool) -> Seq<char>
    decreases durations.len(),
{
    if durations.len() == 0 {
        Seq::empty()
    } else {
        playlist_entries(durations.drop_last(), discontinuity) + playlist_entry(
            durations.last(),
            (durations.len() - 1) as nat,
            discontinuity,
        )
    }
}

/// The whole playlist of segments of these durations, named `0.ts`, `1.ts`, ...
pub open spec fn playlist_text(durations: Seq<u64>, discontinuity: bool) -> Seq<char> {
    playlist_header(target_of(durations) as nat) + playlist_entries(durations, discontinuity)
        + "#EXT-X-ENDLIST\n"@
}

fn digit_str(d: u64) -> (r: &'static str)
    requires
        d < 10,
    ensures
        r@ == seq![digit_char(d as int)],
{
    proof {
        reveal_strlit("0");
        reveal_strlit("1");
        reveal_strlit("2");
        reveal_strlit("3");
        reveal_strlit("4");
        reveal_strlit("5");
        reveal_strlit("6");
        reveal_strlit("7");
        reveal_strlit("8");
        reveal_strlit("9");
    }
    if d == 0 {
        "0"
    } else if d == 1 {
        "1"
    } else if d == 2 {
        "2"
    } else if d == 3 {
        "3"
    } else if d == 4 {
        "4"
    } else if d == 5 {
        "5"
    } else if d == 6 {
        "6"
    } else if d == 7 {
        "7"
    } else if d == 8 {
        "8"
    } else {
        "9"
    }
}

/// Appends the decimal text of `n` to `out`.
pub fn append_decimal(out: &mut String, n: u64)
    ensures
        final(out)@ == old(out)@ + decimal(n as nat),
    decreases n,
{
    if n >= 10 {
        append_decimal(out, n / 10);
    }
    out.append(digit_str(n % 10));
    assert(final(out)@ =~= old(out)@ + decimal(n as nat));
}

fn append_padded(out: &mut String, n: u64, w: u64)
    ensures
        final(out)@ == old(out)@ + padded(n as nat, w as nat),
    decreases w,
{
    if w > 0 {
        append_padded(out, n / 10, w - 1);
        out.append(digit_str(n % 10));
    }
    assert(final(out)@ =~= old(out)@ + padded(n as nat, w as nat));
}

/// Appends the duration `t`, in ticks, written in seconds.
pub fn append_seconds(out: &mut String, t: u64)
    ensures
        final(out)@ == old(out)@ + seconds_text(t),
{
    append_decimal(out, t / TICKS_PER_SECOND);
    let frac: u64 = t % TICKS_PER_SECOND;
    if frac != 0 {
        out.append(".");
        let mut f: u64 = frac;
        let mut w: u64 = 6;
        while w > 0 && f % 10 == 0
            invariant
                w <= 6,
                trimmed_fraction(f as nat, w as nat) == trimmed_fraction(frac as nat, 6),
            decreases w,
        {
            f = f / 10;
            w = w - 1;
        }
        append_padded(out, f, w);
    }
    assert(final(out)@ =~= old(out)@ + seconds_text(t));
}

/// Renders the playlist of segments of `durations`, each segment preceded by
/// a discontinuity mark when `discontinuity` is set.
pub fn render_media_playlist(durations: &Vec<u64>, discontinuity: bool) -> (r: String)
    ensures
        r@ == playlist_text(durations@, discontinuity),
{
    let target = target_duration(durations);
    let mut playlist = String::new();
    playlist.append("#EXTM3U\n");
    playlist.append("#EXT-X-PLAYLIST-TYPE:VOD\n");
    playlist.append("#EXT-X-TARGETDURATION:");
    append_decimal(&mut playlist, target);
    playlist.append("\n");
    playlist.append("#EXT-X-VERSION:4\n");
    playlist.append("#EXT-X-MEDIA-SEQUENCE:0\n");
    let ghost header = playlist@;
    assert(header =~= playlist_header(target as nat));
    let mut i: usize = 0;
    assert(durations@.take(0) =~= Seq::<u64>::empty());
    while i < durations.len()
        invariant
            i <= durations.len(),
            header == playlist_header(target as nat),
            playlist@ == header + playlist_entries(durations@.take(i as int), discontinuity),
        decreases durations.len() - i,
    {
        let ghost before = playlist@;
        if discontinuity {
            playlist.append("#EXT-X-DISCONTINUITY\n");
        }
        playlist.append("#EXTINF:");
        append_seconds(&mut playlist, durations[i]);
        playlist.append("\n");
        append_decimal(&mut playlist, i as u64);
        playlist.append(".ts\n");
        proof {
            let next = durations@.take(i + 1);
            assert(next.drop_last() =~= durations@.take(i as int));
            assert(playlist@ =~= before + playlist_entry(durations@[i as int], i as nat, discontinuity));
        }
        i = i + 1;
    }
    playlist.append("#EXT-X-ENDLIST\n");
    assert(durations@.take(durations.len() as int) =~= durations@);
    assert(playlist@ =~= playlist_text(durations@, discontinuity));
    playlist
}

/// The playlist of a stream of `video_duration` ticks cut into segments of
/// `segment_duration` ticks.
pub fn create_hls_media_playlist(video_duration: u64, segment_duration: u64) -> (r: String)
    requires
        segment_duration > 0,
    ensures
        r@ == playlist_text(fixed_durations(video_duration, segment_duration), false),
{
    let durations = fixed_playlist_durations(video_duration, segment_duration);
    render_media_playlist(&durations, false)
}

/// The playlist of a stream cut at the ascending boundaries `keyframes`,
/// each segment marked as a discontinuity.
pub fn create_keyframe_media_playlist(keyframes: &Vec<u64>) -> (r: String)
    requires
        is_ascending(keyframes@),
    ensures
        r@ == playlist_text(keyframe_durations(keyframes@), true),
{
    let durations = keyframe_playlist_durations(keyframes);
    render_media_playlist(&durations, true)
}

} // verus!
