use vstd::prelude::*;
use vstd::utf8::{decode_utf8, valid_utf8};

use crate::device::RawUploadFormat;
use crate::text::{
    blank, chars_of, ends_with, ends_with_exec, is_blank, join, join_strings, parse_u64,
    parse_u64_chars, same_chars, split_chars, split_on, starts_with, starts_with_exec,
    string_of, strings_view, sub_chars, trim, trim_chars, char_vecs_view,
};

verus! {

/// One progress report of an external encoder: which encoder, and how far it
/// is in percent where that is known.
#[derive(Debug, Clone, Copy, PartialEq, Eq)]
pub struct EncodingProgress {
    pub encoder: &'static str,
    pub percent: Option<u8>,
}

/// Why converting an audio file failed.
#[derive(Debug)]
pub enum AudioError {
    InputNotFound(String),
    NotAFile(String),
    InspectInput(std::io::Error),
    StartFfmpeg(std::io::Error),
    FfmpegFailed(String),
    ReadFfmpegOutput(std::io::Error),
    CreateTempDir(std::io::Error),
    StartAtracdenc(std::io::Error),
    AtracdencFailed(String),
    ReadAtracOutput { path: String, source: std::io::Error },
    AtracOutputTooShort(usize),
    EmptyOutput,
}

/// How an audio file becomes raw upload bytes of a format: SP is 16-bit
/// big-endian PCM straight from ffmpeg; the LP formats go through a WAV file
/// and atracdenc at the given bitrate.
#[derive(Debug, Clone, Copy, PartialEq, Eq)]
pub enum ConversionRoute {
    Pcm,
    Atrac3 { bitrate: &'static str },
}

/// Bytes of the OMA header that atracdenc writes before the ATRAC3 frames.
pub const OMA_HEADER_BYTES: usize = 96;

/// The atracdenc bitrate (kbit/s) for each LP format.
pub open spec fn bitrate_of(format: RawUploadFormat) -> Seq<char> {
    match format {
        RawUploadFormat::Sp => seq![],
        RawUploadFormat::Lp2 => "128"@,
        RawUploadFormat::Lp105 => "102"@,
        RawUploadFormat::Lp4 => "64"@,
    }
}

/// The atracdenc bitrate for an LP format.
pub fn atracdenc_bitrate(format: RawUploadFormat) -> (b: &'static str)
    requires
        format != RawUploadFormat::Sp,
    ensures
        b@ == bitrate_of(format),
{
    match format {
        RawUploadFormat::Lp2 => "128",
        RawUploadFormat::Lp105 => "102",
        _ => "64",
    }
}

/// How to convert audio into the given format.
pub fn conversion_route(format: RawUploadFormat) -> (r: ConversionRoute)
    ensures
        format == RawUploadFormat::Sp <==> r is Pcm,
        r matches ConversionRoute::Atrac3 { bitrate } ==> bitrate@ == bitrate_of(format),
{
    match format {
        RawUploadFormat::Sp => ConversionRoute::Pcm,
        _ => ConversionRoute::Atrac3 { bitrate: atracdenc_bitrate(format) },
    }
}

/// The ATRAC3 frames of an OMA file: everything after its header. A file no
/// longer than the header holds no audio.
pub fn strip_oma_header(oma: Vec<u8>) -> (r: Result<Vec<u8>, AudioError>)
    ensures
        oma@.len() <= OMA_HEADER_BYTES <==> r is Err,
        r matches Err(e) ==> (e matches AudioError::AtracOutputTooShort(n) && n == oma@.len()),
        r matches Ok(frames) ==> frames@ == oma@.skip(OMA_HEADER_BYTES as int),
{
    if oma.len() <= OMA_HEADER_BYTES {
        return Err(AudioError::AtracOutputTooShort(oma.len()));
    }
    let mut out: Vec<u8> = Vec::new();
    let mut i = OMA_HEADER_BYTES;
    while i < oma.len()
        invariant
            OMA_HEADER_BYTES <= i <= oma.len(),
            out@ == oma@.subrange(OMA_HEADER_BYTES as int, i as int),
        decreases oma.len() - i,
    {
        out.push(oma[i]);
        i = i + 1;
        assert(oma@.subrange(OMA_HEADER_BYTES as int, i as int) == oma@.subrange(
            OMA_HEADER_BYTES as int,
            i - 1,
        ).push(oma@[i - 1]));
    }
    Ok(out)
}

/// What `String::from_utf8_lossy` makes of the bytes.
pub uninterp spec fn utf8_lossy(bytes: Seq<u8>) -> Seq<char>;

/// `String::from_utf8_lossy`: the text of the bytes, with each invalid
/// sequence replaced by U+FFFD. Stated: the result is the named function of
/// the bytes, and it is the plain decoding where the bytes are valid UTF-8
/// (std's documentation). How invalid sequences are cut up is left to the name.
#[verifier::external_body]
fn lossy_text(bytes: &[u8]) -> (s: String)
    ensures
        s@ == utf8_lossy(bytes@),
        valid_utf8(bytes@) ==> s@ == decode_utf8(bytes@),
{
    String::from_utf8_lossy(bytes).into_owned()
}

/// The error detail for a failed tool: its trimmed output, or its exit
/// status where the output is blank.
pub open spec fn error_detail(status_text: Seq<char>, output: Seq<char>) -> Seq<char> {
    if trim(output).len() == 0 {
        status_text
    } else {
        trim(output)
    }
}

/// The error detail from a tool's output as text.
pub fn error_detail_text(status_text: &str, output: &str) -> (r: String)
    ensures
        r@ == error_detail(status_text@, output@),
{
    let chars = chars_of(output);
    let detail = trim_chars(&chars);
    if detail.len() == 0 {
        string_of(&chars_of(status_text))
    } else {
        string_of(&detail)
    }
}

/// The error detail from a tool's raw error output.
pub fn command_error_detail(status_text: &str, stderr: &[u8]) -> (r: String)
    ensures
        r@ == error_detail(status_text@, utf8_lossy(stderr@)),
{
    let text = lossy_text(stderr);
    error_detail_text(status_text, text.as_str())
}

/// The error detail from the lines a tool printed.
pub fn command_error_detail_from_lines(status_text: &str, stderr_lines: &Vec<String>) -> (r:
    String)
    ensures
        r@ == error_detail(status_text@, join(strings_view(stderr_lines@), "\n"@)),
{
    let joined = join_strings(stderr_lines, "\n");
    let detail = trim_chars(&joined);
    if detail.len() == 0 {
        string_of(&chars_of(status_text))
    } else {
        string_of(&detail)
    }
}

/// The decision on an input path: `exists` is what `Path::try_exists`
/// reported, `is_file` what `Path::is_file` did, `display` the path as text.
pub fn check_input_file(exists: Result<bool, std::io::Error>, is_file: bool, display: String) -> (r:
    Result<(), AudioError>)
    ensures
        r is Ok <==> (exists matches Ok(true) && is_file),
        exists matches Ok(true) && !is_file ==> (r matches Err(AudioError::NotAFile(p)) && p
            == display),
        exists matches Ok(false) ==> (r matches Err(AudioError::InputNotFound(p)) && p
            == display),
        exists matches Err(cause) ==> (r matches Err(AudioError::InspectInput(e)) && e == cause),
{
    match exists {
        Ok(true) => {
            if is_file {
                Ok(())
            } else {
                Err(AudioError::NotAFile(display))
            }
        },
        Ok(false) => Err(AudioError::InputNotFound(display)),
        Err(err) => Err(AudioError::InspectInput(err)),
    }
}

/// The outcome of an ffmpeg run that wrote a WAV file.
pub fn finish_ffmpeg_to_wav(success: bool, status_text: &str, stderr_lines: &Vec<String>) -> (r:
    Result<(), AudioError>)
    ensures
        r is Ok <==> success,
        !success ==> (r matches Err(AudioError::FfmpegFailed(d)) && d@ == error_detail(
            status_text@,
            join(strings_view(stderr_lines@), "\n"@),
        )),
{
    if success {
        Ok(())
    } else {
        Err(AudioError::FfmpegFailed(command_error_detail_from_lines(status_text, stderr_lines)))
    }
}

/// The outcome of an ffmpeg run that wrote PCM to its output: the PCM bytes,
/// unless ffmpeg failed or wrote nothing.
pub fn finish_ffmpeg_to_pcm(
    success: bool,
    status_text: &str,
    stderr_lines: &Vec<String>,
    stdout: Vec<u8>,
) -> (r: Result<Vec<u8>, AudioError>)
    ensures
        r is Ok <==> success && stdout@.len() > 0,
        !success ==> (r matches Err(AudioError::FfmpegFailed(d)) && d@ == error_detail(
            status_text@,
            join(strings_view(stderr_lines@), "\n"@),
        )),
        success && stdout@.len() == 0 ==> r matches Err(AudioError::EmptyOutput),
        r matches Ok(data) ==> data@ == stdout@,
{
    if !success {
        return Err(
            AudioError::FfmpegFailed(command_error_detail_from_lines(status_text, stderr_lines)),
        );
    }
    if stdout.len() == 0 {
        return Err(AudioError::EmptyOutput);
    }
    Ok(stdout)
}

/// The outcome of an atracdenc run.
pub fn finish_atracdenc(success: bool, status_text: &str, stderr: &[u8]) -> (r: Result<
    (),
    AudioError,
>)
    ensures
        r is Ok <==> success,
        !success ==> (r matches Err(AudioError::AtracdencFailed(d)) && d@ == error_detail(
            status_text@,
            utf8_lossy(stderr@),
        )),
{
    if success {
        Ok(())
    } else {
        Err(AudioError::AtracdencFailed(command_error_detail(status_text, stderr)))
    }
}

// ---------------------------------------------------------------------------
// ffmpeg progress
// ---------------------------------------------------------------------------

/// What follows the first `c` in `s`, if `s` holds one.
pub open spec fn before_first(s: Seq<char>, c: char) -> Option<Seq<char>>
    decreases s.len(),
{
    if s.len() == 0 {
        None
    } else if s[0] == c {
        Some(seq![])
    } else {
        match before_first(s.drop_first(), c) {
            Some(k) => Some(seq![s[0]] + k),
            None => None,
        }
    }
}

/// The keys ffmpeg writes in its `-progress` output.
pub open spec fn is_progress_key(key: Seq<char>) -> bool {
    ||| starts_with(key, "stream_"@) && ends_with(key, "_q"@)
    ||| key == "bitrate"@
    ||| key == "drop_frames"@
    ||| key == "dup_frames"@
    ||| key == "fps"@
    ||| key == "frame"@
    ||| key == "out_time"@
    ||| key == "out_time_ms"@
    ||| key == "out_time_us"@
    ||| key == "progress"@
    ||| key == "speed"@
    ||| key == "total_size"@
}

/// Whether a line of ffmpeg's error output is a `key=value` progress line.
pub open spec fn is_progress_line(line: Seq<char>) -> bool {
    match before_first(line, '=') {
        Some(key) => is_progress_key(key),
        None => false,
    }
}

/// The characters before the first `c` in `v`, if `v` holds one.
fn before_first_chars(v: &Vec<char>, c: char) -> (r: Option<Vec<char>>)
    ensures
        match r {
            Some(k) => before_first(v@, c) == Some(k@),
            None => before_first(v@, c) is None,
        },
{
    let mut i: usize = 0;
    while i < v.len()
        invariant
            i <= v.len(),
            forall|j: int| 0 <= j < i ==> v@[j] != c,
        decreases v.len() - i,
    {
        if v[i] == c {
            proof {
                lemma_before_first_at(v@, c, i as int);
            }
            return Some(sub_chars(v, 0, i));
        }
        i = i + 1;
    }
    proof {
        lemma_before_first_none(v@, c);
    }
    None
}

proof fn lemma_before_first_at(s: Seq<char>, c: char, i: int)
    requires
        0 <= i < s.len(),
        s[i] == c,
        forall|j: int| 0 <= j < i ==> s[j] != c,
    ensures
        before_first(s, c) == Some(s.take(i)),
    decreases i,
{
    if i > 0 {
        assert forall|j: int| 0 <= j < i - 1 implies s.drop_first()[j] != c by {
            assert(s.drop_first()[j] == s[j + 1]);
        }
        lemma_before_first_at(s.drop_first(), c, i - 1);
        assert(seq![s[0]] + s.drop_first().take(i - 1) == s.take(i));
    } else {
        assert(s.take(0) == Seq::<char>::empty());
    }
}

proof fn lemma_before_first_none(s: Seq<char>, c: char)
    requires
        forall|j: int| 0 <= j < s.len() ==> s[j] != c,
    ensures
        before_first(s, c) is None,
    decreases s.len(),
{
    if s.len() > 0 {
        assert forall|j: int| 0 <= j < s.len() - 1 implies s.drop_first()[j] != c by {
            assert(s.drop_first()[j] == s[j + 1]);
        }
        lemma_before_first_none(s.drop_first(), c);
    }
}

fn is_literal(v: &Vec<char>, lit: &str) -> (r: bool)
    ensures
        r == (v@ == lit@),
{
    same_chars(v, &chars_of(lit))
}

/// Whether a line of ffmpeg's error output is a progress line.
pub fn is_ffmpeg_progress_line(line: &str) -> (r: bool)
    ensures
        r == is_progress_line(line@),
{
    let v = chars_of(line);
    let key = match before_first_chars(&v, '=') {
        Some(k) => k,
        None => return false,
    };
    if starts_with_exec(&key, &chars_of("stream_")) && ends_with_exec(&key, &chars_of("_q")) {
        return true;
    }
    is_literal(&key, "bitrate") || is_literal(&key, "drop_frames") || is_literal(&key, "dup_frames")
        || is_literal(&key, "fps") || is_literal(&key, "frame") || is_literal(&key, "out_time")
        || is_literal(&key, "out_time_ms") || is_literal(&key, "out_time_us") || is_literal(
        &key,
        "progress",
    ) || is_literal(&key, "speed") || is_literal(&key, "total_size")
}

/// The microseconds that the fraction digits `frac` stand for: the first six
/// characters, padded with zeros to six, read as a number.
pub open spec fn fraction_micros(frac: Seq<char>) -> Option<u64> {
    if frac.len() == 0 {
        Some(0)
    } else {
        parse_u64(pad_zeros_right(first_chars(frac, 6), 6))
    }
}

/// The first `n` characters of `s`, or all of them where it has fewer.
pub open spec fn first_chars(s: Seq<char>, n: nat) -> Seq<char> {
    if s.len() <= n {
        s
    } else {
        s.take(n as int)
    }
}

/// `s` followed by zeros up to `width` characters.
pub open spec fn pad_zeros_right(s: Seq<char>, width: nat) -> Seq<char> {
    if s.len() >= width {
        s
    } else {
        s + Seq::new((width - s.len()) as nat, |_i: int| '0')
    }
}

/// The time, in microseconds, of an ffmpeg timestamp `H:M:S[.fraction]`.
pub open spec fn timestamp_us(value: Seq<char>) -> Option<nat> {
    let parts = split_on(value, ':');
    if parts.len() != 3 {
        None
    } else {
        let secs = split_on(parts[2], '.');
        let frac = if secs.len() >= 2 {
            secs[1]
        } else {
            seq![]
        };
        match (parse_u64(parts[0]), parse_u64(parts[1]), parse_u64(secs[0])) {
            (Some(h), Some(m), Some(s)) => if secs.len() > 2 {
                None
            } else {
                match fraction_micros(frac) {
                    Some(micros) => Some(
                        (((h as nat) * 60 + (m as nat)) * 60 + (s as nat)) * 1_000_000 + (
                        micros as nat),
                    ),
                    None => None,
                }
            },
            _ => None,
        }
    }
}

/// Whether a timestamp's time fits in a `u64` (beyond that the computation
/// overflows).
pub open spec fn timestamp_fits(value: Seq<char>) -> bool {
    timestamp_us(value) matches Some(t) ==> t <= u64::MAX
}

/// Parses an ffmpeg timestamp into microseconds.
pub fn parse_ffmpeg_timestamp_us(value: &str) -> (r: Option<u64>)
    requires
        timestamp_fits(value@),
    ensures
        match timestamp_us(value@) {
            Some(t) => r == Some(t as u64),
            None => r is None,
        },
{
    let v = chars_of(value);
    timestamp_chars(&v)
}

proof fn lemma_split_len(s: Seq<char>, c: char)
    ensures
        split_on(s, c).len() >= 1,
    decreases s.len(),
{
    if s.len() > 0 {
        lemma_split_len(s.drop_last(), c);
    }
}

fn timestamp_chars(v: &Vec<char>) -> (r: Option<u64>)
    requires
        timestamp_fits(v@),
    ensures
        match timestamp_us(v@) {
            Some(t) => r == Some(t as u64),
            None => r is None,
        },
{
    let parts = split_chars(v, ':');
    assert(char_vecs_view(parts@).len() == parts@.len());
    if parts.len() != 3 {
        return None;
    }
    assert(char_vecs_view(parts@)[0] == parts@[0]@);
    assert(char_vecs_view(parts@)[1] == parts@[1]@);
    assert(char_vecs_view(parts@)[2] == parts@[2]@);
    let hours = match parse_u64_chars(&parts[0]) {
        Some(h) => h,
        None => return None,
    };
    let minutes = match parse_u64_chars(&parts[1]) {
        Some(m) => m,
        None => return None,
    };
    let secs = split_chars(&parts[2], '.');
    proof {
        lemma_split_len(parts@[2]@, '.');
    }
    assert(char_vecs_view(secs@).len() == secs@.len());
    assert(char_vecs_view(secs@)[0] == secs@[0]@);
    let whole = match parse_u64_chars(&secs[0]) {
        Some(s) => s,
        None => return None,
    };
    if secs.len() > 2 {
        return None;
    }
    let micros: u64 = if secs.len() < 2 || secs[1].len() == 0 {
        0
    } else {
        assert(char_vecs_view(secs@)[1] == secs@[1]@);
        let frac = &secs[1];
        let cut = if frac.len() > 6 {
            6
        } else {
            frac.len()
        };
        let head = sub_chars(frac, 0, cut);
        assert(head@ == first_chars(frac@, 6));
        let padded = pad_zeros(&head, 6);
        match parse_u64_chars(&padded) {
            Some(m) => m,
            None => return None,
        }
    };
    assert(secs.len() >= 2 ==> char_vecs_view(secs@)[1] == secs@[1]@);
    let ghost total = (((hours as nat) * 60 + (minutes as nat)) * 60 + (whole as nat)) * 1_000_000
        + (micros as nat);
    assert(total <= u64::MAX);
    assert((hours as nat) * 60 <= total && (hours as nat) * 60 + (minutes as nat) <= total && ((
    hours as nat) * 60 + (minutes as nat)) * 60 <= total && (((hours as nat) * 60 + (
    minutes as nat)) * 60 + (whole as nat)) * 1_000_000 <= total) by (nonlinear_arith)
        requires
            total == (((hours as nat) * 60 + (minutes as nat)) * 60 + (whole as nat)) * 1_000_000
                + (micros as nat),
    ;
    Some(((hours * 60 + minutes) * 60 + whole) * 1_000_000 + micros)
}

fn pad_zeros(v: &Vec<char>, width: usize) -> (r: Vec<char>)
    ensures
        r@ == pad_zeros_right(v@, width as nat),
{
    let mut r = sub_chars(v, 0, v.len());
    assert(v@.subrange(0, v.len() as int) == v@);
    if v.len() >= width {
        return r;
    }
    let mut k: usize = v.len();
    while k < width
        invariant
            v.len() <= k <= width,
            r@ == v@ + Seq::new((k - v.len()) as nat, |_i: int| '0'),
        decreases width - k,
    {
        r.push('0');
        k = k + 1;
        assert(r@ == v@ + Seq::new((k - v.len()) as nat, |_i: int| '0'));
    }
    r
}

/// The playback time, in microseconds, that a progress line reports.
pub open spec fn progress_time_us(line: Seq<char>) -> Option<nat> {
    let direct = if starts_with(line, "out_time_us="@) {
        parse_u64(trim(line.skip("out_time_us="@.len() as int)))
    } else if starts_with(line, "out_time_ms="@) {
        parse_u64(trim(line.skip("out_time_ms="@.len() as int)))
    } else {
        None
    };
    match direct {
        Some(t) => Some(t as nat),
        None => if starts_with(line, "out_time="@) {
            timestamp_us(trim(line.skip("out_time="@.len() as int)))
        } else {
            None
        },
    }
}

/// Whether the time a progress line reports fits in a `u64`.
pub open spec fn progress_line_fits(line: Seq<char>) -> bool {
    starts_with(line, "out_time="@) ==> timestamp_fits(trim(line.skip("out_time="@.len() as int)))
}

/// `current` as a whole percentage of `duration`, below 100 so that only a
/// finished encoder reports completion.
pub open spec fn percent_of(current: nat, duration: nat) -> nat {
    if duration == 0 {
        0
    } else {
        let scaled = if current * 100 > u64::MAX {
            u64::MAX as nat
        } else {
            current * 100
        };
        let p = scaled / duration;
        if p > 99 {
            99
        } else {
            p
        }
    }
}

/// The percentage a progress line reports, for a known duration.
pub open spec fn progress_percent(line: Seq<char>, duration_us: Option<u64>) -> Option<u8> {
    match duration_us {
        None => None,
        Some(d) => match progress_time_us(line) {
            Some(t) => Some(percent_of(t, d as nat) as u8),
            None => None,
        },
    }
}

/// `current_us` as a percentage of `duration_us`, capped at 99.
pub fn percent_from_duration(current_us: u64, duration_us: u64) -> (p: u8)
    ensures
        p == percent_of(current_us as nat, duration_us as nat),
        p <= 99,
{
    if duration_us == 0 {
        return 0;
    }
    let scaled = if current_us > u64::MAX / 100 {
        u64::MAX
    } else {
        current_us * 100
    };
    let p = scaled / duration_us;
    if p > 99 {
        99
    } else {
        p as u8
    }
}

/// Whether the time in a progress line fits in a `u64`.
pub fn progress_line_time_fits(line: &str) -> (r: bool)
    ensures
        r == progress_line_fits(line@),
{
    let v = chars_of(line);
    let marker = chars_of("out_time=");
    if !starts_with_exec(&v, &marker) {
        return true;
    }
    let value = trim_chars(&sub_chars(&v, marker.len(), v.len()));
    proof {
        assert(v@.subrange(marker.len() as int, v.len() as int) == v@.skip(marker.len() as int));
    }
    timestamp_fits_chars(&value)
}

fn timestamp_fits_chars(v: &Vec<char>) -> (r: bool)
    ensures
        r == timestamp_fits(v@),
{
    let parts = split_chars(v, ':');
    assert(char_vecs_view(parts@).len() == parts@.len());
    if parts.len() != 3 {
        return true;
    }
    assert(char_vecs_view(parts@)[0] == parts@[0]@);
    assert(char_vecs_view(parts@)[1] == parts@[1]@);
    assert(char_vecs_view(parts@)[2] == parts@[2]@);
    let hours = match parse_u64_chars(&parts[0]) {
        Some(h) => h,
        None => return true,
    };
    let minutes = match parse_u64_chars(&parts[1]) {
        Some(m) => m,
        None => return true,
    };
    let secs = split_chars(&parts[2], '.');
    proof {
        lemma_split_len(parts@[2]@, '.');
    }
    assert(char_vecs_view(secs@).len() == secs@.len());
    assert(char_vecs_view(secs@)[0] == secs@[0]@);
    let whole = match parse_u64_chars(&secs[0]) {
        Some(s) => s,
        None => return true,
    };
    if secs.len() > 2 {
        return true;
    }
    let micros: u64 = if secs.len() < 2 || secs[1].len() == 0 {
        0
    } else {
        assert(char_vecs_view(secs@)[1] == secs@[1]@);
        let frac = &secs[1];
        let cut = if frac.len() > 6 {
            6
        } else {
            frac.len()
        };
        let head = sub_chars(frac, 0, cut);
        assert(head@ == first_chars(frac@, 6));
        let padded = pad_zeros(&head, 6);
        match parse_u64_chars(&padded) {
            Some(m) => m,
            None => return true,
        }
    };
    assert(secs.len() >= 2 ==> char_vecs_view(secs@)[1] == secs@[1]@);
    // Each step is checked so that the test itself cannot overflow.
    let a = match hours.checked_mul(60) {
        Some(x) => x,
        None => {
            proof {
                lemma_total_bounds(hours as nat, minutes as nat, whole as nat, micros as nat);
            }
            return false;
        },
    };
    let b = match a.checked_add(minutes) {
        Some(x) => x,
        None => {
            proof {
                lemma_total_bounds(hours as nat, minutes as nat, whole as nat, micros as nat);
            }
            return false;
        },
    };
    let c = match b.checked_mul(60) {
        Some(x) => x,
        None => {
            proof {
                lemma_total_bounds(hours as nat, minutes as nat, whole as nat, micros as nat);
            }
            return false;
        },
    };
    let d = match c.checked_add(whole) {
        Some(x) => x,
        None => {
            proof {
                lemma_total_bounds(hours as nat, minutes as nat, whole as nat, micros as nat);
            }
            return false;
        },
    };
    let e = match d.checked_mul(1_000_000) {
        Some(x) => x,
        None => {
            proof {
                lemma_total_bounds(hours as nat, minutes as nat, whole as nat, micros as nat);
            }
            return false;
        },
    };
    match e.checked_add(micros) {
        Some(_) => true,
        None => false,
    }
}

proof fn lemma_total_bounds(h: nat, m: nat, s: nat, u: nat)
    ensures
        h * 60 <= (((h * 60 + m) * 60 + s) * 1_000_000 + u),
        h * 60 + m <= (((h * 60 + m) * 60 + s) * 1_000_000 + u),
        (h * 60 + m) * 60 <= (((h * 60 + m) * 60 + s) * 1_000_000 + u),
        (h * 60 + m) * 60 + s <= (((h * 60 + m) * 60 + s) * 1_000_000 + u),
        ((h * 60 + m) * 60 + s) * 1_000_000 <= (((h * 60 + m) * 60 + s) * 1_000_000 + u),
{
    assert((h * 60 + m) * 60 + s <= ((h * 60 + m) * 60 + s) * 1_000_000) by (nonlinear_arith);
    assert(h * 60 + m <= (h * 60 + m) * 60) by (nonlinear_arith);
}

fn time_after(v: &Vec<char>, marker: &str) -> (r: Option<u64>)
    ensures
        starts_with(v@, marker@) ==> r == parse_u64(trim(v@.skip(marker@.len() as int))),
        !starts_with(v@, marker@) ==> r is None,
{
    let m = chars_of(marker);
    if !starts_with_exec(v, &m) {
        return None;
    }
    let rest = sub_chars(v, m.len(), v.len());
    assert(rest@ == v@.skip(m.len() as int));
    parse_u64_chars(&trim_chars(&rest))
}

/// The percentage a progress line reports, where the duration is known.
pub fn parse_ffmpeg_progress_percent(line: &str, duration_us: Option<u64>) -> (r: Option<u8>)
    requires
        duration_us is Some ==> progress_line_fits(line@),
    ensures
        r == progress_percent(line@, duration_us),
{
    let duration = match duration_us {
        Some(d) => d,
        None => return None,
    };
    let v = chars_of(line);
    let direct = match time_after(&v, "out_time_us=") {
        Some(t) => Some(t),
        None => {
            if starts_with_exec(&v, &chars_of("out_time_us=")) {
                None
            } else {
                time_after(&v, "out_time_ms=")
            }
        },
    };
    let current = match direct {
        Some(t) => t,
        None => {
            let marker = chars_of("out_time=");
            if !starts_with_exec(&v, &marker) {
                return None;
            }
            let value = trim_chars(&sub_chars(&v, marker.len(), v.len()));
            assert(v@.subrange(marker.len() as int, v.len() as int) == v@.skip(
                marker.len() as int,
            ));
            match timestamp_chars(&value) {
                Some(t) => t,
                None => return None,
            }
        },
    };
    Some(percent_from_duration(current, duration))
}

/// The state of a running ffmpeg's error output: the last percentage
/// reported, and the lines that were not progress.
pub struct ProgressTracker {
    duration_us: Option<u64>,
    last_percent: Option<u8>,
    stderr_lines: Vec<String>,
}

impl ProgressTracker {
    /// The total duration, in microseconds, where it is known.
    pub closed spec fn duration(&self) -> Option<u64> {
        self.duration_us
    }

    /// The last percentage reported.
    pub closed spec fn last_reported(&self) -> Option<u8> {
        self.last_percent
    }

    /// The non-progress lines kept so far.
    pub closed spec fn kept_lines(&self) -> Seq<Seq<char>> {
        strings_view(self.stderr_lines@)
    }

    /// A tracker before any output; where the duration is known, 0% counts as
    /// already reported.
    pub fn new(duration_us: Option<u64>) -> (t: ProgressTracker)
        ensures
            t.duration() == duration_us,
            t.last_reported() == (match duration_us {
                Some(_) => Some(0u8),
                None => None,
            }),
            t.kept_lines() == Seq::<Seq<char>>::empty(),
    {
        let last_percent = match duration_us {
            Some(_) => Some(0u8),
            None => None,
        };
        let t = ProgressTracker { duration_us, last_percent, stderr_lines: Vec::new() };
        assert(strings_view(t.stderr_lines@) == Seq::<Seq<char>>::empty());
        t
    }

    /// Takes one line of ffmpeg's error output; gives the percentage to
    /// report, if the line moves the progress to a new one.
    pub fn observe(&mut self, line: String) -> (r: Option<u8>)
        requires
            old(self).duration() is Some && is_progress_line(line@) ==> progress_line_fits(line@),
        ensures
            final(self).duration() == old(self).duration(),
            is_progress_line(line@) ==> {
                &&& final(self).kept_lines() == old(self).kept_lines()
                &&& r == (match progress_percent(line@, old(self).duration()) {
                    Some(p) => if old(self).last_reported() == Some(p) {
                        None
                    } else {
                        Some(p)
                    },
                    None => None,
                })
                &&& final(self).last_reported() == (if r is Some {
                    r
                } else {
                    old(self).last_reported()
                })
            },
            !is_progress_line(line@) ==> {
                &&& r is None
                &&& final(self).last_reported() == old(self).last_reported()
                &&& final(self).kept_lines() == (if is_blank(line@) {
                    old(self).kept_lines()
                } else {
                    old(self).kept_lines().push(line@)
                })
            },
            r matches Some(p) ==> old(self).last_reported() != Some(p) && p <= 99,
    {
        if is_ffmpeg_progress_line(line.as_str()) {
            if let Some(percent) = parse_ffmpeg_progress_percent(line.as_str(), self.duration_us) {
                let same = match self.last_percent {
                    Some(last) => last == percent,
                    None => false,
                };
                if !same {
                    self.last_percent = Some(percent);
                    return Some(percent);
                }
            }
            None
        } else {
            let chars = chars_of(line.as_str());
            if !blank(&chars) {
                let ghost before = self.stderr_lines@;
                self.stderr_lines.push(line);
                assert(strings_view(self.stderr_lines@) == strings_view(before).push(chars@));
            }
            None
        }
    }

    /// The non-progress lines, in the order they came.
    pub fn into_lines(self) -> (v: Vec<String>)
        ensures
            strings_view(v@) == self.kept_lines(),
    {
        self.stderr_lines
    }
}

} // verus!
