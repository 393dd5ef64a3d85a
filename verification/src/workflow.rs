use vstd::prelude::*;
use vstd::utf8::{decode_utf8, encode_utf8, valid_utf8};

use crate::audio::EncodingProgress;
use crate::cli::RawFormat;
use crate::device::{format_label, frames_to_seconds, DeviceError, PreparedUpload, RawUploadFormat};
use crate::text::{
    blank, chars_of, concat_chars, contains, contains_exec, decimal, decimal_chars, is_blank,
    is_ws, push_str, repeat_char, string_of, trim_end, trim_start,
};

verus! {

// ---------------------------------------------------------------------------
// Command-line values
// ---------------------------------------------------------------------------

/// The 0-based track index for a 1-based track number as `list` shows it.
pub fn track_number_to_index(track_number: u16) -> (r: Result<u16, DeviceError>)
    ensures
        track_number == 0 <==> r is Err,
        r matches Err(e) ==> e is TrackNumberZero,
        r matches Ok(i) ==> i + 1 == track_number,
{
    match track_number.checked_sub(1) {
        Some(i) => Ok(i),
        None => Err(DeviceError::TrackNumberZero),
    }
}

/// The upload format a command-line format names.
pub open spec fn format_of(format: RawFormat) -> RawUploadFormat {
    match format {
        RawFormat::Sp => RawUploadFormat::Sp,
        RawFormat::Lp2 => RawUploadFormat::Lp2,
        RawFormat::Lp105 => RawUploadFormat::Lp105,
        RawFormat::Lp4 => RawUploadFormat::Lp4,
    }
}

/// The upload format a command-line format names.
pub fn raw_upload_format(format: RawFormat) -> (r: RawUploadFormat)
    ensures
        r == format_of(format),
{
    match format {
        RawFormat::Sp => RawUploadFormat::Sp,
        RawFormat::Lp2 => RawUploadFormat::Lp2,
        RawFormat::Lp105 => RawUploadFormat::Lp105,
        RawFormat::Lp4 => RawUploadFormat::Lp4,
    }
}

// ---------------------------------------------------------------------------
// Titles from file names
// ---------------------------------------------------------------------------

/// `s` cut at each `c` (bytes).
pub open spec fn split_bytes(s: Seq<u8>, c: u8) -> Seq<Seq<u8>>
    decreases s.len(),
{
    if s.len() == 0 {
        seq![seq![]]
    } else {
        let init = split_bytes(s.drop_last(), c);
        if s.last() == c {
            init.push(seq![])
        } else {
            init.update(init.len() - 1, init.last().push(s.last()))
        }
    }
}

/// Whether a piece of a path between separators is dropped when the path is
/// taken apart into components: empty pieces and `.`.
pub open spec fn is_skipped_piece(piece: Seq<u8>) -> bool {
    piece.len() == 0 || piece == seq![46u8]
}

/// The last piece of a path that is a component.
pub open spec fn last_component(pieces: Seq<Seq<u8>>) -> Option<Seq<u8>>
    decreases pieces.len(),
{
    if pieces.len() == 0 {
        None
    } else if is_skipped_piece(pieces.last()) {
        last_component(pieces.drop_last())
    } else {
        Some(pieces.last())
    }
}

/// The file name of a Unix path, as `Path::file_name` gives it: its last
/// component, unless that is `..` or there is none.
pub open spec fn file_name(path: Seq<u8>) -> Option<Seq<u8>> {
    match last_component(split_bytes(path, 47u8)) {
        Some(name) => if name == seq![46u8, 46u8] {
            None
        } else {
            Some(name)
        },
        None => None,
    }
}

/// The position of the last `c` in `s`.
pub open spec fn last_index_of(s: Seq<u8>, c: u8) -> Option<int>
    decreases s.len(),
{
    if s.len() == 0 {
        None
    } else if s.last() == c {
        Some(s.len() - 1)
    } else {
        last_index_of(s.drop_last(), c)
    }
}

/// A file name without its extension, as `Path::file_stem` gives it: the
/// part before the last `.`, unless that part is empty.
pub open spec fn stem_of(name: Seq<u8>) -> Seq<u8> {
    match last_index_of(name, 46u8) {
        Some(i) => if i == 0 {
            name
        } else {
            name.take(i)
        },
        None => name,
    }
}

/// The title a file gives a track where none is given: its file stem, where
/// that is valid UTF-8 and not blank.
pub open spec fn fallback_title_text(path: Seq<u8>) -> Seq<char> {
    match file_name(path) {
        Some(name) => {
            let stem = stem_of(name);
            if valid_utf8(stem) && !is_blank(decode_utf8(stem)) {
                decode_utf8(stem)
            } else {
                "Untitled Track"@
            }
        },
        None => "Untitled Track"@,
    }
}

proof fn lemma_untitled_not_blank()
    ensures
        !is_blank("Untitled Track"@),
{
    reveal_strlit("Untitled Track");
    let u = "Untitled Track"@;
    assert(!is_ws(u[0]));
    assert(trim_start(u) == u);
    assert(!is_ws(u.last()));
    assert(trim_end(u) == u);
}

/// `std::str::from_utf8`: the text of the bytes where they are valid UTF-8.
/// Stated: it succeeds exactly on valid UTF-8, and then gives the decoding
/// (std's documentation; vstd's UTF-8 definitions).
#[verifier::external_body]
fn utf8_text(bytes: &[u8]) -> (r: Option<String>)
    ensures
        valid_utf8(bytes@) <==> r is Some,
        r matches Some(s) ==> s@ == decode_utf8(bytes@),
{
    match std::str::from_utf8(bytes) {
        Ok(s) => Some(s.to_string()),
        Err(_) => None,
    }
}

fn sub_bytes(v: &[u8], lo: usize, hi: usize) -> (r: Vec<u8>)
    requires
        lo <= hi <= v@.len(),
    ensures
        r@ == v@.subrange(lo as int, hi as int),
{
    let mut r: Vec<u8> = Vec::new();
    let mut i = lo;
    while i < hi
        invariant
            lo <= i <= hi <= v@.len(),
            r@ == v@.subrange(lo as int, i as int),
        decreases hi - i,
    {
        r.push(v[i]);
        i = i + 1;
        assert(v@.subrange(lo as int, i as int) == v@.subrange(lo as int, (i - 1) as int).push(
            v@[i - 1],
        ));
    }
    r
}

fn piece_skipped(path: &[u8], start: usize, end: usize) -> (r: bool)
    requires
        start <= end <= path@.len(),
    ensures
        r == is_skipped_piece(path@.subrange(start as int, end as int)),
{
    let ghost piece = path@.subrange(start as int, end as int);
    let len = end - start;
    let r = len == 0 || (len == 1 && path[start] == 46u8);
    proof {
        assert(piece.len() == len);
        if len == 1 {
            assert(piece[0] == path@[start as int]);
            if path@[start as int] == 46u8 {
                assert(piece =~= seq![46u8]);
            }
        }
        if piece == seq![46u8] {
            assert(piece.len() == 1);
            assert(piece[0] == 46u8);
        }
    }
    r
}

/// The bounds of the last component of a path, if any.
fn last_component_bounds(path: &[u8]) -> (r: Option<(usize, usize)>)
    ensures
        match r {
            Some((a, b)) => a <= b <= path@.len() && last_component(split_bytes(path@, 47u8))
                == Some(path@.subrange(a as int, b as int)),
            None => last_component(split_bytes(path@, 47u8)) is None,
        },
{
    let mut last: Option<(usize, usize)> = None;
    let ghost mut done: Seq<Seq<u8>> = seq![];
    let mut start: usize = 0;
    let mut i: usize = 0;
    assert(path@.take(0) == Seq::<u8>::empty());
    assert(path@.subrange(0, 0) == Seq::<u8>::empty());
    while i < path.len()
        invariant
            start <= i <= path@.len(),
            split_bytes(path@.take(i as int), 47u8) == done.push(
                path@.subrange(start as int, i as int),
            ),
            match last {
                Some((a, b)) => a <= b <= path@.len() && last_component(done) == Some(
                    path@.subrange(a as int, b as int),
                ),
                None => last_component(done) is None,
            },
        decreases path@.len() - i,
    {
        assert(path@.take(i + 1).drop_last() == path@.take(i as int));
        if path[i] == 47u8 {
            let skipped = piece_skipped(path, start, i);
            let ghost piece = path@.subrange(start as int, i as int);
            proof {
                assert(done.push(piece).drop_last() == done);
                assert(path@.subrange((i + 1) as int, (i + 1) as int) == Seq::<u8>::empty());
                done = done.push(piece);
            }
            if !skipped {
                last = Some((start, i));
            }
            start = i + 1;
        } else {
            assert(path@.subrange(start as int, (i + 1) as int) == path@.subrange(
                start as int,
                i as int,
            ).push(path@[i as int]));
        }
        i = i + 1;
    }
    let skipped = piece_skipped(path, start, path.len());
    let ghost piece = path@.subrange(start as int, path@.len() as int);
    proof {
        assert(path@.take(path@.len() as int) == path@);
        assert(done.push(piece).drop_last() == done);
    }
    if !skipped {
        last = Some((start, path.len()));
    }
    last
}

fn last_dot(name: &Vec<u8>) -> (r: Option<usize>)
    ensures
        match r {
            Some(i) => i < name@.len() && last_index_of(name@, 46u8) == Some(i as int),
            None => last_index_of(name@, 46u8) is None,
        },
{
    let mut i = name.len();
    assert(name@.take(i as int) == name@);
    while i > 0
        invariant
            i <= name@.len(),
            last_index_of(name@, 46u8) == last_index_of(name@.take(i as int), 46u8),
        decreases i,
    {
        assert(name@.take(i as int).drop_last() == name@.take(i - 1));
        if name[i - 1] == 46u8 {
            return Some(i - 1);
        }
        i = i - 1;
    }
    None
}

/// The title a file gives a track where none is given; `path` is the path's
/// bytes.
pub fn fallback_title(path: &[u8]) -> (r: String)
    ensures
        r@ == fallback_title_text(path@),
        !is_blank(r@),
{
    proof {
        lemma_untitled_not_blank();
    }
    let untitled = string_of(&chars_of("Untitled Track"));
    let (a, b) = match last_component_bounds(path) {
        Some(bounds) => bounds,
        None => return untitled,
    };
    let name = sub_bytes(path, a, b);
    if name.len() == 2 && name[0] == 46u8 && name[1] == 46u8 {
        assert(name@ == seq![46u8, 46u8]);
        return untitled;
    }
    assert(name@ != seq![46u8, 46u8]) by {
        if name@ == seq![46u8, 46u8] {
            assert(name@.len() == 2);
        }
    }
    let stem = match last_dot(&name) {
        Some(i) => {
            if i == 0 {
                name
            } else {
                let s = sub_bytes(name.as_slice(), 0, i);
                assert(s@ == name@.take(i as int));
                s
            }
        },
        None => name,
    };
    match utf8_text(stem.as_slice()) {
        Some(text) => {
            if blank(&chars_of(text.as_str())) {
                untitled
            } else {
                text
            }
        },
        None => untitled,
    }
}

// ---------------------------------------------------------------------------
// Messages
// ---------------------------------------------------------------------------

/// Whether a failed upload deserves the hint to retry in LP105: an LP2
/// upload that the deck refused at the track reservation.
pub open spec fn needs_lp105_hint(format: RawUploadFormat, message: Seq<char>) -> bool {
    &&& format == RawUploadFormat::Lp2
    &&& contains(message, "send track failed"@)
    &&& contains(message, "the device rejected the message"@)
    &&& contains(message, " 94, 02, "@)
}

/// The hint shown after a failed upload with the given error message.
pub fn upload_failure_hint(format: RawUploadFormat, message: &str) -> (r: Option<&'static str>)
    ensures
        r is Some <==> needs_lp105_hint(format, message@),
        r matches Some(h) ==> h@
            == "Hint: this deck rejected the normal LP2 reservation. Retry with `--format lp105`."@,
{
    let m = chars_of(message);
    if format == RawUploadFormat::Lp2 && contains_exec(&m, &chars_of("send track failed"))
        && contains_exec(&m, &chars_of("the device rejected the message")) && contains_exec(
        &m,
        &chars_of(" 94, 02, "),
    ) {
        Some("Hint: this deck rejected the normal LP2 reservation. Retry with `--format lp105`.")
    } else {
        None
    }
}

/// What is shown about a prepared upload: its format, length and size, and
/// the padding where there is some.
pub open spec fn upload_summary(format: RawUploadFormat, frame_count: nat, bytes: nat, padded: nat) -> Seq<
    Seq<char>,
> {
    seq![
        "Prepared "@ + format_label(format) + " upload: about "@ + decimal(
            frames_to_seconds(frame_count),
        ) + "s, "@ + decimal(bytes) + " bytes"@,
    ] + if padded > 0 {
        seq!["Padded final NetMD frame with "@ + decimal(padded) + " bytes of silence"@]
    } else {
        seq![]
    }
}

/// What is shown about a prepared upload, line by line.
pub fn upload_summary_lines(request: &PreparedUpload) -> (lines: Vec<String>)
    requires
        request.frame_count * 512 <= u64::MAX,
    ensures
        lines@.map_values(|s: String| s@) == upload_summary(
            request.format,
            request.frame_count as nat,
            request.data@.len(),
            request.padded_bytes as nat,
        ),
{
    let mut first = chars_of("Prepared ");
    first = concat_chars(&first, &chars_of(request.format.label()));
    first = concat_chars(&first, &chars_of(" upload: about "));
    first = concat_chars(&first, &decimal_chars(request.estimated_duration_seconds()));
    first = concat_chars(&first, &chars_of("s, "));
    first = concat_chars(&first, &decimal_chars(request.data.len() as u64));
    first = concat_chars(&first, &chars_of(" bytes"));
    let mut lines: Vec<String> = Vec::new();
    lines.push(string_of(&first));
    if request.padded_bytes > 0 {
        let mut second = chars_of("Padded final NetMD frame with ");
        second = concat_chars(&second, &decimal_chars(request.padded_bytes as u64));
        second = concat_chars(&second, &chars_of(" bytes of silence"));
        lines.push(string_of(&second));
    }
    assert(lines@.map_values(|s: String| s@) =~= upload_summary(
        request.format,
        request.frame_count as nat,
        request.data@.len(),
        request.padded_bytes as nat,
    ));
    lines
}

// ---------------------------------------------------------------------------
// Encoder progress on one terminal line
// ---------------------------------------------------------------------------

/// The length of a text in UTF-8 bytes, as `str::len` counts it.
pub open spec fn byte_len(s: Seq<char>) -> usize {
    encode_utf8(s).len() as usize
}

/// The progress line for one report.
pub open spec fn progress_text(prefix: Seq<char>, encoder: Seq<char>, percent: Option<u8>) -> Seq<
    char,
> {
    prefix + " with "@ + encoder + ": "@ + match percent {
        Some(p) => decimal(p as nat) + "%"@,
        None => "running"@,
    }
}

/// Writes encoder progress over itself on one terminal line.
pub struct EncodingProgressPrinter {
    prefix: String,
    last_len: usize,
}

impl EncodingProgressPrinter {
    /// The text that starts each progress line.
    pub closed spec fn prefix(&self) -> Seq<char> {
        self.prefix@
    }

    /// The byte length of the last line written (0 before any).
    pub closed spec fn last_len(&self) -> nat {
        self.last_len as nat
    }

    /// A printer that has written nothing yet.
    pub fn new(prefix: String) -> (p: EncodingProgressPrinter)
        ensures
            p.prefix() == prefix@,
            p.last_len() == 0,
    {
        EncodingProgressPrinter { prefix, last_len: 0 }
    }

    /// The text to write for one report: a carriage return, the line, and
    /// spaces over what is left of a longer previous line.
    pub fn report(&mut self, progress: EncodingProgress) -> (out: String)
        ensures
            final(self).prefix() == old(self).prefix(),
            ({
                let line = progress_text(old(self).prefix(), progress.encoder@, progress.percent);
                let padding = if old(self).last_len() > byte_len(line) {
                    (old(self).last_len() - byte_len(line)) as nat
                } else {
                    0
                };
                &&& out@ == "\r"@ + line + repeat_char(' ', padding)
                &&& final(self).last_len() == byte_len(line)
            }),
    {
        let mut line = concat_chars(&chars_of(self.prefix.as_str()), &chars_of(" with "));
        line = concat_chars(&line, &chars_of(progress.encoder));
        line = concat_chars(&line, &chars_of(": "));
        let value = match progress.percent {
            Some(percent) => concat_chars(&decimal_chars(percent as u64), &chars_of("%")),
            None => chars_of("running"),
        };
        line = concat_chars(&line, &value);
        let text = string_of(&line);
        let len = text.as_str().len();
        let padding = if self.last_len > len {
            self.last_len - len
        } else {
            0
        };
        let mut out = string_of(&chars_of("\r"));
        push_str(&mut out, text.as_str());
        let mut k: usize = 0;
        let ghost before = out@;
        while k < padding
            invariant
                k <= padding,
                out@ == before + repeat_char(' ', k as nat),
            decreases padding - k,
        {
            crate::text::push_char(&mut out, ' ');
            k = k + 1;
            assert(out@ == before + repeat_char(' ', k as nat));
        }
        self.last_len = len;
        out
    }

    /// Whether the progress line needs ending with a newline; afterwards the
    /// printer counts as having written nothing.
    pub fn finish(&mut self) -> (newline: bool)
        ensures
            newline == (old(self).last_len() > 0),
            final(self).last_len() == 0,
            final(self).prefix() == old(self).prefix(),
    {
        if self.last_len > 0 {
            self.last_len = 0;
            true
        } else {
            false
        }
    }
}

// ---------------------------------------------------------------------------
// Uploading a playlist
// ---------------------------------------------------------------------------

/// One step of a playlist upload once its tracks are prepared.
#[derive(Clone, Copy, Debug, PartialEq, Eq, Structural)]
pub enum PlannedStep {
    Erase,
    Rename,
    Upload(usize),
    Group(u16),
    Show,
    TooManyTracks,
}

/// What the program does next in a playlist upload.
#[derive(Clone, Copy, Debug, PartialEq, Eq, Structural)]
pub enum M3uAction {
    EraseDisc,
    RenameDisc,
    Upload { position: usize },
    CreateGroup { start_track_index: u16, track_count: u16 },
    ShowDisc,
    Finish,
    Abort(M3uAbort),
}

/// Why a playlist upload stops early.
#[derive(Clone, Copy, Debug, PartialEq, Eq, Structural)]
pub enum M3uAbort {
    StepFailed,
    TooManyTracks,
    NothingToGroup,
}

/// How the last action went.
#[derive(Clone, Copy, Debug, PartialEq, Eq, Structural)]
pub enum M3uEvent {
    Done,
    Uploaded { track_index: u16 },
    Failed,
}

/// The uploads of `count` prepared tracks, in playlist order.
pub open spec fn upload_steps(count: nat) -> Seq<PlannedStep> {
    Seq::new(count, |i: int| PlannedStep::Upload(i as usize))
}

/// The steps of a playlist upload of `total` prepared tracks: erase the disc
/// where asked; write the playlist title to the disc unless the tracks go
/// into a group; then, where the count fits a group, upload the tracks in
/// order, group them where asked, and show the disc.
pub open spec fn m3u_plan(erase_first: bool, group: bool, total: nat) -> Seq<PlannedStep> {
    (if erase_first {
        seq![PlannedStep::Erase]
    } else {
        seq![]
    }) + (if !group {
        seq![PlannedStep::Rename]
    } else {
        seq![]
    }) + if total > u16::MAX {
        seq![PlannedStep::TooManyTracks]
    } else {
        upload_steps(total) + (if group {
            seq![PlannedStep::Group(total as u16)]
        } else {
            seq![]
        }) + seq![PlannedStep::Show]
    }
}

/// Whether a step talks to the device, so that its failure ends the upload.
pub open spec fn is_device_step(step: PlannedStep) -> bool {
    match step {
        PlannedStep::Erase | PlannedStep::Rename | PlannedStep::Upload(_) | PlannedStep::Group(
            _,
        ) => true,
        _ => false,
    }
}

/// The action for a planned step, given the first uploaded track.
pub open spec fn action_for(step: PlannedStep, first: Option<u16>) -> M3uAction {
    match step {
        PlannedStep::Erase => M3uAction::EraseDisc,
        PlannedStep::Rename => M3uAction::RenameDisc,
        PlannedStep::Upload(i) => M3uAction::Upload { position: i },
        PlannedStep::Group(count) => match first {
            Some(start) => M3uAction::CreateGroup { start_track_index: start, track_count: count },
            None => M3uAction::Abort(M3uAbort::NothingToGroup),
        },
        PlannedStep::Show => M3uAction::ShowDisc,
        PlannedStep::TooManyTracks => M3uAction::Abort(M3uAbort::TooManyTracks),
    }
}

fn action_for_exec(step: PlannedStep, first: Option<u16>) -> (a: M3uAction)
    ensures
        a == action_for(step, first),
{
    match step {
        PlannedStep::Erase => M3uAction::EraseDisc,
        PlannedStep::Rename => M3uAction::RenameDisc,
        PlannedStep::Upload(i) => M3uAction::Upload { position: i },
        PlannedStep::Group(count) => match first {
            Some(start) => M3uAction::CreateGroup { start_track_index: start, track_count: count },
            None => M3uAction::Abort(M3uAbort::NothingToGroup),
        },
        PlannedStep::Show => M3uAction::ShowDisc,
        PlannedStep::TooManyTracks => M3uAction::Abort(M3uAbort::TooManyTracks),
    }
}

/// The decisions of a playlist upload: which step comes next, given how the
/// last one went.
pub struct M3uSession {
    plan: Vec<PlannedStep>,
    cursor: usize,
    first_uploaded: Option<u16>,
    over: bool,
}

impl M3uSession {
    /// The planned steps.
    pub closed spec fn plan(&self) -> Seq<PlannedStep> {
        self.plan@
    }

    /// The position of the step in progress.
    pub closed spec fn cursor(&self) -> nat {
        self.cursor as nat
    }

    /// The track index of the first upload, once there is one.
    pub closed spec fn first_uploaded(&self) -> Option<u16> {
        self.first_uploaded
    }

    /// Whether the upload has finished or stopped.
    pub closed spec fn is_over(&self) -> bool {
        self.over
    }

    /// The session's own consistency: a step is in progress until it is over.
    pub closed spec fn wf(&self) -> bool {
        self.over || self.cursor < self.plan@.len()
    }

    /// A session for `total` prepared tracks, before its first step.
    pub fn new(erase_first: bool, group: bool, total: usize) -> (s: M3uSession)
        ensures
            s.wf(),
            !s.is_over(),
            s.plan() == m3u_plan(erase_first, group, total as nat),
            s.cursor() == 0,
            s.first_uploaded() is None,
    {
        let mut plan: Vec<PlannedStep> = Vec::new();
        if erase_first {
            plan.push(PlannedStep::Erase);
        }
        if !group {
            plan.push(PlannedStep::Rename);
        }
        let ghost head = plan@;
        assert(head == (if erase_first {
            seq![PlannedStep::Erase]
        } else {
            seq![]
        }) + (if !group {
            seq![PlannedStep::Rename]
        } else {
            seq![]
        }));
        if total > 0xffff {
            plan.push(PlannedStep::TooManyTracks);
        } else {
            let mut i: usize = 0;
            while i < total
                invariant
                    i <= total <= 0xffff,
                    plan@ == head + upload_steps(i as nat),
                decreases total - i,
            {
                plan.push(PlannedStep::Upload(i));
                i = i + 1;
                assert(upload_steps(i as nat) == upload_steps((i - 1) as nat).push(
                    PlannedStep::Upload((i - 1) as usize),
                ));
            }
            if group {
                plan.push(PlannedStep::Group(total as u16));
            }
            plan.push(PlannedStep::Show);
        }
        assert(plan@ == m3u_plan(erase_first, group, total as nat));
        M3uSession { plan, cursor: 0, first_uploaded: None, over: false }
    }

    /// The first action.
    pub fn start(&mut self) -> (a: M3uAction)
        requires
            old(self).wf(),
            !old(self).is_over(),
            old(self).cursor() == 0,
            old(self).first_uploaded() is None,
        ensures
            final(self).wf(),
            final(self).plan() == old(self).plan(),
            final(self).cursor() == 0,
            final(self).first_uploaded() is None,
            a == action_for(old(self).plan()[0], None),
            final(self).is_over() <==> a is Abort,
    {
        let a = action_for_exec(self.plan[0], None);
        if let M3uAction::Abort(_) = a {
            self.over = true;
        }
        a
    }

    /// The next action, given how the step in progress went. A failed disc
    /// operation stops the upload; a failed refresh at the end does not.
    pub fn advance(&mut self, event: M3uEvent) -> (a: M3uAction)
        requires
            old(self).wf(),
            !old(self).is_over(),
        ensures
            final(self).wf(),
            final(self).plan() == old(self).plan(),
            ({
                let step = old(self).plan()[old(self).cursor() as int];
                (event == M3uEvent::Failed && (step == PlannedStep::Erase || step
                    == PlannedStep::Rename || step is Upload || step is Group)) ==> (a
                    == M3uAction::Abort(M3uAbort::StepFailed) && final(self).is_over())
            }),
            ({
                let step = old(self).plan()[old(self).cursor() as int];
                let first = match (event, step) {
                    (M3uEvent::Uploaded { track_index }, PlannedStep::Upload(_)) => match old(
                        self,
                    ).first_uploaded() {
                        Some(f) => Some(f),
                        None => Some(track_index),
                    },
                    _ => old(self).first_uploaded(),
                };
                if event == M3uEvent::Failed && is_device_step(step) {
                    &&& a == M3uAction::Abort(M3uAbort::StepFailed)
                    &&& final(self).is_over()
                } else if old(self).cursor() + 1 == old(self).plan().len() {
                    &&& a == M3uAction::Finish
                    &&& final(self).is_over()
                } else {
                    &&& a == action_for(old(self).plan()[old(self).cursor() + 1int], first)
                    &&& final(self).cursor() == old(self).cursor() + 1
                    &&& final(self).first_uploaded() == first
                    &&& final(self).is_over() <==> a is Abort
                }
            }),
    {
        let step = self.plan[self.cursor];
        let device_step = match step {
            PlannedStep::Erase | PlannedStep::Rename | PlannedStep::Upload(_) | PlannedStep::Group(
                _,
            ) => true,
            _ => false,
        };
        if event == M3uEvent::Failed && device_step {
            self.over = true;
            return M3uAction::Abort(M3uAbort::StepFailed);
        }
        if let (M3uEvent::Uploaded { track_index }, PlannedStep::Upload(_)) = (event, step) {
            if self.first_uploaded.is_none() {
                self.first_uploaded = Some(track_index);
            }
        }
        let n = self.plan.len();
        assert(self.cursor < n);
        if self.cursor + 1 == n {
            self.over = true;
            return M3uAction::Finish;
        }
        self.cursor = self.cursor + 1;
        let a = action_for_exec(self.plan[self.cursor], self.first_uploaded);
        if let M3uAction::Abort(_) = a {
            self.over = true;
        }
        a
    }
}

/// The plan of a playlist upload keeps the order the documentation gives:
/// erasing comes first where asked, the disc is renamed exactly when no
/// group is made, the tracks are uploaded once each in playlist order, a
/// group is made of all of them where asked, and the disc is shown last.
pub proof fn lemma_m3u_plan_order(erase_first: bool, group: bool, total: nat)
    requires
        total <= u16::MAX,
    ensures
        ({
            let plan = m3u_plan(erase_first, group, total);
            let head = (if erase_first {
                1int
            } else {
                0int
            }) + (if group {
                0int
            } else {
                1int
            });
            &&& erase_first <==> plan[0] == PlannedStep::Erase
            &&& (!group <==> plan.contains(PlannedStep::Rename))
            &&& forall|i: int|
                head <= i < head + total ==> #[trigger] plan[i] == PlannedStep::Upload(
                    (i - head) as usize,
                )
            &&& group ==> plan[plan.len() - 2] == PlannedStep::Group(total as u16)
            &&& plan.last() == PlannedStep::Show
            &&& plan.len() == head + total + (if group {
                1int
            } else {
                0int
            }) + 1
        }),
{
    let plan = m3u_plan(erase_first, group, total);
    let head = (if erase_first {
        1int
    } else {
        0int
    }) + (if group {
        0int
    } else {
        1int
    });
    if !group {
        assert(plan[head - 1] == PlannedStep::Rename);
    } else {
        assert forall|i: int| 0 <= i < plan.len() implies plan[i] != PlannedStep::Rename by {}
    }
    if !erase_first {
        assert(plan[0] != PlannedStep::Erase);
    }
}

/// The steps whose failure ends a playlist upload are exactly those that
/// write to the disc: erasing, renaming, uploading and grouping; showing the
/// disc at the end and the refusal of too many tracks are not.
pub proof fn lemma_device_steps(step: PlannedStep)
    ensures
        is_device_step(step) <==> (step == PlannedStep::Erase || step == PlannedStep::Rename
            || step is Upload || step is Group),
{
}

} // verus!
