use vstd::prelude::*;

verus! {

/// The wire formats a prepared upload can have.
#[derive(Clone, Copy, Debug, PartialEq, Eq, Structural)]
pub enum RawUploadFormat {
    Sp,
    Lp2,
    Lp105,
    Lp4,
}

/// The playback commands a device accepts.
#[derive(Clone, Copy, Debug, PartialEq, Eq, Structural)]
pub enum PlaybackCommand {
    Play,
    Pause,
    Stop,
    Next,
    Previous,
}

/// What a device reports about itself and its disc.
#[derive(Debug, Clone)]
pub struct DeviceSnapshot {
    pub device_name: String,
    pub vendor_id: u16,
    pub product_id: u16,
    pub recording_parameters: Option<Vec<u8>>,
    pub disc: Disc,
}

/// One supported USB device as the device list shows it: its 1-based
/// number, USB ids, the strings it reports, and where it sits on the bus
/// where that is known.
#[derive(Debug, Clone)]
pub struct DeviceListing {
    pub index: usize,
    pub vendor_id: u16,
    pub product_id: u16,
    pub manufacturer: Option<String>,
    pub product: Option<String>,
    pub serial_number: Option<String>,
    pub usb_bus: Option<u8>,
    pub usb_address: Option<u8>,
    pub sysfs_path: Option<String>,
}

/// The inserted disc.
#[derive(Debug, Clone)]
pub struct Disc {
    pub title: String,
    pub full_width_title: String,
    pub writable: bool,
    pub write_protected: bool,
    pub used_seconds: Option<u64>,
    pub left_seconds: Option<u64>,
    pub total_seconds: Option<u64>,
    pub track_count: usize,
    pub groups: Vec<Group>,
}

/// A group of tracks on the disc; the group without a title holds the
/// ungrouped tracks.
#[derive(Debug, Clone)]
pub struct Group {
    pub index: i32,
    pub title: Option<String>,
    pub full_width_title: Option<String>,
    pub tracks: Vec<Track>,
}

/// One track on the disc; `index` is 0-based.
#[derive(Debug, Clone)]
pub struct Track {
    pub index: u16,
    pub title: Option<String>,
    pub duration_seconds: Option<u64>,
    pub channels: Option<u8>,
    pub codec: Option<String>,
    pub protected: Option<String>,
}

/// Audio bytes to be written as one track.
#[derive(Debug, Clone)]
pub struct UploadRequest {
    pub title: String,
    pub format: RawUploadFormat,
    pub data: Vec<u8>,
}

/// Audio bytes padded to whole frames of their format.
#[derive(Debug, Clone)]
pub struct PreparedUpload {
    pub title: String,
    pub format: RawUploadFormat,
    pub data: Vec<u8>,
    pub padded_bytes: usize,
    pub frame_count: u64,
}

/// Why an upload request cannot be prepared.
#[derive(Debug, Clone, PartialEq, Eq, Structural)]
pub enum UploadDataError {
    Empty,
}

/// Where an uploaded track landed (0-based).
#[derive(Debug, Clone)]
pub struct UploadResult {
    pub track_index: u16,
}

/// Why a device operation failed.
#[derive(Debug, Clone)]
pub enum DeviceError {
    NotFound,
    MultipleDevices { count: usize },
    DeviceIndexZero,
    DeviceIndexOutOfRange { requested: usize, count: usize },
    Open(String),
    ListContent(String),
    NotWritable,
    WriteProtected,
    InsufficientCapacity { needed_seconds: u64, left_seconds: u64 },
    Upload(String),
    RenameDisc(String),
    TrackNumberZero,
    TrackNumberOutOfRange { track_number: u16, track_count: u16 },
    RenameTrack(String),
    DeleteTrack(String),
    EraseDisc(String),
    CreateGroup(String),
    EmptyGroup,
    Playback(String),
}

/// Bytes per frame of each format.
pub open spec fn frame_bytes(format: RawUploadFormat) -> nat {
    match format {
        RawUploadFormat::Sp => 2048,
        RawUploadFormat::Lp2 => 192,
        RawUploadFormat::Lp105 => 152,
        RawUploadFormat::Lp4 => 96,
    }
}

/// The name of each format.
pub open spec fn format_label(format: RawUploadFormat) -> Seq<char> {
    match format {
        RawUploadFormat::Sp => "SP"@,
        RawUploadFormat::Lp2 => "LP2"@,
        RawUploadFormat::Lp105 => "LP105"@,
        RawUploadFormat::Lp4 => "LP4"@,
    }
}

/// `a / b` rounded up.
pub open spec fn ceil_div(a: nat, b: nat) -> nat
    recommends
        b > 0,
{
    (a + b - 1) as nat / b
}

/// Seconds of audio in `frames` sound frames of 512 samples at 44.1 kHz,
/// rounded up.
pub open spec fn frames_to_seconds(frames: nat) -> nat {
    ceil_div(frames * 512, 44_100)
}

/// MiniDisc time frames (512 per second) that `frames` sound frames take,
/// rounded up.
pub open spec fn frames_to_md_time(frames: nat) -> nat {
    ceil_div(frames * 512 * 512, 44_100)
}

/// Seconds in `md_frames` MiniDisc time frames, rounded up.
pub open spec fn md_time_to_seconds(md_frames: nat) -> nat {
    ceil_div(md_frames, 512)
}

/// The bytes of padding that bring `len` to a whole number of frames of
/// `size` bytes.
pub open spec fn padding_for(len: nat, size: nat) -> nat
    recommends
        size > 0,
{
    if len % size == 0 {
        0
    } else {
        (size - len % size) as nat
    }
}

impl RawUploadFormat {
    /// Bytes per frame of this format.
    pub fn frame_size(self) -> (n: usize)
        ensures
            n == frame_bytes(self),
    {
        match self {
            RawUploadFormat::Sp => 2048,
            RawUploadFormat::Lp2 => 192,
            RawUploadFormat::Lp105 => 152,
            RawUploadFormat::Lp4 => 96,
        }
    }

    /// The name of this format.
    pub fn label(self) -> (s: &'static str)
        ensures
            s@ == format_label(self),
    {
        match self {
            RawUploadFormat::Sp => "SP",
            RawUploadFormat::Lp2 => "LP2",
            RawUploadFormat::Lp105 => "LP105",
            RawUploadFormat::Lp4 => "LP4",
        }
    }
}

fn ceil_div_u64(a: u64, b: u64) -> (r: u64)
    requires
        b > 0,
    ensures
        r == ceil_div(a as nat, b as nat),
{
    let q = a / b;
    let r = a % b;
    proof {
        let n = a as int;
        let d = b as int;
        assert(n == d * (n / d) + n % d && 0 <= n % d < d) by (nonlinear_arith)
            requires
                d > 0,
        ;
        lemma_ceil_div_by_parts(n, d);
    }
    if r == 0 {
        q
    } else {
        assert(q + 1 <= u64::MAX) by (nonlinear_arith)
            requires
                a as int == b as int * q as int + r as int,
                0 < r < b,
        ;
        q + 1
    }
}

proof fn lemma_ceil_div_by_parts(n: int, d: int)
    requires
        n >= 0,
        d > 0,
    ensures
        ceil_div(n as nat, d as nat) == n / d + (if n % d == 0 {
            0int
        } else {
            1int
        }),
{
    let q = n / d;
    let r = n % d;
    assert(n == d * q + r && 0 <= r < d) by (nonlinear_arith)
        requires
            d > 0,
            q == n / d,
            r == n % d,
    ;
    let m = n + d - 1;
    if r == 0 {
        assert(m == d * q + (d - 1));
        assert(m / d == q) by (nonlinear_arith)
            requires
                m == d * q + (d - 1),
                d > 0,
        ;
    } else {
        assert(m == d * (q + 1) + (r - 1)) by (nonlinear_arith)
            requires
                n == d * q + r,
                m == n + d - 1,
        ;
        assert(m / d == q + 1) by (nonlinear_arith)
            requires
                m == d * (q + 1) + (r - 1),
                0 <= r - 1 < d,
                d > 0,
        ;
    }
}

/// Seconds of audio in `frames` sound frames.
pub fn audio_frames_to_seconds(frames: u64) -> (s: u64)
    requires
        frames * 512 <= u64::MAX,
    ensures
        s == frames_to_seconds(frames as nat),
{
    ceil_div_u64(frames * 512, 44_100)
}

/// MiniDisc time frames that `frames` sound frames take.
pub fn audio_frames_to_md_time_frames(frames: u64) -> (t: u64)
    requires
        frames * 512 * 512 <= u64::MAX,
    ensures
        t == frames_to_md_time(frames as nat),
{
    ceil_div_u64(frames * 512 * 512, 44_100)
}

/// Seconds in `frames` MiniDisc time frames.
pub fn md_time_frames_to_seconds(frames: u64) -> (s: u64)
    ensures
        s == md_time_to_seconds(frames as nat),
{
    ceil_div_u64(frames, 512)
}

impl UploadRequest {
    /// Pads the audio with zero bytes to a whole number of frames; refuses
    /// empty audio.
    pub fn prepare(self) -> (r: Result<PreparedUpload, UploadDataError>)
        requires
            self.data@.len() + 2048 <= usize::MAX,
        ensures
            self.data@.len() == 0 <==> r is Err,
            r matches Err(e) ==> e == UploadDataError::Empty,
            r matches Ok(p) ==> {
                &&& p.title == self.title
                &&& p.format == self.format
                &&& p.padded_bytes == padding_for(
                    self.data@.len(),
                    frame_bytes(self.format),
                )
                &&& p.data@ == self.data@ + Seq::new(p.padded_bytes as nat, |_i: int| 0u8)
                &&& p.data@.len() % frame_bytes(self.format) == 0
                &&& p.frame_count == p.data@.len() / frame_bytes(self.format)
            },
    {
        let mut data = self.data;
        if data.len() == 0 {
            return Err(UploadDataError::Empty);
        }
        let frame_size = self.format.frame_size();
        let remainder = data.len() % frame_size;
        let padded_bytes = if remainder == 0 {
            0
        } else {
            frame_size - remainder
        };
        let ghost unpadded = data@;
        let mut added: usize = 0;
        while added < padded_bytes
            invariant
                added <= padded_bytes < frame_size,
                unpadded.len() + 2048 <= usize::MAX,
                frame_size <= 2048,
                data@ == unpadded + Seq::new(added as nat, |_i: int| 0u8),
            decreases padded_bytes - added,
        {
            data.push(0u8);
            added = added + 1;
            assert(data@ == unpadded + Seq::new(added as nat, |_i: int| 0u8));
        }
        proof {
            let n = unpadded.len() as int;
            let f = frame_size as int;
            assert((n + padded_bytes) % f == 0) by (nonlinear_arith)
                requires
                    f > 0,
                    remainder == n % f,
                    padded_bytes == (if remainder == 0 {
                        0
                    } else {
                        f - remainder
                    }),
            {
                assert(n == f * (n / f) + n % f);
                if n % f != 0 {
                    assert(n + (f - n % f) == f * (n / f + 1));
                }
            }
        }
        let frame_count = (data.len() / frame_size) as u64;
        Ok(PreparedUpload { title: self.title, format: self.format, data, padded_bytes, frame_count })
    }
}

impl PreparedUpload {
    /// Seconds of audio in this upload.
    pub fn estimated_duration_seconds(&self) -> (s: u64)
        requires
            self.frame_count * 512 <= u64::MAX,
        ensures
            s == frames_to_seconds(self.frame_count as nat),
    {
        audio_frames_to_seconds(self.frame_count)
    }

    /// MiniDisc time frames this upload needs on the disc.
    pub fn required_md_time_frames(&self) -> (t: u64)
        requires
            self.frame_count * 512 * 512 <= u64::MAX,
        ensures
            t == frames_to_md_time(self.frame_count as nat),
    {
        audio_frames_to_md_time_frames(self.frame_count)
    }
}

/// Counting the disc time an upload needs and turning it into seconds gives
/// the upload's own duration in seconds: the two roundings agree.
pub proof fn lemma_md_time_seconds_agree(frames: nat)
    ensures
        md_time_to_seconds(frames_to_md_time(frames)) == frames_to_seconds(frames),
{
    let x = (frames * 512) as int;
    let q = frames_to_seconds(frames) as int;
    let c = frames_to_md_time(frames) as int;
    lemma_ceil_div_bounds(x, 44_100);
    lemma_ceil_div_bounds(512 * x, 44_100);
    lemma_ceil_div_bounds(c, 512);
    assert(frames * 512 * 512 == 512 * x);
    // q is the least integer with 44100 q >= x, c the least with 44100 c >= 512 x.
    assert(44_100 * (512 * q) >= 512 * x) by (nonlinear_arith)
        requires
            44_100 * q >= x,
    ;
    assert(c <= 512 * q);
    if q > 0 {
        assert(44_100 * (512 * (q - 1)) < 512 * x) by (nonlinear_arith)
            requires
                44_100 * (q - 1) < x,
        ;
        assert(c > 512 * (q - 1)) by (nonlinear_arith)
            requires
                44_100 * c >= 512 * x,
                44_100 * (512 * (q - 1)) < 512 * x,
        ;
    }
    let s = md_time_to_seconds(c as nat) as int;
    // s is the least integer with 512 s >= c.
    assert(512 * q >= c);
    if s < q {
        assert(512 * s <= 512 * (q - 1));
        assert(false);
    }
    if s > q {
        assert(s - 1 >= q);
        assert(512 * (s - 1) >= 512 * q);
        assert(false);
    }
}

/// `ceil_div(n, d)` is the least `q` with `d q >= n`.
proof fn lemma_ceil_div_bounds(n: int, d: int)
    requires
        n >= 0,
        d > 0,
    ensures
        d * ceil_div(n as nat, d as nat) >= n,
        ceil_div(n as nat, d as nat) > 0 ==> d * (ceil_div(n as nat, d as nat) - 1) < n,
        n > 0 ==> ceil_div(n as nat, d as nat) > 0,
{
    lemma_ceil_div_by_parts(n, d);
    let q = n / d;
    let r = n % d;
    assert(n == d * q + r && 0 <= r < d && q >= 0) by (nonlinear_arith)
        requires
            d > 0,
            n >= 0,
            q == n / d,
            r == n % d,
    ;
    if r == 0 {
        assert(d * (q - 1) == d * q - d) by (nonlinear_arith);
        assert(n > 0 ==> q > 0) by (nonlinear_arith)
            requires
                n == d * q,
                d > 0,
        ;
    } else {
        assert(d * (q + 1) == d * q + d) by (nonlinear_arith);
    }
}

/// More sound frames never take fewer seconds or disc time frames.
pub proof fn lemma_frame_conversions_monotonic(a: nat, b: nat)
    requires
        a <= b,
    ensures
        frames_to_seconds(a) <= frames_to_seconds(b),
        frames_to_md_time(a) <= frames_to_md_time(b),
{
    lemma_ceil_div_monotonic(a * 512, b * 512, 44_100);
    lemma_ceil_div_monotonic(a * 512 * 512, b * 512 * 512, 44_100);
}

proof fn lemma_ceil_div_monotonic(x: nat, y: nat, d: nat)
    requires
        x <= y,
        d > 0,
    ensures
        ceil_div(x, d) <= ceil_div(y, d),
{
    let a = (x + d - 1) as int;
    let b = (y + d - 1) as int;
    assert(a / (d as int) <= b / (d as int)) by (nonlinear_arith)
        requires
            0 <= a <= b,
            d > 0,
    ;
}

} // verus!
