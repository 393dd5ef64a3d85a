use vstd::prelude::*;

use crate::device::{md_time_to_seconds, md_time_frames_to_seconds, DeviceError, Disc, Group, Track};
use crate::text::{
    blank, chars_of, concat_chars, contains, contains_exec, hex_chars, hex_fixed, is_blank,
    string_of,
};

verus! {

// ---------------------------------------------------------------------------
// Choosing a device
// ---------------------------------------------------------------------------

/// Picks the 0-based device to open from the 1-based number the user gave,
/// if any, among `device_count` supported devices.
pub fn select_device_index(device_index: Option<usize>, device_count: usize) -> (r: Result<
    usize,
    DeviceError,
>)
    ensures
        device_index == Some(0usize) ==> r matches Err(DeviceError::DeviceIndexZero),
        device_index != Some(0usize) && device_count == 0 ==> r matches Err(DeviceError::NotFound),
        device_count > 0 ==> match device_index {
            Some(n) => n > 0 ==> (if n > device_count {
                r matches Err(DeviceError::DeviceIndexOutOfRange { requested, count }) && requested
                    == n && count == device_count
            } else {
                r == Ok::<usize, DeviceError>((n - 1) as usize)
            }),
            None => if device_count == 1 {
                r == Ok::<usize, DeviceError>(0)
            } else {
                r matches Err(DeviceError::MultipleDevices { count }) && count == device_count
            },
        },
        r matches Ok(i) ==> i < device_count,
{
    if device_index == Some(0usize) {
        return Err(DeviceError::DeviceIndexZero);
    }
    if device_count == 0 {
        return Err(DeviceError::NotFound);
    }
    match device_index {
        Some(requested) => {
            if requested > device_count {
                Err(DeviceError::DeviceIndexOutOfRange { requested, count: device_count })
            } else {
                Ok(requested - 1)
            }
        },
        None => {
            if device_count == 1 {
                Ok(0)
            } else {
                Err(DeviceError::MultipleDevices { count: device_count })
            }
        },
    }
}

/// What `str::to_lowercase` makes of a text.
pub uninterp spec fn lowercase(s: Seq<char>) -> Seq<char>;

/// `str::to_lowercase`: the text with each character replaced by its Unicode
/// lower-case mapping. Stated: the result is the named function of the text;
/// the Unicode tables themselves are left to the name.
#[verifier::external_body]
fn to_lowercase(s: &str) -> (r: String)
    ensures
        r@ == lowercase(s@),
{
    s.to_lowercase()
}

/// Whether a USB error message says that no device was there.
pub open spec fn says_not_found(message: Seq<char>) -> bool {
    lowered_says_not_found(lowercase(message))
}

/// Whether a lower-cased USB error message says that no device was there.
pub open spec fn lowered_says_not_found(lower: Seq<char>) -> bool {
    contains(lower, "not found"@) || contains(lower, "no device"@)
}

/// The device error for a USB error message, given the message in lower
/// case.
pub fn open_error_for(message: String, lower: &str) -> (e: DeviceError)
    ensures
        lowered_says_not_found(lower@) ==> e matches DeviceError::NotFound,
        !lowered_says_not_found(lower@) ==> (e matches DeviceError::Open(m) && m == message),
{
    let chars = chars_of(lower);
    if contains_exec(&chars, &chars_of("not found")) || contains_exec(&chars, &chars_of("no device")) {
        DeviceError::NotFound
    } else {
        DeviceError::Open(message)
    }
}

/// The device error for a USB error message.
pub fn map_open_error(message: String) -> (e: DeviceError)
    ensures
        says_not_found(message@) ==> e matches DeviceError::NotFound,
        !says_not_found(message@) ==> (e matches DeviceError::Open(m) && m == message),
{
    let lower = to_lowercase(message.as_str());
    open_error_for(message, lower.as_str())
}

/// A USB device filter: each field that is set must match.
#[derive(Debug, Clone, Copy, PartialEq, Eq)]
pub struct UsbFilter {
    pub vendor_id: Option<u16>,
    pub product_id: Option<u16>,
    pub class: Option<u8>,
    pub subclass: Option<u8>,
    pub protocol: Option<u8>,
}

/// The identifying numbers of an attached USB device.
#[derive(Debug, Clone, Copy, PartialEq, Eq)]
pub struct UsbIds {
    pub vendor_id: u16,
    pub product_id: u16,
    pub class: u8,
    pub subclass: u8,
    pub protocol: u8,
}

/// Whether a device passes a filter the way `cross_usb::get_device_list`
/// decides it: each field that the filter sets is compared in turn and the
/// last comparison made decides; a filter that sets nothing matches nothing.
pub open spec fn filter_matches(f: UsbFilter, d: UsbIds) -> bool {
    if f.protocol is Some {
        f.protocol == Some(d.protocol)
    } else if f.subclass is Some {
        f.subclass == Some(d.subclass)
    } else if f.class is Some {
        f.class == Some(d.class)
    } else if f.product_id is Some {
        f.product_id == Some(d.product_id)
    } else if f.vendor_id is Some {
        f.vendor_id == Some(d.vendor_id)
    } else {
        false
    }
}

/// Whether a device passes a filter.
pub fn matches_filter(f: &UsbFilter, d: &UsbIds) -> (r: bool)
    ensures
        r == filter_matches(*f, *d),
{
    let mut matches = false;
    if let Some(vendor_id) = f.vendor_id {
        matches = vendor_id == d.vendor_id;
    }
    if let Some(product_id) = f.product_id {
        matches = product_id == d.product_id;
    }
    if let Some(class) = f.class {
        matches = class == d.class;
    }
    if let Some(subclass) = f.subclass {
        matches = subclass == d.subclass;
    }
    if let Some(protocol) = f.protocol {
        matches = protocol == d.protocol;
    }
    matches
}

/// Whether a device passes any of the filters.
pub fn matches_supported_filter(filters: &Vec<UsbFilter>, d: &UsbIds) -> (r: bool)
    ensures
        r == exists|i: int| 0 <= i < filters@.len() && filter_matches(#[trigger] filters@[i], *d),
{
    let mut i: usize = 0;
    while i < filters.len()
        invariant
            i <= filters.len(),
            forall|j: int| 0 <= j < i ==> !filter_matches(#[trigger] filters@[j], *d),
        decreases filters.len() - i,
    {
        if matches_filter(&filters[i], d) {
            return true;
        }
        i = i + 1;
    }
    false
}

// ---------------------------------------------------------------------------
// Disc state and preconditions of writes
// ---------------------------------------------------------------------------

/// `DiscFlag::Writable as u8` of the minidisc crate, the disc flag bit of a
/// recordable disc: 0x10 in the crate's source.
#[verifier::external_body]
fn writable_flag() -> (m: u8)
    ensures
        m == 0x10,
{
    minidisc::netmd::interface::DiscFlag::Writable as u8
}

/// `DiscFlag::WriteProtected as u8` of the minidisc crate, the disc flag bit
/// of a disc whose write-protect tab is set: 0x40 in the crate's source.
#[verifier::external_body]
fn write_protected_flag() -> (m: u8)
    ensures
        m == 0x40,
{
    minidisc::netmd::interface::DiscFlag::WriteProtected as u8
}

/// Whether the disc flags mark a recordable disc.
pub open spec fn flags_writable(flags: u8) -> bool {
    flags & 0x10u8 != 0
}

/// Whether the disc flags mark a write-protected disc.
pub open spec fn flags_write_protected(flags: u8) -> bool {
    flags & 0x40u8 != 0
}

/// The decision on a write: a write-protected disc and a disc that is not
/// recordable are refused, in that order.
pub fn check_disc_writable(flags: u8) -> (r: Result<(), DeviceError>)
    ensures
        r is Ok <==> flags_writable(flags) && !flags_write_protected(flags),
        flags_write_protected(flags) ==> r matches Err(DeviceError::WriteProtected),
        !flags_write_protected(flags) && !flags_writable(flags) ==> r matches Err(
            DeviceError::NotWritable,
        ),
{
    if flags & write_protected_flag() != 0 {
        return Err(DeviceError::WriteProtected);
    }
    if flags & writable_flag() == 0 {
        return Err(DeviceError::NotWritable);
    }
    Ok(())
}

/// The decision on a write to one track: the disc must take writes, and the
/// 0-based track must exist.
pub fn check_track_write(flags: u8, track_index: u16, track_count: u16) -> (r: Result<
    (),
    DeviceError,
>)
    requires
        track_index < u16::MAX,
    ensures
        r is Ok <==> flags_writable(flags) && !flags_write_protected(flags) && track_index
            < track_count,
        flags_write_protected(flags) ==> r matches Err(DeviceError::WriteProtected),
        !flags_write_protected(flags) && !flags_writable(flags) ==> r matches Err(
            DeviceError::NotWritable,
        ),
        flags_writable(flags) && !flags_write_protected(flags) && track_index >= track_count ==> (
        r matches Err(DeviceError::TrackNumberOutOfRange { track_number, track_count: c })
            && track_number == track_index + 1 && c == track_count),
{
    check_disc_writable(flags)?;
    if track_index >= track_count {
        return Err(DeviceError::TrackNumberOutOfRange { track_number: track_index + 1, track_count });
    }
    Ok(())
}

/// The upper bound on a disc's total time: 82 minutes of 512 frames a second.
pub open spec fn max_disc_frames() -> nat {
    512 * 60 * 82
}

/// Capacity figures `(used, total, left)` halved together until the total is
/// at most 82 minutes; devices that count in long-play frames report twice
/// or four times the real time.
pub open spec fn normalized_capacity(used: nat, total: nat, left: nat) -> (nat, nat, nat)
    decreases total,
{
    if total > max_disc_frames() {
        normalized_capacity(used / 2, total / 2, left / 2)
    } else {
        (used, total, left)
    }
}

/// Halves the capacity figures until the total is at most 82 minutes.
pub fn normalize_capacity(used: u64, total: u64, left: u64) -> (r: (u64, u64, u64))
    ensures
        (r.0 as nat, r.1 as nat, r.2 as nat) == normalized_capacity(
            used as nat,
            total as nat,
            left as nat,
        ),
        r.1 <= max_disc_frames(),
{
    let mut u = used;
    let mut t = total;
    let mut l = left;
    while t > 512 * 60 * 82
        invariant
            normalized_capacity(used as nat, total as nat, left as nat) == normalized_capacity(
                u as nat,
                t as nat,
                l as nat,
            ),
        decreases t,
    {
        u = u / 2;
        t = t / 2;
        l = l / 2;
    }
    (u, t, l)
}

/// The decision on an upload that needs `needed` disc time frames, given
/// the disc flags and its reported total and free frames.
pub fn check_upload_capacity(flags: u8, total_frames: u64, left_frames: u64, needed: u64) -> (r:
    Result<(), DeviceError>)
    ensures
        ({
            let left = normalized_capacity(0, total_frames as nat, left_frames as nat).2;
            &&& r is Ok <==> flags_writable(flags) && !flags_write_protected(flags) && needed
                <= left
            &&& flags_write_protected(flags) ==> (r matches Err(DeviceError::WriteProtected))
            &&& !flags_write_protected(flags) && !flags_writable(flags) ==> (r matches Err(
                DeviceError::NotWritable,
            ))
            &&& flags_writable(flags) && !flags_write_protected(flags) && needed > left ==> (
            r matches Err(DeviceError::InsufficientCapacity { needed_seconds, left_seconds })
                && needed_seconds == md_time_to_seconds(needed as nat) && left_seconds
                == md_time_to_seconds(left))
        }),
{
    check_disc_writable(flags)?;
    let (_u, _t, left) = normalize_capacity(0, total_frames, left_frames);
    if needed > left {
        return Err(
            DeviceError::InsufficientCapacity {
                needed_seconds: md_time_frames_to_seconds(needed),
                left_seconds: md_time_frames_to_seconds(left),
            },
        );
    }
    Ok(())
}

/// Rewords a failed read in front of a disc rename.
pub fn map_rename_precondition_error(err: DeviceError) -> (e: DeviceError)
    ensures
        err matches DeviceError::ListContent(m) ==> (e matches DeviceError::RenameDisc(n) && n
            == m),
        !(err is ListContent) ==> e == err,
{
    match err {
        DeviceError::ListContent(message) => DeviceError::RenameDisc(message),
        other => other,
    }
}

/// Rewords a failed read in front of a track rename.
pub fn map_rename_track_precondition_error(err: DeviceError) -> (e: DeviceError)
    ensures
        err matches DeviceError::ListContent(m) ==> (e matches DeviceError::RenameTrack(n) && n
            == m),
        !(err is ListContent) ==> e == err,
{
    match err {
        DeviceError::ListContent(message) => DeviceError::RenameTrack(message),
        other => other,
    }
}

/// Rewords a failed read in front of a track deletion.
pub fn map_delete_track_precondition_error(err: DeviceError) -> (e: DeviceError)
    ensures
        err matches DeviceError::ListContent(m) ==> (e matches DeviceError::DeleteTrack(n) && n
            == m),
        !(err is ListContent) ==> e == err,
{
    match err {
        DeviceError::ListContent(message) => DeviceError::DeleteTrack(message),
        other => other,
    }
}

/// Rewords a failed read in front of a disc erase.
pub fn map_erase_precondition_error(err: DeviceError) -> (e: DeviceError)
    ensures
        err matches DeviceError::ListContent(m) ==> (e matches DeviceError::EraseDisc(n) && n
            == m),
        !(err is ListContent) ==> e == err,
{
    match err {
        DeviceError::ListContent(message) => DeviceError::EraseDisc(message),
        other => other,
    }
}

/// Rewords a failed read in front of creating a group.
pub fn map_create_group_precondition_error(err: DeviceError) -> (e: DeviceError)
    ensures
        err matches DeviceError::ListContent(m) ==> (e matches DeviceError::CreateGroup(n) && n
            == m),
        !(err is ListContent) ==> e == err,
{
    match err {
        DeviceError::ListContent(message) => DeviceError::CreateGroup(message),
        other => other,
    }
}

// ---------------------------------------------------------------------------
// Reading a disc
// ---------------------------------------------------------------------------

/// A title, or nothing where it is blank.
pub fn blank_to_none(value: String) -> (r: Option<String>)
    ensures
        is_blank(value@) <==> r is None,
        r matches Some(s) ==> s == value,
{
    let chars = chars_of(value.as_str());
    if blank(&chars) {
        None
    } else {
        Some(value)
    }
}

/// The protection flags of a track in words.
pub open spec fn protection_text(flags: u8) -> Seq<char> {
    if flags == 0x03 {
        "protected"@
    } else if flags == 0x00 {
        "unprotected"@
    } else {
        "unknown(0x"@ + hex_fixed(flags as nat, 2) + ")"@
    }
}

/// The protection flags of a track in words.
pub fn protection_label(flags: u8) -> (s: String)
    ensures
        s@ == protection_text(flags),
{
    if flags == 0x03 {
        string_of(&chars_of("protected"))
    } else if flags == 0x00 {
        string_of(&chars_of("unprotected"))
    } else {
        let v = concat_chars(&chars_of("unknown(0x"), &hex_chars(flags as u64, 2));
        string_of(&concat_chars(&v, &chars_of(")")))
    }
}

/// One track as read from the device: its 0-based index, title, length in
/// disc time frames, whether it is stereo, its encoding's name and its
/// protection flags.
pub fn track_from_readings(
    index: u16,
    title: String,
    length_frames: u64,
    stereo: bool,
    codec: String,
    flags: u8,
) -> (t: Track)
    ensures
        t.index == index,
        is_blank(title@) <==> t.title is None,
        t.title matches Some(s) ==> s == title,
        t.duration_seconds == Some(md_time_to_seconds(length_frames as nat) as u64),
        t.channels == Some(if stereo {
            2u8
        } else {
            1u8
        }),
        t.codec == Some(codec),
        t.protected matches Some(p) && p@ == protection_text(flags),
{
    Track {
        index,
        title: blank_to_none(title),
        duration_seconds: Some(md_time_frames_to_seconds(length_frames)),
        channels: Some(
            if stereo {
                2
            } else {
                1
            },
        ),
        codec: Some(codec),
        protected: Some(protection_label(flags)),
    }
}

/// A title that is there and not blank.
pub open spec fn present_title(t: Option<String>) -> Option<String> {
    match t {
        Some(s) => if is_blank(s@) {
            None
        } else {
            Some(s)
        },
        None => None,
    }
}

fn non_blank(t: Option<String>) -> (r: Option<String>)
    ensures
        r == present_title(t),
{
    match t {
        Some(s) => blank_to_none(s),
        None => None,
    }
}

/// One group as read from the device: its position in the group list, its
/// titles and its tracks.
pub fn group_from_readings(
    position: usize,
    title: Option<String>,
    full_width_title: Option<String>,
    tracks: Vec<Track>,
) -> (g: Group)
    ensures
        g.index == position as i32,
        g.title == present_title(title),
        g.full_width_title == present_title(full_width_title),
        g.tracks == tracks,
{
    Group {
        index: position as i32,
        title: non_blank(title),
        full_width_title: non_blank(full_width_title),
        tracks,
    }
}

/// The disc as read from the device: its flags, titles, capacity in disc
/// time frames `(used, total, left)`, track count and groups.
pub fn disc_from_readings(
    flags: u8,
    title: String,
    full_width_title: String,
    used_frames: u64,
    total_frames: u64,
    left_frames: u64,
    track_count: u16,
    groups: Vec<Group>,
) -> (d: Disc)
    ensures
        d.title == title,
        d.full_width_title == full_width_title,
        d.writable == flags_writable(flags),
        d.write_protected == flags_write_protected(flags),
        ({
            let c = normalized_capacity(used_frames as nat, total_frames as nat, left_frames as nat);
            &&& d.used_seconds == Some(md_time_to_seconds(c.0) as u64)
            &&& d.total_seconds == Some(md_time_to_seconds(c.1) as u64)
            &&& d.left_seconds == Some(md_time_to_seconds(c.2) as u64)
        }),
        d.track_count == track_count,
        d.groups == groups,
{
    let (used, total, left) = normalize_capacity(used_frames, total_frames, left_frames);
    Disc {
        title,
        full_width_title,
        writable: (flags & writable_flag()) != 0,
        write_protected: (flags & write_protected_flag()) != 0,
        used_seconds: Some(md_time_frames_to_seconds(used)),
        left_seconds: Some(md_time_frames_to_seconds(left)),
        total_seconds: Some(md_time_frames_to_seconds(total)),
        track_count: track_count as usize,
        groups,
    }
}

} // verus!
