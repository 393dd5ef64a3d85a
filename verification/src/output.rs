use vstd::prelude::*;

use crate::device::{DeviceListing, DeviceSnapshot, Disc, Group, Track};
use crate::text::{
    blank, chars_of, concat_chars, decimal, decimal_chars, digit_char, hex_chars, hex_fixed,
    is_blank, join, pad_left, pad_left_with, pad_right, pad_right_chars, string_of, zero_pad,
};

verus! {

/// Whole minutes and zero-padded seconds, `M:SS`.
pub open spec fn duration_text(seconds: nat) -> Seq<char> {
    decimal(seconds / 60) + ":"@ + zero_pad(decimal(seconds % 60), 2)
}

/// Seconds as `M:SS`.
pub fn format_duration(seconds: u64) -> (s: String)
    ensures
        s@ == duration_text(seconds as nat),
{
    string_of(&duration_chars(seconds))
}

fn duration_chars(seconds: u64) -> (r: Vec<char>)
    ensures
        r@ == duration_text(seconds as nat),
{
    let mut r = concat_chars(&decimal_chars(seconds / 60), &chars_of(":"));
    let secs = pad_left_with(&decimal_chars(seconds % 60), 2, '0');
    assert(secs@ == zero_pad(decimal((seconds % 60) as nat), 2));
    concat_chars(&r, &secs)
}

/// One byte as `0xNN`.
pub open spec fn hex_byte_text(b: u8) -> Seq<char> {
    "0x"@ + hex_fixed(b as nat, 2)
}

/// Bytes as `0xNN` separated by spaces.
pub open spec fn hex_bytes_text(bytes: Seq<u8>) -> Seq<char> {
    join(bytes.map_values(|b: u8| hex_byte_text(b)), " "@)
}

/// Bytes as `0xNN` separated by spaces.
pub fn format_hex_bytes(bytes: &[u8]) -> (s: String)
    ensures
        s@ == hex_bytes_text(bytes@),
{
    let mut out: Vec<char> = Vec::new();
    let sep = chars_of(" ");
    let prefix = chars_of("0x");
    let mut i: usize = 0;
    while i < bytes.len()
        invariant
            i <= bytes@.len(),
            sep@ == " "@,
            prefix@ == "0x"@,
            out@ == hex_bytes_text(bytes@.take(i as int)),
        decreases bytes.len() - i,
    {
        let item = concat_chars(&prefix, &hex_chars(bytes[i] as u64, 2));
        let ghost parts = bytes@.take(i + 1).map_values(|b: u8| hex_byte_text(b));
        assert(parts.drop_last() == bytes@.take(i as int).map_values(|b: u8| hex_byte_text(b)));
        assert(parts.last() == item@);
        if i == 0 {
            out = item;
        } else {
            out = concat_chars(&out, &sep);
            out = concat_chars(&out, &item);
        }
        i = i + 1;
    }
    assert(bytes@.take(bytes@.len() as int) == bytes@);
    string_of(&out)
}

/// A text, or the fallback where the text is blank.
pub open spec fn or_fallback(value: Seq<char>, fallback: Seq<char>) -> Seq<char> {
    if is_blank(value) {
        fallback
    } else {
        value
    }
}

/// A text, or the fallback where the text is blank.
pub fn empty_fallback<'a>(value: &'a str, fallback: &'a str) -> (r: &'a str)
    ensures
        r@ == or_fallback(value@, fallback@),
{
    if blank(&chars_of(value)) {
        fallback
    } else {
        value
    }
}

/// A signed number in decimal.
pub open spec fn signed_decimal(n: int) -> Seq<char> {
    if n < 0 {
        "-"@ + decimal((-n) as nat)
    } else {
        decimal(n as nat)
    }
}

fn signed_decimal_chars(n: i32) -> (r: Vec<char>)
    ensures
        r@ == signed_decimal(n as int),
{
    if n < 0 {
        let magnitude = (0i64 - n as i64) as u64;
        concat_chars(&chars_of("-"), &decimal_chars(magnitude))
    } else {
        decimal_chars(n as u64)
    }
}

/// The word for a channel count.
pub open spec fn channels_text(channels: Option<u8>) -> Seq<char> {
    match channels {
        Some(1) => "mono"@,
        Some(2) => "stereo"@,
        Some(_) => "multi"@,
        None => "unknown"@,
    }
}

/// An optional text, or the fallback where there is none.
pub open spec fn opt_or(value: Option<String>, fallback: Seq<char>) -> Seq<char> {
    match value {
        Some(s) => s@,
        None => fallback,
    }
}

/// The listing line of one track: its 1-based number right-aligned in three
/// columns, then duration, codec and channels in eight columns each, then the
/// title.
pub open spec fn track_line(t: Track) -> Seq<char> {
    let duration = match t.duration_seconds {
        Some(s) => duration_text(s as nat),
        None => "--:--"@,
    };
    pad_left(decimal((t.index + 1) as nat), 3) + ". "@ + pad_right(duration, 8) + " "@ + pad_right(
        opt_or(t.codec, "unknown"@),
        8,
    ) + " "@ + pad_right(channels_text(t.channels), 8) + " "@ + opt_or(t.title, "Untitled Track"@)
}

/// The heading line of a titled group.
pub open spec fn group_heading(g: Group) -> Seq<char> {
    "[Group "@ + signed_decimal(g.index as int) + "] "@ + or_fallback(
        opt_or(g.title, seq![]),
        "Untitled Group"@,
    )
}

/// The listing lines of one group: its heading where it has a title, then
/// its tracks.
pub open spec fn group_lines(g: Group) -> Seq<Seq<char>> {
    (if g.title is Some {
        seq![group_heading(g)]
    } else {
        seq![]
    }) + g.tracks@.map_values(|t: Track| track_line(t))
}

/// The listing lines of the groups, in order.
pub open spec fn groups_lines(gs: Seq<Group>) -> Seq<Seq<char>>
    decreases gs.len(),
{
    if gs.len() == 0 {
        seq![]
    } else {
        groups_lines(gs.drop_last()) + group_lines(gs.last())
    }
}

/// The summary lines of a disc: title, track count, capacity where all of it
/// is known, write protection where it is known, and a blank line.
pub open spec fn disc_summary_lines(d: Disc) -> Seq<Seq<char>> {
    let capacity = match (d.used_seconds, d.left_seconds, d.total_seconds) {
        (Some(u), Some(l), Some(t)) => seq![
            "Capacity: "@ + duration_text(u as nat) + " used, "@ + duration_text(l as nat)
                + " left, "@ + duration_text(t as nat) + " total"@,
        ],
        _ => seq![],
    };
    let protection = if d.write_protected {
        seq!["Write protection: on"@]
    } else if d.writable {
        seq!["Write protection: off"@]
    } else {
        seq![]
    };
    seq!["Disc: "@ + or_fallback(d.title@, "Untitled Disc"@), "Tracks: "@ + decimal(d.track_count as nat)]
        + capacity + protection + seq![seq![]]
}

/// The human-readable listing of a device and its disc, line by line.
pub open spec fn disc_listing(s: DeviceSnapshot) -> Seq<Seq<char>> {
    let params = match s.recording_parameters {
        Some(p) => seq!["Recording parameters: "@ + hex_bytes_text(p@)],
        None => seq![],
    };
    seq![
        "Device: "@ + or_fallback(s.device_name@, "Unknown NetMD device"@),
        "USB: "@ + hex_fixed(s.vendor_id as nat, 4) + ":"@ + hex_fixed(s.product_id as nat, 4),
    ] + params + disc_summary_lines(s.disc) + groups_lines(s.disc.groups@)
}

/// Whether every track number of the disc can be shown (the number is the
/// 0-based index plus one).
pub open spec fn track_numbers_fit(d: Disc) -> bool {
    forall|i: int, j: int|
        0 <= i < d.groups@.len() && 0 <= j < d.groups@[i].tracks@.len() ==> (
        #[trigger] d.groups@[i].tracks@[j]).index < u16::MAX
}

fn opt_chars_or(value: &Option<String>, fallback: &str) -> (r: Vec<char>)
    ensures
        r@ == opt_or(*value, fallback@),
{
    match value {
        Some(s) => chars_of(s.as_str()),
        None => chars_of(fallback),
    }
}

fn push_line(lines: &mut Vec<String>, v: &Vec<char>)
    ensures
        lines_view(final(lines)@) == lines_view(old(lines)@).push(v@),
{
    let ghost before = lines@;
    lines.push(string_of(v));
    assert(lines_view(lines@) == lines_view(before).push(v@));
}

/// The lines of all the strings.
pub open spec fn lines_view(lines: Seq<String>) -> Seq<Seq<char>> {
    lines.map_values(|s: String| s@)
}

fn track_line_chars(t: &Track) -> (r: Vec<char>)
    requires
        t.index < u16::MAX,
    ensures
        r@ == track_line(*t),
{
    let number = pad_left_with(&decimal_chars((t.index + 1) as u64), 3, ' ');
    let duration = match t.duration_seconds {
        Some(s) => duration_chars(s),
        None => chars_of("--:--"),
    };
    let channels = match t.channels {
        Some(1) => chars_of("mono"),
        Some(2) => chars_of("stereo"),
        Some(_) => chars_of("multi"),
        None => chars_of("unknown"),
    };
    let sp = chars_of(" ");
    let mut r = concat_chars(&number, &chars_of(". "));
    r = concat_chars(&r, &pad_right_chars(&duration, 8));
    r = concat_chars(&r, &sp);
    r = concat_chars(&r, &pad_right_chars(&opt_chars_or(&t.codec, "unknown"), 8));
    r = concat_chars(&r, &sp);
    r = concat_chars(&r, &pad_right_chars(&channels, 8));
    r = concat_chars(&r, &sp);
    r = concat_chars(&r, &opt_chars_or(&t.title, "Untitled Track"));
    r
}

fn group_heading_chars(g: &Group) -> (r: Vec<char>)
    requires
        g.title is Some,
    ensures
        r@ == group_heading(*g),
{
    let mut r = concat_chars(&chars_of("[Group "), &signed_decimal_chars(g.index));
    r = concat_chars(&r, &chars_of("] "));
    let t = opt_chars_or(&g.title, "");
    let shown = if blank(&t) {
        chars_of("Untitled Group")
    } else {
        t
    };
    concat_chars(&r, &shown)
}

fn push_group_lines(lines: &mut Vec<String>, g: &Group)
    requires
        forall|j: int| 0 <= j < g.tracks@.len() ==> (#[trigger] g.tracks@[j]).index < u16::MAX,
    ensures
        lines_view(final(lines)@) == lines_view(old(lines)@) + group_lines(*g),
{
    let ghost start = lines_view(lines@);
    let ghost heading: Seq<Seq<char>> = if g.title is Some {
        seq![group_heading(*g)]
    } else {
        seq![]
    };
    if g.title.is_some() {
        push_line(lines, &group_heading_chars(g));
    }
    assert(lines_view(lines@) == start + heading);
    let ghost track_lines = g.tracks@.map_values(|t: Track| track_line(t));
    let mut k: usize = 0;
    assert(track_lines.take(0) == Seq::<Seq<char>>::empty());
    while k < g.tracks.len()
        invariant
            k <= g.tracks@.len(),
            forall|j: int| 0 <= j < g.tracks@.len() ==> (#[trigger] g.tracks@[j]).index < u16::MAX,
            track_lines == g.tracks@.map_values(|t: Track| track_line(t)),
            lines_view(lines@) == start + heading + track_lines.take(k as int),
        decreases g.tracks.len() - k,
    {
        assert(g.tracks@[k as int].index < u16::MAX);
        let line = track_line_chars(&g.tracks[k]);
        push_line(lines, &line);
        assert(track_lines.take(k + 1) == track_lines.take(k as int).push(track_lines[k as int]));
        k = k + 1;
    }
    assert(track_lines.take(g.tracks@.len() as int) == track_lines);
}

/// The device lines of the listing.
pub open spec fn device_lines(s: DeviceSnapshot) -> Seq<Seq<char>> {
    seq![
        "Device: "@ + or_fallback(s.device_name@, "Unknown NetMD device"@),
        "USB: "@ + hex_fixed(s.vendor_id as nat, 4) + ":"@ + hex_fixed(s.product_id as nat, 4),
    ] + match s.recording_parameters {
        Some(p) => seq!["Recording parameters: "@ + hex_bytes_text(p@)],
        None => seq![],
    }
}

fn push_device_lines(lines: &mut Vec<String>, snapshot: &DeviceSnapshot)
    ensures
        lines_view(final(lines)@) == lines_view(old(lines)@) + device_lines(*snapshot),
{
    let ghost start = lines_view(lines@);
    let name = chars_of(empty_fallback(snapshot.device_name.as_str(), "Unknown NetMD device"));
    push_line(lines, &concat_chars(&chars_of("Device: "), &name));
    let mut usb = concat_chars(&chars_of("USB: "), &hex_chars(snapshot.vendor_id as u64, 4));
    usb = concat_chars(&usb, &chars_of(":"));
    usb = concat_chars(&usb, &hex_chars(snapshot.product_id as u64, 4));
    push_line(lines, &usb);
    if let Some(params) = &snapshot.recording_parameters {
        let text = format_hex_bytes(params.as_slice());
        push_line(
            lines,
            &concat_chars(&chars_of("Recording parameters: "), &chars_of(text.as_str())),
        );
    }
    assert(lines_view(lines@) =~= start + device_lines(*snapshot));
}

fn capacity_chars(u: u64, l: u64, t: u64) -> (r: Vec<char>)
    ensures
        r@ == "Capacity: "@ + duration_text(u as nat) + " used, "@ + duration_text(l as nat)
            + " left, "@ + duration_text(t as nat) + " total"@,
{
    let mut c = concat_chars(&chars_of("Capacity: "), &duration_chars(u));
    c = concat_chars(&c, &chars_of(" used, "));
    c = concat_chars(&c, &duration_chars(l));
    c = concat_chars(&c, &chars_of(" left, "));
    c = concat_chars(&c, &duration_chars(t));
    concat_chars(&c, &chars_of(" total"))
}

fn push_summary_lines(lines: &mut Vec<String>, d: &Disc)
    ensures
        lines_view(final(lines)@) == lines_view(old(lines)@) + disc_summary_lines(*d),
{
    let ghost start = lines_view(lines@);
    let title = chars_of(empty_fallback(d.title.as_str(), "Untitled Disc"));
    push_line(lines, &concat_chars(&chars_of("Disc: "), &title));
    push_line(lines, &concat_chars(&chars_of("Tracks: "), &decimal_chars(d.track_count as u64)));
    let ghost after_counts = lines_view(lines@);
    match (d.used_seconds, d.left_seconds, d.total_seconds) {
        (Some(u), Some(l), Some(t)) => {
            push_line(lines, &capacity_chars(u, l, t));
        },
        _ => {},
    }
    let ghost after_capacity = lines_view(lines@);
    if d.write_protected {
        push_line(lines, &chars_of("Write protection: on"));
    } else if d.writable {
        push_line(lines, &chars_of("Write protection: off"));
    }
    let ghost after_protection = lines_view(lines@);
    let empty: Vec<char> = Vec::new();
    push_line(lines, &empty);
    assert(lines_view(lines@) =~= start + disc_summary_lines(*d));
}

/// The human-readable listing of a device and its disc, line by line.
pub fn disc_human_lines(snapshot: &DeviceSnapshot) -> (lines: Vec<String>)
    requires
        track_numbers_fit(snapshot.disc),
    ensures
        lines_view(lines@) == disc_listing(*snapshot),
{
    let mut lines: Vec<String> = Vec::new();
    assert(lines_view(lines@) == Seq::<Seq<char>>::empty());
    push_device_lines(&mut lines, snapshot);
    let d = &snapshot.disc;
    push_summary_lines(&mut lines, d);
    let ghost header = lines_view(lines@);
    assert(header == device_lines(*snapshot) + disc_summary_lines(snapshot.disc));
    let mut k: usize = 0;
    assert(d.groups@.take(0) == Seq::<Group>::empty());
    while k < d.groups.len()
        invariant
            k <= d.groups@.len(),
            track_numbers_fit(*d),
            lines_view(lines@) == header + groups_lines(d.groups@.take(k as int)),
        decreases d.groups.len() - k,
    {
        assert forall|j: int| 0 <= j < d.groups@[k as int].tracks@.len() implies (
        #[trigger] d.groups@[k as int].tracks@[j]).index < u16::MAX by {
            assert(d.groups@[k as int].tracks@[j].index < u16::MAX);
        }
        push_group_lines(&mut lines, &d.groups[k]);
        assert(d.groups@.take(k + 1).drop_last() == d.groups@.take(k as int));
        k = k + 1;
    }
    assert(d.groups@.take(d.groups@.len() as int) == d.groups@);
    assert(disc_listing(*snapshot) =~= device_lines(*snapshot) + disc_summary_lines(snapshot.disc)
        + groups_lines(snapshot.disc.groups@));
    lines
}

/// Whether every track number of the disc can be shown.
pub fn track_numbers_shown(d: &Disc) -> (r: bool)
    ensures
        r == track_numbers_fit(*d),
{
    let mut i: usize = 0;
    while i < d.groups.len()
        invariant
            i <= d.groups@.len(),
            forall|a: int, b: int|
                0 <= a < i && 0 <= b < d.groups@[a].tracks@.len() ==> (
                #[trigger] d.groups@[a].tracks@[b]).index < u16::MAX,
        decreases d.groups.len() - i,
    {
        let tracks = &d.groups[i].tracks;
        let mut j: usize = 0;
        while j < tracks.len()
            invariant
                i < d.groups@.len(),
                tracks == d.groups@[i as int].tracks,
                j <= tracks@.len(),
                forall|a: int, b: int|
                    0 <= a < i && 0 <= b < d.groups@[a].tracks@.len() ==> (
                    #[trigger] d.groups@[a].tracks@[b]).index < u16::MAX,
                forall|b: int| 0 <= b < j ==> (#[trigger] tracks@[b]).index < u16::MAX,
            decreases tracks.len() - j,
        {
            if tracks[j].index == u16::MAX {
                return false;
            }
            j = j + 1;
        }
        i = i + 1;
    }
    true
}

/// The name a listed device goes by: its product string, else its
/// manufacturer string, else a generic name.
pub open spec fn listing_name(d: DeviceListing) -> Seq<char> {
    match d.product {
        Some(p) => p@,
        None => match d.manufacturer {
            Some(m) => m@,
            None => "NetMD device"@,
        },
    }
}

/// The line for one listed device: its number, name and USB ids.
pub open spec fn listing_line(d: DeviceListing) -> Seq<char> {
    decimal(d.index as nat) + ". "@ + listing_name(d) + " ("@ + hex_fixed(d.vendor_id as nat, 4)
        + ":"@ + hex_fixed(d.product_id as nat, 4) + ")"@
}

/// The human-readable device list: one line per device, or a note that
/// there is none.
pub open spec fn devices_listing(ds: Seq<DeviceListing>) -> Seq<Seq<char>> {
    if ds.len() == 0 {
        seq!["No supported NetMD devices found."@]
    } else {
        ds.map_values(|d: DeviceListing| listing_line(d))
    }
}

fn listing_line_chars(d: &DeviceListing) -> (r: Vec<char>)
    ensures
        r@ == listing_line(*d),
{
    let name = match &d.product {
        Some(p) => chars_of(p.as_str()),
        None => opt_chars_or(&d.manufacturer, "NetMD device"),
    };
    let mut r = concat_chars(&decimal_chars(d.index as u64), &chars_of(". "));
    r = concat_chars(&r, &name);
    r = concat_chars(&r, &chars_of(" ("));
    r = concat_chars(&r, &hex_chars(d.vendor_id as u64, 4));
    r = concat_chars(&r, &chars_of(":"));
    r = concat_chars(&r, &hex_chars(d.product_id as u64, 4));
    concat_chars(&r, &chars_of(")"))
}

/// The human-readable device list, line by line.
pub fn devices_human_lines(devices: &Vec<DeviceListing>) -> (lines: Vec<String>)
    ensures
        lines_view(lines@) == devices_listing(devices@),
{
    let mut lines: Vec<String> = Vec::new();
    if devices.len() == 0 {
        push_line(&mut lines, &chars_of("No supported NetMD devices found."));
        return lines;
    }
    let mut k: usize = 0;
    while k < devices.len()
        invariant
            k <= devices@.len(),
            lines_view(lines@) == devices@.take(k as int).map_values(
                |d: DeviceListing| listing_line(d),
            ),
        decreases devices.len() - k,
    {
        push_line(&mut lines, &listing_line_chars(&devices[k]));
        k = k + 1;
        assert(devices@.take(k as int).map_values(|d: DeviceListing| listing_line(d))
            =~= devices@.take(k - 1).map_values(|d: DeviceListing| listing_line(d)).push(
            listing_line(devices@[k - 1]),
        ));
    }
    assert(devices@.take(devices@.len() as int) =~= devices@);
    lines
}

/// Whether a listing line cannot be a write-protection line: it is empty
/// or starts with another character than `W`.
pub open spec fn not_protection_like(line: Seq<char>) -> bool {
    line.len() == 0 || line[0] != 'W'
}

proof fn lemma_digit_not_w(d: int)
    requires
        0 <= d < 10,
    ensures
        digit_char(d) != 'W',
{
}

proof fn lemma_decimal_not_w(n: nat)
    ensures
        decimal(n).len() > 0,
        decimal(n)[0] != 'W',
    decreases n,
{
    if n < 10 {
        lemma_digit_not_w(n as int);
    } else {
        lemma_decimal_not_w(n / 10);
    }
}

proof fn lemma_track_line_not_w(t: Track)
    ensures
        track_line(t).len() > 0,
        track_line(t)[0] != 'W',
{
    let num = decimal((t.index + 1) as nat);
    lemma_decimal_not_w((t.index + 1) as nat);
    let p = pad_left(num, 3);
    assert(p.len() > 0 && p[0] != 'W');
    let duration = match t.duration_seconds {
        Some(s) => duration_text(s as nat),
        None => "--:--"@,
    };
    let rest = ". "@ + pad_right(duration, 8) + " "@ + pad_right(opt_or(t.codec, "unknown"@), 8)
        + " "@ + pad_right(channels_text(t.channels), 8) + " "@ + opt_or(
        t.title,
        "Untitled Track"@,
    );
    assert(track_line(t) =~= p + rest);
}

proof fn lemma_group_lines_not_w(g: Group)
    ensures
        forall|i: int|
            0 <= i < group_lines(g).len() ==> not_protection_like(#[trigger] group_lines(g)[i]),
{
    reveal_strlit("[Group ");
    let heading = if g.title is Some {
        seq![group_heading(g)]
    } else {
        seq![]
    };
    let tracks = g.tracks@.map_values(|t: Track| track_line(t));
    assert(group_lines(g) == heading + tracks);
    assert forall|i: int| 0 <= i < group_lines(g).len() implies not_protection_like(
        #[trigger] group_lines(g)[i],
    ) by {
        if i < heading.len() {
            assert(group_lines(g)[i] == group_heading(g));
            assert(group_heading(g)[0] == '[');
        } else {
            let j = i - heading.len();
            assert(group_lines(g)[i] == tracks[j]);
            lemma_track_line_not_w(g.tracks@[j]);
        }
    }
}

proof fn lemma_groups_lines_not_w(gs: Seq<Group>)
    ensures
        forall|i: int|
            0 <= i < groups_lines(gs).len() ==> not_protection_like(#[trigger] groups_lines(gs)[i]),
    decreases gs.len(),
{
    if gs.len() > 0 {
        lemma_groups_lines_not_w(gs.drop_last());
        lemma_group_lines_not_w(gs.last());
        let a = groups_lines(gs.drop_last());
        let b = group_lines(gs.last());
        assert forall|i: int| 0 <= i < groups_lines(gs).len() implies not_protection_like(
            #[trigger] groups_lines(gs)[i],
        ) by {
            if i < a.len() {
                assert(groups_lines(gs)[i] == a[i]);
            } else {
                assert(groups_lines(gs)[i] == b[i - a.len()]);
            }
        }
    }
}

/// The protection lines a disc's summary can hold.
spec fn protection_lines(d: Disc) -> Seq<Seq<char>> {
    if d.write_protected {
        seq!["Write protection: on"@]
    } else if d.writable {
        seq!["Write protection: off"@]
    } else {
        seq![]
    }
}

proof fn lemma_w_lines_are_protection(s: DeviceSnapshot)
    ensures
        forall|i: int|
            0 <= i < disc_listing(s).len() && !not_protection_like(#[trigger] disc_listing(s)[i])
                ==> protection_lines(s.disc).contains(disc_listing(s)[i]),
{
    reveal_strlit("Device: ");
    reveal_strlit("USB: ");
    reveal_strlit("Recording parameters: ");
    reveal_strlit("Disc: ");
    reveal_strlit("Tracks: ");
    reveal_strlit("Capacity: ");
    let d = s.disc;
    let params = match s.recording_parameters {
        Some(p) => seq!["Recording parameters: "@ + hex_bytes_text(p@)],
        None => seq![],
    };
    let head = seq![
        "Device: "@ + or_fallback(s.device_name@, "Unknown NetMD device"@),
        "USB: "@ + hex_fixed(s.vendor_id as nat, 4) + ":"@ + hex_fixed(s.product_id as nat, 4),
    ] + params;
    let capacity = match (d.used_seconds, d.left_seconds, d.total_seconds) {
        (Some(u), Some(l), Some(t)) => seq![
            "Capacity: "@ + duration_text(u as nat) + " used, "@ + duration_text(l as nat)
                + " left, "@ + duration_text(t as nat) + " total"@,
        ],
        _ => seq![],
    };
    let counts = seq![
        "Disc: "@ + or_fallback(d.title@, "Untitled Disc"@),
        "Tracks: "@ + decimal(d.track_count as nat),
    ];
    let prot = protection_lines(d);
    let sum = counts + capacity + prot + seq![seq![]];
    assert(disc_summary_lines(d) == sum);
    let gl = groups_lines(d.groups@);
    lemma_groups_lines_not_w(d.groups@);
    let l = disc_listing(s);
    assert(l == head + sum + gl);
    assert forall|i: int|
        0 <= i < l.len() && !not_protection_like(#[trigger] l[i]) implies prot.contains(l[i]) by {
        if i < head.len() {
            assert(l[i] == head[i]);
            if i == 0 {
                assert(head[0][0] == 'D');
            } else if i == 1 {
                assert(head[1][0] == 'U');
            } else {
                assert(head[2] == params[0]);
                assert(params[0][0] == 'R');
            }
        } else if i < head.len() + sum.len() {
            let j = i - head.len();
            assert(l[i] == sum[j]);
            if j == 0 {
                assert(sum[0] == counts[0]);
                assert(counts[0][0] == 'D');
            } else if j == 1 {
                assert(sum[1] == counts[1]);
                assert(counts[1][0] == 'T');
            } else if j < 2 + capacity.len() {
                assert(sum[j] == capacity[j - 2]);
                assert(capacity[0][0] == 'C');
            } else if j < 2 + capacity.len() + prot.len() {
                let k = j - 2 - capacity.len();
                assert(sum[j] == prot[k]);
            } else {
                assert(sum[j] == Seq::<char>::empty());
            }
        } else {
            let k = i - head.len() - sum.len();
            assert(l[i] == gl[k]);
        }
    }
}

/// The listing says "Write protection: on" exactly for a write-protected
/// disc and "Write protection: off" exactly for a recordable disc that is
/// not write-protected; a write-protected disc is never listed as "off".
pub proof fn lemma_write_protection_line(s: DeviceSnapshot)
    ensures
        disc_listing(s).contains("Write protection: on"@) <==> s.disc.write_protected,
        disc_listing(s).contains("Write protection: off"@) <==> (!s.disc.write_protected
            && s.disc.writable),
{
    reveal_strlit("Write protection: on");
    reveal_strlit("Write protection: off");
    let on = "Write protection: on"@;
    let off = "Write protection: off"@;
    assert(on != off) by {
        assert(on.len() != off.len());
    }
    lemma_w_lines_are_protection(s);
    let l = disc_listing(s);
    let d = s.disc;
    let capacity = match (d.used_seconds, d.left_seconds, d.total_seconds) {
        (Some(u), Some(l), Some(t)) => seq![
            "Capacity: "@ + duration_text(u as nat) + " used, "@ + duration_text(l as nat)
                + " left, "@ + duration_text(t as nat) + " total"@,
        ],
        _ => seq![],
    };
    let params = match s.recording_parameters {
        Some(p) => seq!["Recording parameters: "@ + hex_bytes_text(p@)],
        None => seq![],
    };
    let head = seq![
        "Device: "@ + or_fallback(s.device_name@, "Unknown NetMD device"@),
        "USB: "@ + hex_fixed(s.vendor_id as nat, 4) + ":"@ + hex_fixed(s.product_id as nat, 4),
    ] + params;
    let counts = seq![
        "Disc: "@ + or_fallback(d.title@, "Untitled Disc"@),
        "Tracks: "@ + decimal(d.track_count as nat),
    ];
    let prot = protection_lines(d);
    let sum = counts + capacity + prot + seq![seq![]];
    assert(disc_summary_lines(d) == sum);
    let gl = groups_lines(d.groups@);
    assert(l == head + sum + gl);
    let at = (head.len() + 2 + capacity.len()) as int;
    if prot.len() > 0 {
        assert(l[at] == prot[0]);
    }
    if l.contains(on) {
        let i = choose|i: int| 0 <= i < l.len() && l[i] == on;
        assert(!not_protection_like(l[i]));
        assert(prot.contains(on));
    }
    if l.contains(off) {
        let i = choose|i: int| 0 <= i < l.len() && l[i] == off;
        assert(!not_protection_like(l[i]));
        assert(prot.contains(off));
    }
}

} // verus!
