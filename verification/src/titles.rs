use vstd::prelude::*;

use crate::device::{DeviceError, Disc, Group, Track};
use crate::netmd::{check_disc_writable, flags_writable, flags_write_protected};
use crate::text::{
    blank, chars_of, concat_chars, decimal, decimal_chars, is_blank, replace, replace_chars,
    starts_with, string_of,
};

verus! {

/// Whether the 1-based numbers of a range of `count` tracks from the 0-based
/// `start` can be computed in `u16`.
pub open spec fn range_fits(start: u16, count: u16) -> bool {
    start < u16::MAX && (count != 1 ==> start + 1 + count <= u16::MAX)
}

/// The 1-based track range of a group in a disc title: `N` for one track,
/// `N-M` for more.
pub open spec fn range_text(start: u16, count: u16) -> Seq<char> {
    if count == 1 {
        decimal((start + 1) as nat)
    } else {
        decimal((start + 1) as nat) + "-"@ + decimal((start + count) as nat)
    }
}

/// The track range of a group in a disc title.
pub fn group_range(start_track_index: u16, track_count: u16) -> (r: String)
    requires
        range_fits(start_track_index, track_count),
    ensures
        r@ == range_text(start_track_index, track_count),
{
    string_of(&range_chars(start_track_index, track_count))
}

fn range_chars(start_track_index: u16, track_count: u16) -> (r: Vec<char>)
    requires
        range_fits(start_track_index, track_count),
    ensures
        r@ == range_text(start_track_index, track_count),
{
    let start = start_track_index + 1;
    if track_count == 1 {
        decimal_chars(start as u64)
    } else {
        let first = concat_chars(&decimal_chars(start as u64), &chars_of("-"));
        concat_chars(&first, &decimal_chars((start + track_count - 1) as u64))
    }
}

/// The full-width form of a character of a track range.
pub open spec fn full_width_char(c: char) -> char {
    let u = c as u32;
    if 48 <= u <= 57 {
        (u + 0xff10 - 48) as char
    } else if c == '-' {
        '\u{ff0d}'
    } else {
        c
    }
}

/// A track range in full-width characters.
pub open spec fn full_width_range(s: Seq<char>) -> Seq<char> {
    s.map_values(|c: char| full_width_char(c))
}

fn full_width_digit(c: char) -> (r: char)
    ensures
        r == full_width_char(c),
{
    match c {
        '0' => '\u{ff10}',
        '1' => '\u{ff11}',
        '2' => '\u{ff12}',
        '3' => '\u{ff13}',
        '4' => '\u{ff14}',
        '5' => '\u{ff15}',
        '6' => '\u{ff16}',
        '7' => '\u{ff17}',
        '8' => '\u{ff18}',
        '9' => '\u{ff19}',
        '-' => '\u{ff0d}',
        other => other,
    }
}

fn full_width_chars(v: &Vec<char>) -> (r: Vec<char>)
    ensures
        r@ == full_width_range(v@),
{
    let mut r: Vec<char> = Vec::new();
    let mut i: usize = 0;
    while i < v.len()
        invariant
            i <= v.len(),
            r@ == full_width_range(v@.take(i as int)),
        decreases v.len() - i,
    {
        r.push(full_width_digit(v[i]));
        i = i + 1;
        assert(full_width_range(v@.take(i as int)) == full_width_range(v@.take(i - 1)).push(
            full_width_char(v@[i - 1]),
        ));
    }
    assert(v@.take(v.len() as int) == v@);
    r
}

/// A half-width track range written in full-width characters.
pub fn half_width_range_to_full_width(range: &str) -> (r: String)
    ensures
        r@ == full_width_range(range@),
{
    string_of(&full_width_chars(&chars_of(range)))
}

/// A half-width title component, with `//` (the separator) weakened to ` /`.
pub open spec fn sanitize_half(t: Seq<char>) -> Seq<char> {
    replace(t, "//"@, " /"@)
}

/// A full-width title component, with the full-width separator weakened.
pub open spec fn sanitize_full(t: Seq<char>) -> Seq<char> {
    replace(t, "\u{ff0f}\u{ff0f}"@, "\u{ff0f}"@)
}

/// A half-width title component made safe to embed.
pub fn sanitize_half_width_component(title: &str) -> (r: String)
    ensures
        r@ == sanitize_half(title@),
{
    let from = chars_of("//");
    proof {
        reveal_strlit("//");
    }
    string_of(&replace_chars(&chars_of(title), &from, &chars_of(" /")))
}

/// A full-width title component made safe to embed.
pub fn sanitize_full_width_component(title: &str) -> (r: String)
    ensures
        r@ == sanitize_full(title@),
{
    let from = chars_of("\u{ff0f}\u{ff0f}");
    proof {
        reveal_strlit("\u{ff0f}\u{ff0f}");
    }
    string_of(&replace_chars(&chars_of(title), &from, &chars_of("\u{ff0f}")))
}

/// The smallest 0-based index among the tracks (0 for none).
pub open spec fn min_index(tracks: Seq<Track>) -> u16
    decreases tracks.len(),
{
    if tracks.len() == 0 {
        0
    } else if tracks.len() == 1 {
        tracks[0].index
    } else {
        let m = min_index(tracks.drop_last());
        if tracks.last().index < m {
            tracks.last().index
        } else {
            m
        }
    }
}

fn min_track_index(tracks: &Vec<Track>) -> (m: u16)
    ensures
        m == min_index(tracks@),
{
    if tracks.len() == 0 {
        return 0;
    }
    let mut m = tracks[0].index;
    let mut i: usize = 1;
    assert(tracks@.take(1).drop_last().len() == 0);
    assert(tracks@.take(1) == seq![tracks@[0]]);
    while i < tracks.len()
        invariant
            1 <= i <= tracks.len(),
            m == min_index(tracks@.take(i as int)),
        decreases tracks.len() - i,
    {
        assert(tracks@.take(i + 1).drop_last() == tracks@.take(i as int));
        if tracks[i].index < m {
            m = tracks[i].index;
        }
        i = i + 1;
    }
    assert(tracks@.take(tracks.len() as int) == tracks@);
    m
}

/// Whether a group is written into the disc title: it has a title and
/// tracks.
pub open spec fn is_titled(g: Group) -> bool {
    g.title is Some && g.tracks@.len() > 0
}

/// The key groups are ordered by in the disc title: their first track.
pub open spec fn group_key(g: Group) -> u16 {
    min_index(g.tracks@)
}

/// The groups that are written into the disc title, in their order.
pub open spec fn titled_groups(gs: Seq<Group>) -> Seq<Group>
    decreases gs.len(),
{
    if gs.len() == 0 {
        seq![]
    } else if is_titled(gs.last()) {
        titled_groups(gs.drop_last()).push(gs.last())
    } else {
        titled_groups(gs.drop_last())
    }
}

/// `g` placed after every group of `sorted` whose key is not greater than its
/// own: one step of a stable sort by key.
pub open spec fn insert_by_key(sorted: Seq<Group>, g: Group) -> Seq<Group>
    decreases sorted.len(),
{
    if sorted.len() == 0 {
        seq![g]
    } else if group_key(sorted.last()) <= group_key(g) {
        sorted.push(g)
    } else {
        insert_by_key(sorted.drop_last(), g).push(sorted.last())
    }
}

/// The groups stably sorted by key, as `sort_by_key` orders them.
pub open spec fn sort_by_first_track(gs: Seq<Group>) -> Seq<Group>
    decreases gs.len(),
{
    if gs.len() == 0 {
        seq![]
    } else {
        insert_by_key(sort_by_first_track(gs.drop_last()), gs.last())
    }
}

/// The title text of an optional title, empty where there is none.
pub open spec fn title_or_empty(t: Option<String>) -> Seq<char> {
    match t {
        Some(s) => s@,
        None => seq![],
    }
}

/// How one existing group is written into the half-width disc title.
pub open spec fn half_segment(g: Group) -> Seq<char> {
    range_text(group_key(g), g.tracks@.len() as u16) + ";"@ + sanitize_half(title_or_empty(g.title))
        + "//"@
}

/// How one existing group is written into the full-width disc title.
pub open spec fn full_segment(g: Group) -> Seq<char> {
    full_width_range(range_text(group_key(g), g.tracks@.len() as u16)) + "\u{ff1b}"@
        + sanitize_full(title_or_empty(g.full_width_title)) + "\u{ff0f}\u{ff0f}"@
}

/// The half-width segments of the given groups, in order.
pub open spec fn half_segments(gs: Seq<Group>) -> Seq<char>
    decreases gs.len(),
{
    if gs.len() == 0 {
        seq![]
    } else {
        half_segments(gs.drop_last()) + half_segment(gs.last())
    }
}

/// The full-width segments of the given groups, in order.
pub open spec fn full_segments(gs: Seq<Group>) -> Seq<char>
    decreases gs.len(),
{
    if gs.len() == 0 {
        seq![]
    } else {
        full_segments(gs.drop_last()) + full_segment(gs.last())
    }
}

/// Whether the ranges of the disc's titled groups can be computed in `u16`.
pub open spec fn groups_fit(gs: Seq<Group>) -> bool {
    forall|i: int|
        0 <= i < gs.len() && is_titled(#[trigger] gs[i]) ==> range_fits(
            group_key(gs[i]),
            gs[i].tracks@.len() as u16,
        )
}

/// The half-width disc title that keeps the disc title and the existing
/// groups and adds a group of `count` tracks from `start` named `title`.
pub open spec fn half_width_titles(disc: Disc, start: u16, count: u16, title: Seq<char>) -> Seq<
    char,
> {
    (if is_blank(disc.title@) {
        seq![]
    } else {
        "0;"@ + sanitize_half(disc.title@) + "//"@
    }) + half_segments(sort_by_first_track(titled_groups(disc.groups@))) + range_text(start, count)
        + ";"@ + sanitize_half(title) + "//"@
}

/// The full-width disc title that keeps the disc title and the existing
/// groups and adds an untitled full-width entry for the new group.
pub open spec fn full_width_titles(disc: Disc, start: u16, count: u16) -> Seq<char> {
    (if is_blank(disc.full_width_title@) {
        seq![]
    } else {
        "\u{ff10}\u{ff1b}"@ + sanitize_full(disc.full_width_title@) + "\u{ff0f}\u{ff0f}"@
    }) + full_segments(sort_by_first_track(titled_groups(disc.groups@))) + full_width_range(
        range_text(start, count),
    ) + "\u{ff1b}\u{ff0f}\u{ff0f}"@
}

/// Whether every group of `s` is written into the disc title.
pub open spec fn all_titled(s: Seq<Group>) -> bool {
    forall|j: int| 0 <= j < s.len() ==> is_titled(#[trigger] s[j])
}

proof fn lemma_titled_all(gs: Seq<Group>)
    ensures
        all_titled(titled_groups(gs)),
    decreases gs.len(),
{
    if gs.len() > 0 {
        lemma_titled_all(gs.drop_last());
    }
}

proof fn lemma_insert_keeps_titled(s: Seq<Group>, g: Group)
    requires
        all_titled(s),
        is_titled(g),
    ensures
        all_titled(insert_by_key(s, g)),
    decreases s.len(),
{
    if s.len() > 0 && group_key(s.last()) > group_key(g) {
        lemma_insert_keeps_titled(s.drop_last(), g);
    }
}

proof fn lemma_sort_keeps_titled(s: Seq<Group>)
    requires
        all_titled(s),
    ensures
        all_titled(sort_by_first_track(s)),
    decreases s.len(),
{
    if s.len() > 0 {
        lemma_sort_keeps_titled(s.drop_last());
        lemma_insert_keeps_titled(sort_by_first_track(s.drop_last()), s.last());
    }
}

proof fn lemma_insert_at(s: Seq<Group>, g: Group, p: int)
    requires
        0 <= p <= s.len(),
        p == 0 || group_key(s[p - 1]) <= group_key(g),
        forall|j: int| p <= j < s.len() ==> group_key(#[trigger] s[j]) > group_key(g),
    ensures
        insert_by_key(s, g) == s.take(p).push(g) + s.skip(p),
    decreases s.len(),
{
    if s.len() == 0 {
        assert(s.take(p).push(g) + s.skip(p) == seq![g]);
    } else if p == s.len() {
        assert(s.take(p) == s);
        assert(s.skip(p).len() == 0);
        assert(s.take(p).push(g) + s.skip(p) == s.push(g));
    } else {
        let init = s.drop_last();
        assert forall|j: int| p <= j < init.len() implies group_key(#[trigger] init[j]) > group_key(
            g,
        ) by {
            assert(init[j] == s[j]);
        }
        if p > 0 {
            assert(init[p - 1] == s[p - 1]);
        }
        lemma_insert_at(init, g, p);
        assert(init.take(p) == s.take(p));
        assert((init.take(p).push(g) + init.skip(p)).push(s.last()) == s.take(p).push(g) + s.skip(
            p,
        ));
    }
}

/// The groups written into the disc title, as indices into `groups`,
/// stably sorted by their first track.
fn sorted_titled_groups(groups: &Vec<Group>) -> (idx: Vec<usize>)
    ensures
        forall|k: int| 0 <= k < idx@.len() ==> idx@[k] < groups@.len(),
        idx@.map_values(|i: usize| groups@[i as int]) == sort_by_first_track(
            titled_groups(groups@),
        ),
{
    let mut keys: Vec<u16> = Vec::new();
    let mut idx: Vec<usize> = Vec::new();
    let mut n: usize = 0;
    let ghost mut picked: Seq<Group> = seq![];
    assert(groups@.take(0) == Seq::<Group>::empty());
    while n < groups.len()
        invariant
            n <= groups.len(),
            keys@.len() == n,
            forall|k: int| 0 <= k < n ==> keys@[k] == group_key(#[trigger] groups@[k]),
            forall|k: int| 0 <= k < idx@.len() ==> idx@[k] < n,
            picked == titled_groups(groups@.take(n as int)),
            idx@.map_values(|i: usize| groups@[i as int]) == sort_by_first_track(picked),
        decreases groups.len() - n,
    {
        let g = &groups[n];
        let key = min_track_index(&g.tracks);
        keys.push(key);
        assert(groups@.take(n + 1).drop_last() == groups@.take(n as int));
        assert(groups@.take(n + 1).last() == groups@[n as int]);
        if g.title.is_some() && g.tracks.len() > 0 {
            let ghost sorted = idx@.map_values(|i: usize| groups@[i as int]);
            let mut p = idx.len();
            while p > 0 && keys[idx[p - 1]] > key
                invariant
                    p <= idx@.len(),
                    keys@.len() == n + 1,
                    forall|k: int| 0 <= k <= n ==> keys@[k] == group_key(#[trigger] groups@[k]),
                    forall|k: int| 0 <= k < idx@.len() ==> idx@[k] < n,
                    sorted == idx@.map_values(|i: usize| groups@[i as int]),
                    key == group_key(groups@[n as int]),
                    forall|j: int|
                        p <= j < sorted.len() ==> group_key(#[trigger] sorted[j]) > key,
                decreases p,
            {
                assert(sorted[p - 1] == groups@[idx@[p - 1] as int]);
                p = p - 1;
            }
            let ghost old_picked = picked;
            proof {
                if p > 0 {
                    assert(sorted[p - 1] == groups@[idx@[p - 1] as int]);
                }
                lemma_insert_at(sorted, groups@[n as int], p as int);
                picked = picked.push(groups@[n as int]);
                assert(picked.drop_last() == old_picked);
            }
            let ghost old_idx = idx@;
            idx.insert(p, n);
            assert(idx@ == old_idx.insert(p as int, n));
            assert(idx@.map_values(|i: usize| groups@[i as int]) == sorted.take(p as int).push(
                groups@[n as int],
            ) + sorted.skip(p as int));
            assert(sort_by_first_track(picked) == insert_by_key(sorted, groups@[n as int]));
        }
        n = n + 1;
    }
    assert(groups@.take(groups.len() as int) == groups@);
    idx
}

fn title_chars(t: &Option<String>) -> (r: Vec<char>)
    ensures
        r@ == title_or_empty(*t),
{
    match t {
        Some(s) => chars_of(s.as_str()),
        None => Vec::new(),
    }
}

fn append(a: &mut Vec<char>, b: &Vec<char>)
    ensures
        final(a)@ == old(a)@ + b@,
{
    let r = concat_chars(a, b);
    *a = r;
}

/// The half-width and full-width disc titles that keep the disc title and
/// its existing groups, ordered by their first track, and add a group of
/// `track_count` tracks from `start_track_index` named `title`.
pub fn compile_group_titles(disc: &Disc, start_track_index: u16, track_count: u16, title: &str) -> (r:
    (String, String))
    requires
        groups_fit(disc.groups@),
        range_fits(start_track_index, track_count),
    ensures
        r.0@ == half_width_titles(*disc, start_track_index, track_count, title@),
        r.1@ == full_width_titles(*disc, start_track_index, track_count),
{
    let order = sorted_titled_groups(&disc.groups);
    let ghost sorted = sort_by_first_track(titled_groups(disc.groups@));
    let mut half: Vec<char> = Vec::new();
    let disc_title = chars_of(disc.title.as_str());
    if !blank(&disc_title) {
        half = chars_of("0;");
        append(&mut half, &chars_of(sanitize_half_width_component(disc.title.as_str()).as_str()));
        append(&mut half, &chars_of("//"));
    }
    let mut full: Vec<char> = Vec::new();
    let disc_full = chars_of(disc.full_width_title.as_str());
    if !blank(&disc_full) {
        full = chars_of("\u{ff10}\u{ff1b}");
        append(
            &mut full,
            &chars_of(sanitize_full_width_component(disc.full_width_title.as_str()).as_str()),
        );
        append(&mut full, &chars_of("\u{ff0f}\u{ff0f}"));
    }
    let ghost half_prefix = half@;
    let ghost full_prefix = full@;
    let mut k: usize = 0;
    assert(sorted.take(0) == Seq::<Group>::empty());
    proof {
        lemma_titled_all(disc.groups@);
        lemma_sort_keeps_titled(titled_groups(disc.groups@));
    }
    while k < order.len()
        invariant
            k <= order@.len(),
            forall|j: int| 0 <= j < order@.len() ==> order@[j] < disc.groups@.len(),
            order@.map_values(|i: usize| disc.groups@[i as int]) == sorted,
            sorted == sort_by_first_track(titled_groups(disc.groups@)),
            groups_fit(disc.groups@),
            all_titled(sorted),
            half@ == half_prefix + half_segments(sorted.take(k as int)),
            full@ == full_prefix + full_segments(sorted.take(k as int)),
        decreases order.len() - k,
    {
        let g = &disc.groups[order[k]];
        assert(sorted[k as int] == disc.groups@[order@[k as int] as int]);
        assert(is_titled(sorted[k as int]));
        let key = min_track_index(&g.tracks);
        #[verifier::truncate]
        let count = g.tracks.len() as u16;
        assert(count == g.tracks@.len() as u16);
        let range = range_chars(key, count);
        let mut seg = concat_chars(&range, &chars_of(";"));
        let gt = title_chars(&g.title);
        append(&mut seg, &chars_of(sanitize_half_width_component(string_of(&gt).as_str()).as_str()));
        append(&mut seg, &chars_of("//"));
        append(&mut half, &seg);
        let mut fseg = concat_chars(&full_width_chars(&range), &chars_of("\u{ff1b}"));
        let ft = title_chars(&g.full_width_title);
        append(
            &mut fseg,
            &chars_of(sanitize_full_width_component(string_of(&ft).as_str()).as_str()),
        );
        append(&mut fseg, &chars_of("\u{ff0f}\u{ff0f}"));
        append(&mut full, &fseg);
        assert(sorted.take(k + 1).drop_last() == sorted.take(k as int));
        assert(sorted.take(k + 1).last() == sorted[k as int]);
        k = k + 1;
    }
    assert(sorted.take(order.len() as int) == sorted);
    let range = range_chars(start_track_index, track_count);
    append(&mut half, &range);
    append(&mut half, &chars_of(";"));
    append(&mut half, &chars_of(sanitize_half_width_component(title).as_str()));
    append(&mut half, &chars_of("//"));
    append(&mut full, &full_width_chars(&range));
    append(&mut full, &chars_of("\u{ff1b}\u{ff0f}\u{ff0f}"));
    (string_of(&half), string_of(&full))
}

/// The decision on a request to group `track_count` tracks, before the disc
/// is read: the disc must take writes and the group must not be empty.
pub fn check_group_request(flags: u8, track_count: u16) -> (r: Result<(), DeviceError>)
    ensures
        r is Ok <==> flags_writable(flags) && !flags_write_protected(flags) && track_count > 0,
        flags_write_protected(flags) ==> r matches Err(DeviceError::WriteProtected),
        !flags_write_protected(flags) && !flags_writable(flags) ==> r matches Err(
            DeviceError::NotWritable,
        ),
        flags_writable(flags) && !flags_write_protected(flags) && track_count == 0 ==> r matches Err(
            DeviceError::EmptyGroup,
        ),
{
    check_disc_writable(flags)?;
    if track_count == 0 {
        return Err(DeviceError::EmptyGroup);
    }
    Ok(())
}

/// Whether planning a group computes every track number within `u16`: the
/// range check itself adds one to the last track of the range, and the
/// titles are built only for a range that lies on the disc.
pub open spec fn group_plan_fits(disc: Disc, start: u16, count: u16) -> bool {
    let end = start + count - 1;
    ||| end > u16::MAX
    ||| end < u16::MAX && (end >= disc.track_count || (range_fits(start, count) && groups_fit(
        disc.groups@,
    )))
}

fn groups_fit_exec(groups: &Vec<Group>) -> (r: bool)
    ensures
        r == groups_fit(groups@),
{
    let mut i: usize = 0;
    while i < groups.len()
        invariant
            i <= groups.len(),
            forall|j: int|
                0 <= j < i && is_titled(#[trigger] groups@[j]) ==> range_fits(
                    group_key(groups@[j]),
                    groups@[j].tracks@.len() as u16,
                ),
        decreases groups.len() - i,
    {
        let g = &groups[i];
        if g.title.is_some() && g.tracks.len() > 0 {
            let key = min_track_index(&g.tracks);
            #[verifier::truncate]
            let count = g.tracks.len() as u16;
            assert(count == g.tracks@.len() as u16);
            let fits = key < u16::MAX && (count == 1 || (key as u32) + 1 + (count as u32)
                <= 0xffff);
            if !fits {
                return false;
            }
        }
        i = i + 1;
    }
    true
}

/// Whether `plan_group_titles` can be asked for this group.
pub fn group_plan_computable(disc: &Disc, start_track_index: u16, track_count: u16) -> (r: bool)
    requires
        track_count > 0,
    ensures
        r == group_plan_fits(*disc, start_track_index, track_count),
{
    let end = start_track_index as u32 + track_count as u32 - 1;
    if end > 0xffff {
        return true;
    }
    if end == 0xffff {
        return false;
    }
    if end as usize >= disc.track_count {
        return true;
    }
    let start = start_track_index;
    let fits = start < u16::MAX && (track_count == 1 || (start as u32) + 1 + (track_count as u32)
        <= 0xffff);
    fits && groups_fit_exec(&disc.groups)
}

/// The disc titles that add a group named `title` of `track_count` tracks
/// from the 0-based `start_track_index`, or why the range cannot be grouped.
pub fn plan_group_titles(disc: &Disc, start_track_index: u16, track_count: u16, title: &str) -> (r:
    Result<(String, String), DeviceError>)
    requires
        track_count > 0,
        group_plan_fits(*disc, start_track_index, track_count),
    ensures
        ({
            let end = start_track_index + track_count - 1;
            &&& end > u16::MAX ==> (r matches Err(DeviceError::CreateGroup(m)) && m@
                == "track range exceeds supported track numbers"@)
            &&& end <= u16::MAX && end >= disc.track_count ==> (r matches Err(
                DeviceError::TrackNumberOutOfRange { track_number, track_count: c },
            ) && track_number == end + 1 && c == disc.track_count as u16)
            &&& end <= u16::MAX && end < disc.track_count ==> (r matches Ok((half, full)) && half@
                == half_width_titles(*disc, start_track_index, track_count, title@) && full@
                == full_width_titles(*disc, start_track_index, track_count))
        }),
{
    let end_track_index = match start_track_index.checked_add(track_count - 1) {
        Some(end) => end,
        None => {
            return Err(
                DeviceError::CreateGroup(
                    string_of(&chars_of("track range exceeds supported track numbers")),
                ),
            );
        },
    };
    if end_track_index as usize >= disc.track_count {
        #[verifier::truncate]
        let count = disc.track_count as u16;
        return Err(
            DeviceError::TrackNumberOutOfRange {
                track_number: end_track_index + 1,
                track_count: count,
            },
        );
    }
    Ok(compile_group_titles(disc, start_track_index, track_count, title))
}

/// Whether the groups come in order of their first track.
pub open spec fn keys_sorted(s: Seq<Group>) -> bool {
    forall|i: int, j: int| 0 <= i <= j < s.len() ==> group_key(s[i]) <= group_key(s[j])
}

proof fn lemma_insert_bounded(s: Seq<Group>, g: Group, b: u16)
    requires
        forall|j: int| 0 <= j < s.len() ==> group_key(#[trigger] s[j]) <= b,
        group_key(g) <= b,
    ensures
        forall|j: int|
            0 <= j < insert_by_key(s, g).len() ==> group_key(#[trigger] insert_by_key(s, g)[j]) <= b,
    decreases s.len(),
{
    if s.len() > 0 && group_key(s.last()) > group_key(g) {
        let init = s.drop_last();
        assert forall|j: int| 0 <= j < init.len() implies group_key(#[trigger] init[j]) <= b by {
            assert(init[j] == s[j]);
        }
        lemma_insert_bounded(init, g, b);
        let r = insert_by_key(init, g);
        assert(insert_by_key(s, g) == r.push(s.last()));
        assert forall|j: int|
            0 <= j < insert_by_key(s, g).len() implies group_key(
            #[trigger] insert_by_key(s, g)[j],
        ) <= b by {
            if j < r.len() {
                assert(insert_by_key(s, g)[j] == r[j]);
            } else {
                assert(insert_by_key(s, g)[j] == s.last());
            }
        }
    }
}

proof fn lemma_insert_sorted(s: Seq<Group>, g: Group)
    requires
        keys_sorted(s),
    ensures
        keys_sorted(insert_by_key(s, g)),
        insert_by_key(s, g).to_multiset() == s.to_multiset().insert(g),
    decreases s.len(),
{
    broadcast use vstd::seq_lib::to_multiset_build;

    if s.len() == 0 {
        assert(insert_by_key(s, g) == s.push(g));
    } else if group_key(s.last()) <= group_key(g) {
    } else {
        let init = s.drop_last();
        lemma_insert_sorted(init, g);
        lemma_insert_bounded(init, g, group_key(s.last()));
        assert(init.push(s.last()) == s);
        assert(s.to_multiset() == init.to_multiset().insert(s.last()));
        assert(insert_by_key(init, g).push(s.last()).to_multiset() == insert_by_key(
            init,
            g,
        ).to_multiset().insert(s.last()));
        assert(init.to_multiset().insert(g).insert(s.last()) =~= init.to_multiset().insert(
            s.last(),
        ).insert(g));
    }
}

/// The groups in a disc title come in order of their first track, and they
/// are exactly the titled groups of the disc, each once.
pub proof fn lemma_group_order(gs: Seq<Group>)
    ensures
        keys_sorted(sort_by_first_track(titled_groups(gs))),
        sort_by_first_track(titled_groups(gs)).to_multiset() == titled_groups(gs).to_multiset(),
{
    lemma_sort_sorted(titled_groups(gs));
}

proof fn lemma_sort_sorted(s: Seq<Group>)
    ensures
        keys_sorted(sort_by_first_track(s)),
        sort_by_first_track(s).to_multiset() == s.to_multiset(),
    decreases s.len(),
{
    broadcast use vstd::seq_lib::to_multiset_build;

    if s.len() == 0 {
        assert(s =~= Seq::<Group>::empty());
        assert(sort_by_first_track(s) =~= Seq::<Group>::empty());
    } else {
        lemma_sort_sorted(s.drop_last());
        lemma_insert_sorted(sort_by_first_track(s.drop_last()), s.last());
        assert(s.drop_last().push(s.last()) == s);
    }
}

/// Whether `t` has no three slashes in a row.
pub open spec fn no_triple_slash(t: Seq<char>) -> bool {
    forall|i: int| 0 <= i && i + 2 < t.len() ==> !(#[trigger] t[i] == '/' && t[i + 1] == '/' && t[i + 2]
        == '/')
}

/// Whether `t` has no two slashes in a row (no separator).
pub open spec fn no_separator(t: Seq<char>) -> bool {
    forall|i: int| 0 <= i && i + 1 < t.len() ==> !(#[trigger] t[i] == '/' && t[i + 1] == '/')
}

proof fn lemma_sanitize_half_shape(t: Seq<char>)
    ensures
        sanitize_half(t).len() == t.len(),
        forall|i: int| 0 <= i < t.len() && t[i] != '/' ==> #[trigger] sanitize_half(t)[i] == t[i],
        forall|i: int| 0 <= i < t.len() && #[trigger] sanitize_half(t)[i] == '/' ==> t[i] == '/',
        no_triple_slash(t) ==> no_separator(sanitize_half(t)),
    decreases t.len(),
{
    reveal_strlit("//");
    reveal_strlit(" /");
    let r = sanitize_half(t);
    if t.len() == 0 {
    } else if starts_with(t, "//"@) {
        let rest = t.skip(2);
        lemma_sanitize_half_shape(rest);
        let r2 = sanitize_half(rest);
        assert(t.take(2) == "//"@);
        assert(t[0] == '/' && t[1] == '/') by {
            assert(t[0] == t.take(2)[0]);
            assert(t[1] == t.take(2)[1]);
        }
        assert(r == " /"@ + r2);
        assert forall|i: int| 0 <= i < t.len() && t[i] != '/' implies #[trigger] r[i] == t[i] by {
            assert(i >= 2);
            assert(r[i] == r2[i - 2]);
            assert(rest[i - 2] == t[i]);
        }
        assert forall|i: int| 0 <= i < t.len() && #[trigger] r[i] == '/' implies t[i] == '/' by {
            if i >= 2 {
                assert(r[i] == r2[i - 2]);
                assert(rest[i - 2] == t[i]);
            }
        }
        if no_triple_slash(t) {
            assert(no_triple_slash(rest)) by {
                assert forall|i: int| 0 <= i && i + 2 < rest.len() implies !(#[trigger] rest[i]
                    == '/' && rest[i + 1] == '/' && rest[i + 2] == '/') by {
                    assert(rest[i] == t[i + 2]);
                    assert(rest[i + 1] == t[i + 3]);
                    assert(rest[i + 2] == t[i + 4]);
                    assert(!(t[i + 2] == '/' && t[i + 3] == '/' && t[i + 4] == '/'));
                }
            }
            assert forall|i: int| 0 <= i && i + 1 < r.len() implies !(#[trigger] r[i] == '/'
                && r[i + 1] == '/') by {
                if i == 1 && r2.len() > 0 {
                    assert(r[2] == r2[0]);
                    if r2[0] == '/' {
                        assert(rest[0] == '/');
                        assert(t[2] == '/');
                        assert(!(t[0] == '/' && t[1] == '/' && t[2] == '/'));
                    }
                } else if i >= 2 {
                    assert(r[i] == r2[i - 2]);
                    assert(r[i + 1] == r2[i - 1]);
                }
            }
        }
    } else {
        let rest = t.drop_first();
        lemma_sanitize_half_shape(rest);
        let r2 = sanitize_half(rest);
        assert(r == seq![t[0]] + r2);
        assert forall|i: int| 0 <= i < t.len() && t[i] != '/' implies #[trigger] r[i] == t[i] by {
            if i >= 1 {
                assert(r[i] == r2[i - 1]);
                assert(rest[i - 1] == t[i]);
            }
        }
        assert forall|i: int| 0 <= i < t.len() && #[trigger] r[i] == '/' implies t[i] == '/' by {
            if i >= 1 {
                assert(r[i] == r2[i - 1]);
                assert(rest[i - 1] == t[i]);
            }
        }
        if no_triple_slash(t) {
            assert(no_triple_slash(rest)) by {
                assert forall|i: int| 0 <= i && i + 2 < rest.len() implies !(#[trigger] rest[i]
                    == '/' && rest[i + 1] == '/' && rest[i + 2] == '/') by {
                    assert(rest[i] == t[i + 1]);
                    assert(rest[i + 1] == t[i + 2]);
                    assert(rest[i + 2] == t[i + 3]);
                    assert(!(t[i + 1] == '/' && t[i + 2] == '/' && t[i + 3] == '/'));
                }
            }
            assert forall|i: int| 0 <= i && i + 1 < r.len() implies !(#[trigger] r[i] == '/'
                && r[i + 1] == '/') by {
                if i == 0 {
                    assert(r[1] == r2[0]);
                    if t[0] == '/' && r2[0] == '/' {
                        assert(rest[0] == '/');
                        assert(t[1] == '/');
                        assert(t.take(2) =~= "//"@);
                    }
                } else {
                    assert(r[i] == r2[i - 1]);
                    assert(r[i + 1] == r2[i]);
                }
            }
        }
    }
}

/// How the new group's title sits in the half-width disc title: the title
/// ends with the group's range, `;`, the group title of the same length with
/// every character other than `/` kept and no `/` added, and the `//`
/// separator; and where the group title has no three slashes in a row, its
/// part holds no `//`, so it cannot split into a second segment.
pub proof fn lemma_new_group_segment(disc: Disc, start: u16, count: u16, title: Seq<char>)
    ensures
        ({
            let half = half_width_titles(disc, start, count, title);
            let range = range_text(start, count) + ";"@;
            let n = title.len() as int;
            let part = half.subrange(half.len() - 2 - n, half.len() - 2);
            &&& half.len() >= range.len() + n + 2
            &&& half.subrange(half.len() - 2 - n - range.len(), half.len() - 2 - n) == range
            &&& half.subrange(half.len() - 2, half.len() as int) == "//"@
            &&& forall|i: int| 0 <= i < n && title[i] != '/' ==> #[trigger] part[i] == title[i]
            &&& forall|i: int| 0 <= i < n && #[trigger] part[i] == '/' ==> title[i] == '/'
            &&& no_triple_slash(title) ==> no_separator(part)
        }),
{
    reveal_strlit("//");
    let half = half_width_titles(disc, start, count, title);
    let q = (if is_blank(disc.title@) {
        seq![]
    } else {
        "0;"@ + sanitize_half(disc.title@) + "//"@
    }) + half_segments(sort_by_first_track(titled_groups(disc.groups@)));
    let range = range_text(start, count) + ";"@;
    let sh = sanitize_half(title);
    lemma_sanitize_half_shape(title);
    assert(half =~= q + range + sh + "//"@);
    let n = title.len() as int;
    assert(half.subrange(half.len() - 2 - n, half.len() - 2) =~= sh);
    assert(half.subrange(half.len() - 2 - n - range.len(), half.len() - 2 - n) =~= range);
    assert(half.subrange(half.len() - 2, half.len() as int) =~= "//"@);
}

} // verus!
