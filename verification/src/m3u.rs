use vstd::prelude::*;

use crate::text::{
    chars_of, concat_chars, find_char, push_chars, push_str, starts_with, starts_with_exec, string_of,
    sub_chars, trim, trim_chars, split_on,
};

verus! {

/// `std::io::Error`, carried through when a playlist cannot be read.
#[verifier::external_type_specification]
#[verifier::external_body]
pub struct ExIoError(std::io::Error);

/// A parsed M3U playlist: its title, if it names one, and its local tracks in
/// order.
#[derive(Debug, Clone, PartialEq, Eq)]
pub struct Playlist {
    pub title: Option<String>,
    pub tracks: Vec<PlaylistTrack>,
}

/// One playlist entry: its path, resolved against the playlist's directory,
/// and the title from the `#EXTINF` line before it, if any.
#[derive(Debug, Clone, PartialEq, Eq)]
pub struct PlaylistTrack {
    pub path: String,
    pub title: Option<String>,
}

/// Why a playlist cannot be used.
#[derive(Debug)]
pub enum M3uError {
    Read { path: String, source: std::io::Error },
    NoTracks,
}

/// What a playlist entry denotes.
pub struct PlaylistTrackView {
    pub path: Seq<char>,
    pub title: Option<Seq<char>>,
}

/// What a playlist denotes.
pub struct PlaylistView {
    pub title: Option<Seq<char>>,
    pub tracks: Seq<PlaylistTrackView>,
}

/// The characters of an optional string.
pub open spec fn opt_chars(o: Option<String>) -> Option<Seq<char>> {
    match o {
        Some(s) => Some(s@),
        None => None,
    }
}

impl View for PlaylistTrack {
    type V = PlaylistTrackView;

    open spec fn view(&self) -> PlaylistTrackView {
        PlaylistTrackView { path: self.path@, title: opt_chars(self.title) }
    }
}

/// The views of a sequence of playlist entries.
pub open spec fn tracks_view(tracks: Seq<PlaylistTrack>) -> Seq<PlaylistTrackView> {
    tracks.map_values(|t: PlaylistTrack| t@)
}

impl View for Playlist {
    type V = PlaylistView;

    open spec fn view(&self) -> PlaylistView {
        PlaylistView { title: opt_chars(self.title), tracks: tracks_view(self.tracks@) }
    }
}

/// The trimmed text, or nothing where it is blank.
pub open spec fn non_empty(s: Seq<char>) -> Option<Seq<char>> {
    if trim(s).len() == 0 {
        None
    } else {
        Some(trim(s))
    }
}

/// What follows the first `c` in `s`, if `s` holds one.
pub open spec fn after_first(s: Seq<char>, c: char) -> Option<Seq<char>>
    decreases s.len(),
{
    if s.len() == 0 {
        None
    } else if s[0] == c {
        Some(s.drop_first())
    } else {
        after_first(s.drop_first(), c)
    }
}

/// The title of an `#EXTINF:` entry: what follows its first comma, unless
/// that is blank.
pub open spec fn extinf_title(rest: Seq<char>) -> Option<Seq<char>> {
    match after_first(rest, ',') {
        Some(t) => non_empty(t),
        None => None,
    }
}

/// `entry` as a path: taken as it is where it is absolute, else joined to
/// `base` with one separator, as `Path::join` does on Unix.
pub open spec fn resolve_path(base: Seq<char>, entry: Seq<char>) -> Seq<char> {
    if entry.len() > 0 && entry[0] == '/' {
        entry
    } else if base.len() == 0 || base.last() == '/' {
        base + entry
    } else {
        base + seq!['/'] + entry
    }
}

/// The playlist title made of the `#EXTART` and `#EXTALB` values.
pub open spec fn artist_album(artist: Option<Seq<char>>, album: Option<Seq<char>>) -> Option<
    Seq<char>,
> {
    match (artist, album) {
        (Some(a), Some(b)) => Some(a + " - "@ + b),
        (Some(a), None) => Some(a),
        (None, Some(b)) => Some(b),
        (None, None) => None,
    }
}

/// What the scan of a playlist has gathered so far.
pub struct PlaylistScan {
    pub title: Option<Seq<char>>,
    pub artist: Option<Seq<char>>,
    pub album: Option<Seq<char>>,
    pub pending: Option<Seq<char>>,
    pub tracks: Seq<PlaylistTrackView>,
}

/// The scan before any line.
pub open spec fn empty_scan() -> PlaylistScan {
    PlaylistScan { title: None, artist: None, album: None, pending: None, tracks: seq![] }
}

/// The scan after one more line of the playlist.
pub open spec fn scan_line(st: PlaylistScan, raw: Seq<char>, base: Seq<char>) -> PlaylistScan {
    let line = trim(raw);
    if line.len() == 0 {
        st
    } else if starts_with(line, "#PLAYLIST:"@) {
        PlaylistScan { title: non_empty(line.skip("#PLAYLIST:"@.len() as int)), ..st }
    } else if starts_with(line, "#EXTART:"@) {
        PlaylistScan { artist: non_empty(line.skip("#EXTART:"@.len() as int)), ..st }
    } else if starts_with(line, "#EXTALB:"@) {
        PlaylistScan { album: non_empty(line.skip("#EXTALB:"@.len() as int)), ..st }
    } else if starts_with(line, "#EXTINF:"@) {
        PlaylistScan { pending: extinf_title(line.skip("#EXTINF:"@.len() as int)), ..st }
    } else if line[0] == '#' {
        st
    } else {
        PlaylistScan {
            pending: None,
            tracks: st.tracks.push(
                PlaylistTrackView { path: resolve_path(base, line), title: st.pending },
            ),
            ..st
        }
    }
}

/// The scan after the given lines.
pub open spec fn scan_lines(lines: Seq<Seq<char>>, base: Seq<char>) -> PlaylistScan
    decreases lines.len(),
{
    if lines.len() == 0 {
        empty_scan()
    } else {
        scan_line(scan_lines(lines.drop_last(), base), lines.last(), base)
    }
}

/// The scan of a whole playlist text.
pub open spec fn scan_playlist(contents: Seq<char>, base: Seq<char>) -> PlaylistScan {
    scan_lines(split_on(contents, '\n'), base)
}

/// What `parse_playlist` gives for a text whose scan found tracks.
pub open spec fn playlist_of(st: PlaylistScan) -> PlaylistView {
    PlaylistView {
        title: match st.title {
            Some(t) => Some(t),
            None => artist_album(st.artist, st.album),
        },
        tracks: st.tracks,
    }
}

struct ScanState {
    title: Option<Vec<char>>,
    artist: Option<Vec<char>>,
    album: Option<Vec<char>>,
    pending: Option<Vec<char>>,
    tracks: Vec<PlaylistTrack>,
}

spec fn opt_vec(o: Option<Vec<char>>) -> Option<Seq<char>> {
    match o {
        Some(v) => Some(v@),
        None => None,
    }
}

impl View for ScanState {
    type V = PlaylistScan;

    closed spec fn view(&self) -> PlaylistScan {
        PlaylistScan {
            title: opt_vec(self.title),
            artist: opt_vec(self.artist),
            album: opt_vec(self.album),
            pending: opt_vec(self.pending),
            tracks: tracks_view(self.tracks@),
        }
    }
}

struct Markers {
    playlist: Vec<char>,
    artist: Vec<char>,
    album: Vec<char>,
    extinf: Vec<char>,
}

impl Markers {
    spec fn wf(&self) -> bool {
        &&& self.playlist@ == "#PLAYLIST:"@
        &&& self.artist@ == "#EXTART:"@
        &&& self.album@ == "#EXTALB:"@
        &&& self.extinf@ == "#EXTINF:"@
    }

    fn new() -> (m: Markers)
        ensures
            m.wf(),
    {
        Markers {
            playlist: chars_of("#PLAYLIST:"),
            artist: chars_of("#EXTART:"),
            album: chars_of("#EXTALB:"),
            extinf: chars_of("#EXTINF:"),
        }
    }
}

/// The trimmed characters of `v`, or nothing where they are blank.
fn non_empty_chars(v: &Vec<char>) -> (r: Option<Vec<char>>)
    ensures
        opt_vec(r) == non_empty(v@),
{
    let t = trim_chars(v);
    if t.len() == 0 {
        None
    } else {
        Some(t)
    }
}

/// The characters of `v` after its first `prefix.len()` ones.
fn skip_chars(v: &Vec<char>, n: usize) -> (r: Vec<char>)
    requires
        n <= v.len(),
    ensures
        r@ == v@.skip(n as int),
{
    let r = sub_chars(v, n, v.len());
    assert(r@ == v@.skip(n as int));
    r
}

fn extinf_title_chars(rest: &Vec<char>) -> (r: Option<Vec<char>>)
    ensures
        opt_vec(r) == extinf_title(rest@),
{
    match find_char(rest, ',') {
        Some(i) => {
            proof {
                lemma_after_first_at(rest@, ',', i as int);
            }
            let after = skip_chars(rest, i + 1);
            non_empty_chars(&after)
        },
        None => {
            proof {
                lemma_after_first_none(rest@, ',');
            }
            None
        },
    }
}

proof fn lemma_after_first_at(s: Seq<char>, c: char, i: int)
    requires
        0 <= i < s.len(),
        s[i] == c,
        forall|j: int| 0 <= j < i ==> s[j] != c,
    ensures
        after_first(s, c) == Some(s.skip(i + 1)),
    decreases i,
{
    if i > 0 {
        assert forall|j: int| 0 <= j < i - 1 implies s.drop_first()[j] != c by {
            assert(s.drop_first()[j] == s[j + 1]);
        }
        lemma_after_first_at(s.drop_first(), c, i - 1);
        assert(s.drop_first().skip(i) == s.skip(i + 1));
    }
}

proof fn lemma_after_first_none(s: Seq<char>, c: char)
    requires
        forall|j: int| 0 <= j < s.len() ==> s[j] != c,
    ensures
        after_first(s, c) is None,
    decreases s.len(),
{
    if s.len() > 0 {
        assert forall|j: int| 0 <= j < s.len() - 1 implies s.drop_first()[j] != c by {
            assert(s.drop_first()[j] == s[j + 1]);
        }
        lemma_after_first_none(s.drop_first(), c);
    }
}

fn resolve_path_chars(base: &Vec<char>, entry: &Vec<char>) -> (r: Vec<char>)
    ensures
        r@ == resolve_path(base@, entry@),
{
    if entry.len() > 0 && entry[0] == '/' {
        sub_chars(entry, 0, entry.len())
    } else if base.len() == 0 || base[base.len() - 1] == '/' {
        concat_chars(base, entry)
    } else {
        let mut b = sub_chars(base, 0, base.len());
        b.push('/');
        assert(b@ == base@ + seq!['/']);
        concat_chars(&b, entry)
    }
}

fn string_of_opt(o: Option<Vec<char>>) -> (r: Option<String>)
    ensures
        opt_chars(r) == opt_vec(o),
{
    match o {
        Some(v) => Some(string_of(&v)),
        None => None,
    }
}

fn scan_line_exec(st: &mut ScanState, raw: &Vec<char>, base: &Vec<char>, m: &Markers)
    requires
        m.wf(),
    ensures
        final(st)@ == scan_line(old(st)@, raw@, base@),
{
    let line = trim_chars(raw);
    if line.len() == 0 {
        return;
    }
    if starts_with_exec(&line, &m.playlist) {
        st.title = non_empty_chars(&skip_chars(&line, m.playlist.len()));
        return;
    }
    if starts_with_exec(&line, &m.artist) {
        st.artist = non_empty_chars(&skip_chars(&line, m.artist.len()));
        return;
    }
    if starts_with_exec(&line, &m.album) {
        st.album = non_empty_chars(&skip_chars(&line, m.album.len()));
        return;
    }
    if starts_with_exec(&line, &m.extinf) {
        st.pending = extinf_title_chars(&skip_chars(&line, m.extinf.len()));
        return;
    }
    if line[0] == '#' {
        return;
    }
    let path = resolve_path_chars(base, &line);
    let pending = st.pending.take();
    let track = PlaylistTrack { path: string_of(&path), title: string_of_opt(pending) };
    let ghost old_tracks = st.tracks@;
    st.tracks.push(track);
    assert(tracks_view(st.tracks@) == tracks_view(old_tracks).push(track@));
}

proof fn lemma_split_step(s: Seq<char>, c: char, i: int)
    requires
        0 <= i < s.len(),
    ensures
        split_on(s.take(i + 1), c) == ({
            let init = split_on(s.take(i), c);
            if s[i] == c {
                init.push(seq![])
            } else {
                init.update(init.len() - 1, init.last().push(s[i]))
            }
        }),
{
    assert(s.take(i + 1).drop_last() == s.take(i));
}

proof fn lemma_split_nonempty(s: Seq<char>, c: char)
    ensures
        split_on(s, c).len() >= 1,
    decreases s.len(),
{
    if s.len() > 0 {
        lemma_split_nonempty(s.drop_last(), c);
    }
}

/// Parses the text of an M3U playlist whose entries are relative to
/// `base_dir`. Blank lines and unknown `#` lines are skipped; `#PLAYLIST:`,
/// `#EXTART:` and `#EXTALB:` set the playlist title and its parts (the last
/// one of each counts); `#EXTINF:` gives the title of the next entry only.
pub fn parse_playlist(contents: &str, base_dir: &str) -> (r: Result<Playlist, M3uError>)
    ensures
        scan_playlist(contents@, base_dir@).tracks.len() == 0 <==> r is Err,
        r matches Err(e) ==> e is NoTracks,
        r matches Ok(p) ==> p@ == playlist_of(scan_playlist(contents@, base_dir@)),
{
    let v = chars_of(contents);
    let base = chars_of(base_dir);
    let m = Markers::new();
    let mut st = ScanState { title: None, artist: None, album: None, pending: None, tracks: Vec::new() };
    assert(st@.tracks == Seq::<PlaylistTrackView>::empty());
    let ghost mut done: Seq<Seq<char>> = seq![];
    let mut start: usize = 0;
    let mut i: usize = 0;
    assert(v@.take(0) == Seq::<char>::empty());
    assert(v@.subrange(0, 0) == Seq::<char>::empty());
    while i < v.len()
        invariant
            start <= i <= v.len(),
            m.wf(),
            split_on(v@.take(i as int), '\n') == done.push(v@.subrange(start as int, i as int)),
            st@ == scan_lines(done, base@),
        decreases v.len() - i,
    {
        proof {
            lemma_split_step(v@, '\n', i as int);
        }
        if v[i] == '\n' {
            let line = sub_chars(&v, start, i);
            scan_line_exec(&mut st, &line, &base, &m);
            proof {
                assert(done.push(line@).drop_last() == done);
                done = done.push(line@);
                assert(v@.subrange((i + 1) as int, (i + 1) as int) == Seq::<char>::empty());
            }
            start = i + 1;
        } else {
            assert(v@.subrange(start as int, (i + 1) as int) == v@.subrange(
                start as int,
                i as int,
            ).push(v@[i as int]));
        }
        i = i + 1;
    }
    let line = sub_chars(&v, start, v.len());
    scan_line_exec(&mut st, &line, &base, &m);
    proof {
        assert(v@.take(v.len() as int) == v@);
        assert(done.push(line@).drop_last() == done);
    }
    if st.tracks.len() == 0 {
        return Err(M3uError::NoTracks);
    }
    let title = match st.title {
        Some(t) => Some(string_of(&t)),
        None => artist_album_title(st.artist, st.album),
    };
    Ok(Playlist { title, tracks: st.tracks })
}

fn artist_album_title(artist: Option<Vec<char>>, album: Option<Vec<char>>) -> (r: Option<String>)
    ensures
        opt_chars(r) == artist_album(opt_vec(artist), opt_vec(album)),
{
    match (artist, album) {
        (Some(a), Some(b)) => {
            let mut s = string_of(&a);
            push_str(&mut s, " - ");
            push_chars(&mut s, &b);
            Some(s)
        },
        (Some(a), None) => Some(string_of(&a)),
        (None, Some(b)) => Some(string_of(&b)),
        (None, None) => None,
    }
}

/// Whether a playlist line names a track: it is neither blank nor a `#` line.
pub open spec fn is_entry_line(raw: Seq<char>) -> bool {
    trim(raw).len() > 0 && trim(raw)[0] != '#'
}

/// The number of lines that name tracks.
pub open spec fn entry_count(lines: Seq<Seq<char>>) -> nat
    decreases lines.len(),
{
    if lines.len() == 0 {
        0
    } else {
        entry_count(lines.drop_last()) + if is_entry_line(lines.last()) {
            1nat
        } else {
            0nat
        }
    }
}

/// Every line that is neither blank nor a `#` line becomes one track, and
/// no other line does; so a playlist parses exactly when it names a track.
pub proof fn lemma_one_track_per_entry(lines: Seq<Seq<char>>, base: Seq<char>)
    ensures
        scan_lines(lines, base).tracks.len() == entry_count(lines),
    decreases lines.len(),
{
    reveal_strlit("#PLAYLIST:");
    reveal_strlit("#EXTART:");
    reveal_strlit("#EXTALB:");
    reveal_strlit("#EXTINF:");
    if lines.len() > 0 {
        lemma_one_track_per_entry(lines.drop_last(), base);
        let line = trim(lines.last());
        if line.len() > 0 {
            if starts_with(line, "#PLAYLIST:"@) {
                assert(line[0] == line.take(10)[0]);
            } else if starts_with(line, "#EXTART:"@) {
                assert(line[0] == line.take(8)[0]);
            } else if starts_with(line, "#EXTALB:"@) {
                assert(line[0] == line.take(8)[0]);
            } else if starts_with(line, "#EXTINF:"@) {
                assert(line[0] == line.take(8)[0]);
            }
        }
    }
}

/// The tracks named by the first lines of a playlist come first, in the same
/// order, among the tracks of the whole playlist.
pub proof fn lemma_tracks_keep_playlist_order(lines: Seq<Seq<char>>, k: int, base: Seq<char>)
    requires
        0 <= k <= lines.len(),
    ensures
        scan_lines(lines.take(k), base).tracks.len() <= scan_lines(lines, base).tracks.len(),
        scan_lines(lines, base).tracks.take(scan_lines(lines.take(k), base).tracks.len() as int)
            == scan_lines(lines.take(k), base).tracks,
    decreases lines.len(),
{
    if k == lines.len() {
        assert(lines.take(k) == lines);
        assert(scan_lines(lines, base).tracks.take(scan_lines(lines, base).tracks.len() as int)
            == scan_lines(lines, base).tracks);
    } else {
        let init = lines.drop_last();
        assert(init.take(k) == lines.take(k));
        lemma_tracks_keep_playlist_order(init, k, base);
        let before = scan_lines(init, base).tracks;
        let after = scan_lines(lines, base).tracks;
        let n = scan_lines(lines.take(k), base).tracks.len() as int;
        assert(after == before || after == before.push(after.last()));
        if after != before {
            assert(after.take(n) == before.take(n));
        }
    }
}

/// Whether a playlist line names a track: not blank and not a `#` line.
pub open spec fn entry_line(raw: Seq<char>) -> bool {
    trim(raw).len() > 0 && trim(raw)[0] != '#'
}

/// Whether a line is blank or a `#` line other than `#EXTINF:`.
pub open spec fn neutral_line(raw: Seq<char>) -> bool {
    trim(raw).len() == 0 || (trim(raw)[0] == '#' && !starts_with(trim(raw), "#EXTINF:"@))
}

proof fn lemma_entry_step(st: PlaylistScan, raw: Seq<char>, base: Seq<char>)
    requires
        entry_line(raw),
    ensures
        scan_line(st, raw, base).pending is None,
        scan_line(st, raw, base).tracks == st.tracks.push(
            PlaylistTrackView { path: resolve_path(base, trim(raw)), title: st.pending },
        ),
{
    reveal_strlit("#PLAYLIST:");
    reveal_strlit("#EXTART:");
    reveal_strlit("#EXTALB:");
    reveal_strlit("#EXTINF:");
    let line = trim(raw);
    if starts_with(line, "#PLAYLIST:"@) {
        assert(line[0] == line.take(10)[0]);
    }
    if starts_with(line, "#EXTART:"@) {
        assert(line[0] == line.take(8)[0]);
    }
    if starts_with(line, "#EXTALB:"@) {
        assert(line[0] == line.take(8)[0]);
    }
    if starts_with(line, "#EXTINF:"@) {
        assert(line[0] == line.take(8)[0]);
    }
}

proof fn lemma_neutral_step(st: PlaylistScan, raw: Seq<char>, base: Seq<char>)
    requires
        neutral_line(raw),
    ensures
        scan_line(st, raw, base).pending == st.pending,
        scan_line(st, raw, base).tracks == st.tracks,
{
}

proof fn lemma_extinf_step(st: PlaylistScan, raw: Seq<char>, base: Seq<char>)
    requires
        starts_with(trim(raw), "#EXTINF:"@),
    ensures
        scan_line(st, raw, base).pending == extinf_title(trim(raw).skip(8)),
        scan_line(st, raw, base).tracks == st.tracks,
{
    reveal_strlit("#PLAYLIST:");
    reveal_strlit("#EXTART:");
    reveal_strlit("#EXTALB:");
    reveal_strlit("#EXTINF:");
    let line = trim(raw);
    assert(line[1] == line.take(8)[1]);
    assert(line[4] == line.take(8)[4]);
    if starts_with(line, "#PLAYLIST:"@) {
        assert(line[1] == line.take(10)[1]);
    }
    if starts_with(line, "#EXTART:"@) {
        assert(line[4] == line.take(8)[4]);
    }
    if starts_with(line, "#EXTALB:"@) {
        assert(line[4] == line.take(8)[4]);
    }
}

proof fn lemma_neutral_lines(a: Seq<Seq<char>>, mid: Seq<Seq<char>>, base: Seq<char>)
    requires
        forall|i: int| 0 <= i < mid.len() ==> neutral_line(#[trigger] mid[i]),
    ensures
        scan_lines(a + mid, base).pending == scan_lines(a, base).pending,
        scan_lines(a + mid, base).tracks == scan_lines(a, base).tracks,
    decreases mid.len(),
{
    if mid.len() == 0 {
        assert(a + mid == a);
    } else {
        let init = mid.drop_last();
        lemma_neutral_lines(a, init, base);
        assert((a + mid).drop_last() == a + init);
        assert((a + mid).last() == mid.last());
        assert(neutral_line(mid[mid.len() - 1]));
        lemma_neutral_step(scan_lines(a + init, base), mid.last(), base);
    }
}

/// An `#EXTINF:` title belongs to the next entry only. Take a playlist whose
/// lines are `pre`, then a line `x`, then lines `mid` that are blank or `#`
/// lines other than `#EXTINF:`, then an entry `e`. The entry `e` becomes the
/// last track, at its path resolved against `base`. If `x` is itself an
/// entry, `e` has no title; if `x` is an `#EXTINF:` line, `e` takes its
/// title.
pub proof fn lemma_extinf_title_applies_to_next_entry_only(
    pre: Seq<Seq<char>>,
    x: Seq<char>,
    mid: Seq<Seq<char>>,
    e: Seq<char>,
    base: Seq<char>,
)
    requires
        entry_line(e),
        forall|i: int| 0 <= i < mid.len() ==> neutral_line(#[trigger] mid[i]),
    ensures
        ({
            let lines = pre.push(x) + mid.push(e);
            let before = scan_lines(pre.push(x) + mid, base).tracks;
            let tracks = scan_lines(lines, base).tracks;
            &&& tracks.len() == before.len() + 1
            &&& tracks.drop_last() == before
            &&& tracks.last().path == resolve_path(base, trim(e))
            &&& entry_line(x) ==> tracks.last().title is None
            &&& starts_with(trim(x), "#EXTINF:"@) ==> tracks.last().title == extinf_title(
                trim(x).skip(8),
            )
        }),
{
    let a = pre.push(x);
    let lines = a + mid.push(e);
    assert(lines.drop_last() == a + mid);
    assert(lines.last() == e);
    lemma_neutral_lines(a, mid, base);
    let st = scan_lines(a + mid, base);
    lemma_entry_step(st, e, base);
    assert(a.drop_last() == pre);
    if entry_line(x) {
        lemma_entry_step(scan_lines(pre, base), x, base);
    }
    if starts_with(trim(x), "#EXTINF:"@) {
        lemma_extinf_step(scan_lines(pre, base), x, base);
    }
}

/// Whether no line of `lines` starts, once trimmed, with `tag`.
pub open spec fn lacks_tag(lines: Seq<Seq<char>>, tag: Seq<char>) -> bool {
    forall|i: int| 0 <= i < lines.len() ==> !starts_with(trim(#[trigger] lines[i]), tag)
}

proof fn lemma_no_playlist_tag(lines: Seq<Seq<char>>, base: Seq<char>)
    requires
        lacks_tag(lines, "#PLAYLIST:"@),
    ensures
        scan_lines(lines, base).title is None,
    decreases lines.len(),
{
    if lines.len() > 0 {
        let init = lines.drop_last();
        assert(lacks_tag(init, "#PLAYLIST:"@)) by {
            assert forall|i: int| 0 <= i < init.len() implies !starts_with(
                trim(#[trigger] init[i]),
                "#PLAYLIST:"@,
            ) by {
                assert(init[i] == lines[i]);
            }
        }
        lemma_no_playlist_tag(init, base);
        assert(!starts_with(trim(lines[lines.len() - 1]), "#PLAYLIST:"@));
    }
}

proof fn lemma_no_album_tag(lines: Seq<Seq<char>>, base: Seq<char>)
    requires
        lacks_tag(lines, "#EXTALB:"@),
    ensures
        scan_lines(lines, base).album is None,
    decreases lines.len(),
{
    if lines.len() > 0 {
        let init = lines.drop_last();
        assert(lacks_tag(init, "#EXTALB:"@)) by {
            assert forall|i: int| 0 <= i < init.len() implies !starts_with(
                trim(#[trigger] init[i]),
                "#EXTALB:"@,
            ) by {
                assert(init[i] == lines[i]);
            }
        }
        lemma_no_album_tag(init, base);
        assert(!starts_with(trim(lines[lines.len() - 1]), "#EXTALB:"@));
    }
}

proof fn lemma_artist_kept(a: Seq<Seq<char>>, rest: Seq<Seq<char>>, base: Seq<char>)
    requires
        lacks_tag(rest, "#EXTART:"@),
    ensures
        scan_lines(a + rest, base).artist == scan_lines(a, base).artist,
    decreases rest.len(),
{
    if rest.len() == 0 {
        assert(a + rest == a);
    } else {
        let init = rest.drop_last();
        assert(lacks_tag(init, "#EXTART:"@)) by {
            assert forall|i: int| 0 <= i < init.len() implies !starts_with(
                trim(#[trigger] init[i]),
                "#EXTART:"@,
            ) by {
                assert(init[i] == rest[i]);
            }
        }
        lemma_artist_kept(a, init, base);
        assert((a + rest).drop_last() == a + init);
        assert((a + rest).last() == rest.last());
        assert(!starts_with(trim(rest[rest.len() - 1]), "#EXTART:"@));
    }
}

proof fn lemma_artist_step(st: PlaylistScan, raw: Seq<char>, base: Seq<char>)
    requires
        starts_with(trim(raw), "#EXTART:"@),
    ensures
        scan_line(st, raw, base).artist == non_empty(trim(raw).skip(8)),
{
    reveal_strlit("#PLAYLIST:");
    reveal_strlit("#EXTART:");
    let line = trim(raw);
    assert(line[1] == line.take(8)[1]);
    if starts_with(line, "#PLAYLIST:"@) {
        assert(line[1] == line.take(10)[1]);
    }
}

/// The playlist title: the `#PLAYLIST:` title where there is one; else the
/// artist and album joined by " - ", or whichever of the two is there; and
/// no title only where neither is there.
pub proof fn lemma_playlist_title(st: PlaylistScan)
    ensures
        st.title matches Some(t) ==> playlist_of(st).title == Some(t),
        st.title is None ==> (playlist_of(st).title is Some <==> (st.artist is Some
            || st.album is Some)),
        (st.title is None && st.artist is Some && st.album is None) ==> playlist_of(st).title
            == Some(st.artist->0),
        (st.title is None && st.artist is None && st.album is Some) ==> playlist_of(st).title
            == Some(st.album->0),
        (st.title is None && st.artist is Some && st.album is Some) ==> playlist_of(st).title
            == Some(st.artist->0 + " - "@ + st.album->0),
{
}

/// A playlist without `#PLAYLIST:` and `#EXTALB:` lines, whose last
/// `#EXTART:` line `x` names a non-blank artist, is titled with that artist
/// (trimmed).
pub proof fn lemma_artist_only_title(
    pre: Seq<Seq<char>>,
    x: Seq<char>,
    rest: Seq<Seq<char>>,
    base: Seq<char>,
)
    requires
        starts_with(trim(x), "#EXTART:"@),
        trim(trim(x).skip(8)).len() > 0,
        lacks_tag(rest, "#EXTART:"@),
        lacks_tag(pre.push(x) + rest, "#PLAYLIST:"@),
        lacks_tag(pre.push(x) + rest, "#EXTALB:"@),
    ensures
        playlist_of(scan_lines(pre.push(x) + rest, base)).title == Some(trim(trim(x).skip(8))),
{
    reveal_strlit("#EXTART:");
    let lines = pre.push(x) + rest;
    lemma_no_playlist_tag(lines, base);
    lemma_no_album_tag(lines, base);
    lemma_artist_kept(pre.push(x), rest, base);
    assert(pre.push(x).drop_last() == pre);
    lemma_artist_step(scan_lines(pre, base), x, base);
}

} // verus!
