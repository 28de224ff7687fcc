//! The rules of the store of the music library and its playlists. The rows themselves are kept in
//! a database by the caller.

use vstd::prelude::*;
use crate::error::HmError;
use crate::text::{decimal_text, join3, same_text, trim};
use crate::types::{LibraryPage, LibraryTrack, Playlist};

verus! {

/// A new playlist, made at a time in milliseconds. A blank name is refused.
pub fn new_playlist(name: &str, millis: u64) -> (r: Result<Playlist, HmError>)
    ensures
        match r {
            Ok(p) => {
                &&& crate::text::trimmed(name@).len() > 0
                &&& p.id@ == "pl:"@ + crate::text::decimal(millis as nat) + ""@
                &&& p.name@ == crate::text::trimmed(name@)
            },
            Err(e) => {
                &&& crate::text::trimmed(name@).len() == 0
                &&& e matches HmError::Invalid(why)
                &&& why@ == "playlist name is empty"@
            },
        },
{
    let name = trim(name);
    if name.as_str().is_empty() {
        return Err(HmError::Invalid("playlist name is empty".to_owned()));
    }
    Ok(Playlist { id: join3("pl:", decimal_text(millis).as_str(), ""), name })
}

/// What it means that renaming a playlist has met so many rows.
pub fn renamed_rows(changed: usize, id: &str) -> (r: Result<(), HmError>)
    ensures
        match r {
            Ok(()) => changed > 0,
            Err(e) => {
                &&& changed == 0
                &&& e matches HmError::NotFound(what)
                &&& what@ == "playlist "@ + id@ + ""@
            },
        },
{
    if changed == 0 {
        return Err(HmError::NotFound(join3("playlist ", id, "")));
    }
    Ok(())
}

/// A track in a playlist.
#[derive(Debug, PartialEq, Eq)]
pub struct PlaylistRow {
    pub position: i64,
    pub path: String,
}

impl Clone for PlaylistRow {
    fn clone(&self) -> (r: PlaylistRow)
        ensures
            r == *self,
    {
        PlaylistRow { position: self.position, path: self.path.clone() }
    }
}

/// A row of a playlist: the position and the path of the track.
pub struct PlaylistRowView {
    pub position: int,
    pub path: Seq<char>,
}

impl View for PlaylistRow {
    type V = PlaylistRowView;

    open spec fn view(&self) -> PlaylistRowView {
        PlaylistRowView { position: self.position as int, path: self.path@ }
    }
}

/// The contents of rows.
pub open spec fn row_views(rows: Seq<PlaylistRow>) -> Seq<PlaylistRowView> {
    rows.map_values(|r: PlaylistRow| r@)
}

/// The rows stand in the order of their positions, and no position occurs twice.
pub open spec fn in_order(rows: Seq<PlaylistRowView>) -> bool {
    forall|i: int, j: int| 0 <= i < j < rows.len() ==> rows[i].position < rows[j].position
}

/// The tracks of a playlist.
pub open spec fn paths(rows: Seq<PlaylistRowView>) -> Seq<Seq<char>> {
    rows.map_values(|r: PlaylistRowView| r.path)
}

/// The track is in the playlist.
pub open spec fn has_track(rows: Seq<PlaylistRowView>, path: Seq<char>) -> bool {
    paths(rows).contains(path)
}

/// The position behind all others.
pub open spec fn next_position(rows: Seq<PlaylistRowView>) -> int {
    if rows.len() == 0 {
        0
    } else {
        rows.last().position + 1
    }
}

/// The playlist with a track at its end; a track that is in it stays where it is.
pub open spec fn appended(rows: Seq<PlaylistRowView>, path: Seq<char>) -> Seq<PlaylistRowView> {
    if has_track(rows, path) {
        rows
    } else {
        rows.push(PlaylistRowView { position: next_position(rows), path })
    }
}

/// The playlist without a track.
pub open spec fn without_track(rows: Seq<PlaylistRowView>, path: Seq<char>) -> Seq<PlaylistRowView>
    decreases rows.len(),
{
    if rows.len() == 0 {
        rows
    } else {
        let rest = without_track(rows.drop_last(), path);
        if rows.last().path == path {
            rest
        } else {
            rest.push(rows.last())
        }
    }
}

/// A playlist with the given tracks in the given order.
pub open spec fn numbered(tracks: Seq<Seq<char>>) -> Seq<PlaylistRowView> {
    Seq::new(tracks.len(), |i: int| PlaylistRowView { position: i, path: tracks[i] })
}

/// The tracks of one playlist, in order.
#[derive(Debug)]
pub struct PlaylistItems {
    rows: Vec<PlaylistRow>,
}

impl View for PlaylistItems {
    type V = Seq<PlaylistRowView>;

    closed spec fn view(&self) -> Seq<PlaylistRowView> {
        row_views(self.rows@)
    }
}

impl PlaylistItems {
    /// The playlist whose rows are given in the order of their positions.
    pub fn load(rows: Vec<PlaylistRow>) -> (r: PlaylistItems)
        requires
            in_order(row_views(rows@)),
        ensures
            r@ == row_views(rows@),
    {
        PlaylistItems { rows }
    }

    /// The rows, in order.
    pub fn rows(&self) -> (r: &Vec<PlaylistRow>)
        ensures
            row_views(r@) == self@,
    {
        &self.rows
    }

    /// Whether a track is in the playlist.
    pub fn has(&self, path: &str) -> (r: bool)
        ensures
            r == has_track(self@, path@),
    {
        let mut i: usize = 0;
        while i < self.rows.len()
            invariant
                i <= self.rows@.len(),
                forall|k: int| 0 <= k < i ==> paths(self@)[k] != path@,
            decreases self.rows@.len() - i,
        {
            if same_text(self.rows[i].path.as_str(), path) {
                assert(paths(self@)[i as int] == path@);
                return true;
            }
            i += 1;
        }
        false
    }

    /// Puts a track at the end. The result is the position of the new row; there is none where the
    /// track is in the playlist already.
    pub fn add_to_playlist(&mut self, path: &str) -> (r: Option<i64>)
        requires
            next_position(old(self)@) <= i64::MAX,
        ensures
            final(self)@ == appended(old(self)@, path@),
            match r {
                Some(position) => !has_track(old(self)@, path@) && position == next_position(
                    old(self)@,
                ),
                None => has_track(old(self)@, path@),
            },
    {
        if self.has(path) {
            return None;
        }
        let n: usize = self.rows.len();
        let position: i64 = if n == 0 {
            0
        } else {
            assert(self@.last() == self.rows@.last()@);
            self.rows[n - 1].position + 1
        };
        let ghost before = self@;
        let row = PlaylistRow { position, path: path.to_owned() };
        let ghost view = row@;
        self.rows.push(row);
        assert(self@ =~= before.push(view));
        Some(position)
    }

    /// Takes a track out; the rows of the others keep their positions.
    pub fn remove_from_playlist(&mut self, path: &str)
        ensures
            final(self)@ == without_track(old(self)@, path@),
    {
        let ghost all = self@;
        let mut kept: Vec<PlaylistRow> = Vec::new();
        let mut i: usize = 0;
        proof {
            assert(all.take(0) =~= Seq::empty());
            assert(row_views(kept@) =~= Seq::empty());
        }
        while i < self.rows.len()
            invariant
                i <= self.rows@.len(),
                all == self@,
                all == old(self)@,
                row_views(kept@) == without_track(all.take(i as int), path@),
            decreases self.rows@.len() - i,
        {
            proof {
                assert(all.take(i + 1).drop_last() =~= all.take(i as int));
                assert(all.take(i + 1).last() == self.rows@[i as int]@);
            }
            if !same_text(self.rows[i].path.as_str(), path) {
                let ghost before = row_views(kept@);
                kept.push(self.rows[i].clone());
                assert(row_views(kept@) =~= before.push(self.rows@[i as int]@));
            }
            i += 1;
        }
        assert(all.take(i as int) =~= all);
        self.rows = kept;
    }

    /// Makes the playlist hold the given tracks in the given order.
    pub fn reorder_playlist(&mut self, tracks: &Vec<String>)
        requires
            tracks@.len() <= i64::MAX,
        ensures
            final(self)@ == numbered(crate::text::texts(tracks@)),
    {
        let mut rows: Vec<PlaylistRow> = Vec::new();
        let mut i: usize = 0;
        while i < tracks.len()
            invariant
                i <= tracks@.len() <= i64::MAX,
                rows@.len() == i,
                forall|k: int| 0 <= k < i ==> rows@[k].position == k,
                forall|k: int| 0 <= k < i ==> rows@[k].path@ == tracks@[k]@,
            decreases tracks@.len() - i,
        {
            rows.push(PlaylistRow { position: i as i64, path: tracks[i].clone() });
            i += 1;
        }
        self.rows = rows;
        proof {
            let want = numbered(crate::text::texts(tracks@));
            assert forall|k: int| 0 <= k < want.len() implies self@[k] == want[k] by {
                assert(crate::text::texts(tracks@)[k] == tracks@[k]@);
            }
            assert(self@ =~= want);
        }
    }
}

/// Every change of a playlist keeps its rows in the order of their positions.
pub proof fn law_playlists_stay_in_order(
    rows: Seq<PlaylistRowView>,
    path: Seq<char>,
    tracks: Seq<Seq<char>>,
)
    requires
        in_order(rows),
    ensures
        in_order(appended(rows, path)),
        in_order(without_track(rows, path)),
        in_order(numbered(tracks)),
{
    lemma_without_track(rows, path);
}

proof fn lemma_without_track(rows: Seq<PlaylistRowView>, path: Seq<char>)
    ensures
        in_order(rows) ==> in_order(without_track(rows, path)),
        forall|i: int|
            0 <= i < without_track(rows, path).len() ==> (#[trigger] without_track(
                rows,
                path,
            )[i]).path != path && rows.contains(without_track(rows, path)[i]),
        forall|i: int|
            0 <= i < rows.len() && (#[trigger] rows[i]).path != path ==> without_track(
                rows,
                path,
            ).contains(rows[i]),
    decreases rows.len(),
{
    if rows.len() > 0 {
        let head = rows.drop_last();
        let rest = without_track(head, path);
        let all = without_track(rows, path);
        lemma_without_track(head, path);
        assert forall|i: int| 0 <= i < all.len() implies (#[trigger] all[i]).path != path
            && rows.contains(all[i]) by {
            if i < rest.len() {
                assert(all[i] == rest[i]);
                let k = choose|k: int| 0 <= k < head.len() && head[k] == rest[i];
                assert(rows[k] == rest[i]);
            } else {
                assert(rows[rows.len() - 1] == all[i]);
            }
        }
        assert forall|i: int|
            0 <= i < rows.len() && (#[trigger] rows[i]).path != path implies all.contains(
            rows[i],
        ) by {
            if i < head.len() {
                assert(head[i] == rows[i]);
                let k = choose|k: int| 0 <= k < rest.len() && rest[k] == head[i];
                assert(all[k] == rest[k]);
            } else {
                assert(all[all.len() - 1] == rows[i]);
            }
        }
        if in_order(rows) {
            assert(in_order(head));
            assert forall|i: int, j: int| 0 <= i < j < all.len() implies all[i].position
                < all[j].position by {
                if j < rest.len() {
                    assert(rest[i].position < rest[j].position);
                } else {
                    assert(all[i] == rest[i]);
                    let k = choose|k: int| 0 <= k < head.len() && head[k] == rest[i];
                    assert(rows[k].position < rows[rows.len() - 1].position);
                }
            }
        }
    }
}

/// Adding a track a second time changes nothing.
pub proof fn law_adding_twice_is_adding_once(rows: Seq<PlaylistRowView>, path: Seq<char>)
    ensures
        appended(appended(rows, path), path) == appended(rows, path),
        has_track(appended(rows, path), path),
{
    let after = appended(rows, path);
    if !has_track(rows, path) {
        assert(paths(after)[rows.len() as int] == path);
    }
}

/// A removed track is out of the playlist, and every other row is still in it.
pub proof fn law_removing_takes_out_one_track(
    rows: Seq<PlaylistRowView>,
    path: Seq<char>,
    other: PlaylistRowView,
)
    requires
        other.path != path,
    ensures
        !has_track(without_track(rows, path), path),
        without_track(rows, path).contains(other) <==> rows.contains(other),
{
    let left = without_track(rows, path);
    lemma_without_track(rows, path);
    if has_track(left, path) {
        let k = choose|k: int| 0 <= k < paths(left).len() && paths(left)[k] == path;
        assert(left[k].path == path);
    }
    if rows.contains(other) {
        let k = choose|k: int| 0 <= k < rows.len() && rows[k] == other;
        assert(rows[k].path != path);
    }
    if left.contains(other) {
        let k = choose|k: int| 0 <= k < left.len() && left[k] == other;
        assert(left[k].path != path && rows.contains(left[k]));
    }
}

/// A playlist that was put in an order is read back in it.
pub proof fn law_reordering_reads_back(tracks: Seq<Seq<char>>)
    ensures
        paths(numbered(tracks)) == tracks,
{
    assert(paths(numbered(tracks)) =~= tracks);
}

/// Where a page of the library begins and how long it is; negative values count as zero.
pub fn page_bounds(offset: i64, limit: i64) -> (r: (i64, i64))
    ensures
        r.0 == (if offset < 0 { 0 } else { offset as int }),
        r.1 == (if limit < 0 { 0 } else { limit as int }),
{
    (
        if offset < 0 {
            0
        } else {
            offset
        },
        if limit < 0 {
            0
        } else {
            limit
        },
    )
}

/// The directory in which a track lies; a bare file name has none.
pub open spec fn directory_of(parent: Option<String>) -> Option<Seq<char>> {
    match parent {
        Some(d) => if d@.len() == 0 {
            None
        } else {
            Some(d@)
        },
        None => None,
    }
}

/// The directories of some tracks.
pub open spec fn parent_texts(parents: Seq<Option<String>>) -> Seq<Option<Seq<char>>> {
    parents.map_values(|p: Option<String>| directory_of(p))
}

/// The directories that have to be looked at, each once, in the order in which they first occur.
pub open spec fn distinct(parents: Seq<Option<Seq<char>>>) -> Seq<Seq<char>>
    decreases parents.len(),
{
    if parents.len() == 0 {
        Seq::empty()
    } else {
        let before = distinct(parents.drop_last());
        match parents.last() {
            Some(d) => if before.contains(d) {
                before
            } else {
                before.push(d)
            },
            None => before,
        }
    }
}

fn holds(dirs: &Vec<String>, dir: &str) -> (r: Option<usize>)
    ensures
        match r {
            Some(k) => k < dirs@.len() && crate::text::texts(dirs@)[k as int] == dir@ && forall|
                j: int,
            |
                0 <= j < k ==> crate::text::texts(dirs@)[j] != dir@,
            None => !crate::text::texts(dirs@).contains(dir@),
        },
{
    let mut i: usize = 0;
    while i < dirs.len()
        invariant
            i <= dirs@.len(),
            forall|k: int| 0 <= k < i ==> crate::text::texts(dirs@)[k] != dir@,
        decreases dirs@.len() - i,
    {
        if same_text(dirs[i].as_str(), dir) {
            return Some(i);
        }
        i += 1;
    }
    None
}

/// The directories that have to be looked at for tracks in the given directories, so that a drive
/// that is not there costs one look for each of its directories. A track without a directory asks
/// for none.
pub fn directories(parents: &Vec<Option<String>>) -> (r: Vec<String>)
    ensures
        crate::text::texts(r@) == distinct(parent_texts(parents@)),
{
    let ghost all = parent_texts(parents@);
    let mut out: Vec<String> = Vec::new();
    let mut i: usize = 0;
    proof {
        assert(all.take(0) =~= Seq::empty());
        assert(crate::text::texts(out@) =~= Seq::empty());
    }
    while i < parents.len()
        invariant
            i <= parents@.len(),
            all == parent_texts(parents@),
            crate::text::texts(out@) == distinct(all.take(i as int)),
        decreases parents@.len() - i,
    {
        let ghost before = crate::text::texts(out@);
        proof {
            assert(all.take(i + 1).drop_last() =~= all.take(i as int));
            assert(all.take(i + 1).last() == directory_of(parents@[i as int]));
        }
        match &parents[i] {
            Some(d) => {
                if d.as_str().is_empty() {
                    assert(directory_of(parents@[i as int]) is None);
                } else if holds(&out, d.as_str()).is_none() {
                    out.push(d.clone());
                    assert(crate::text::texts(out@) =~= before.push(d@));
                } else {
                    assert(before.contains(d@));
                }
            },
            None => {},
        }
        i += 1;
    }
    assert(all.take(i as int) =~= all);
    out
}

/// Every directory is looked at, and none twice.
pub proof fn law_directories_are_checked_once(parents: Seq<Option<Seq<char>>>)
    ensures
        distinct(parents).no_duplicates(),
        forall|i: int|
            0 <= i < parents.len() ==> (#[trigger] parents[i] matches Some(d) ==> distinct(
                parents,
            ).contains(d)),
    decreases parents.len(),
{
    if parents.len() > 0 {
        let head = parents.drop_last();
        let before = distinct(head);
        law_directories_are_checked_once(head);
        assert forall|i: int| 0 <= i < parents.len() implies (#[trigger] parents[i] matches Some(
            d,
        ) ==> distinct(parents).contains(d)) by {
            if let Some(d) = parents[i] {
                if i < head.len() {
                    assert(head[i] == parents[i]);
                    let k = choose|k: int| 0 <= k < before.len() && before[k] == d;
                    assert(distinct(parents)[k] == d);
                } else if !before.contains(d) {
                    assert(distinct(parents)[before.len() as int] == d);
                }
            }
        }
    }
}

/// Whether a track can be reached: its directory is one of those that are there. A track without a
/// directory is not hidden.
pub open spec fn reachable(
    parent: Option<Seq<char>>,
    dirs: Seq<Seq<char>>,
    there: Seq<bool>,
) -> bool {
    match parent {
        Some(d) => dirs.contains(d) && there[dirs.index_of_first(d)->0],
        None => true,
    }
}

/// For each track whether it can be reached, given for each directory whether it is there.
pub fn available(parents: &Vec<Option<String>>, dirs: &Vec<String>, there: &Vec<bool>) -> (r: Vec<
    bool,
>)
    requires
        dirs@.len() == there@.len(),
    ensures
        r@.len() == parents@.len(),
        forall|i: int|
            0 <= i < r@.len() ==> #[trigger] r@[i] == reachable(
                parent_texts(parents@)[i],
                crate::text::texts(dirs@),
                there@,
            ),
{
    let mut out: Vec<bool> = Vec::new();
    let mut i: usize = 0;
    while i < parents.len()
        invariant
            i <= parents@.len(),
            dirs@.len() == there@.len(),
            out@.len() == i,
            forall|k: int|
                0 <= k < i ==> #[trigger] out@[k] == reachable(
                    parent_texts(parents@)[k],
                    crate::text::texts(dirs@),
                    there@,
                ),
        decreases parents@.len() - i,
    {
        assert(parent_texts(parents@)[i as int] == directory_of(parents@[i as int]));
        let up = match &parents[i] {
            Some(d) => if d.as_str().is_empty() {
                true
            } else {
                match holds(dirs, d.as_str()) {
                    Some(k) => {
                        proof {
                            let names = crate::text::texts(dirs@);
                            assert(names[k as int] == d@);
                            names.index_of_first_ensures(d@);
                            let first = names.index_of_first(d@)->0;
                            if first < k {
                                assert(names[first] == d@);
                            }
                            if k < first {
                                assert(names[k as int] != d@);
                            }
                        }
                        there[k]
                    },
                    None => false,
                }
            },
            None => true,
        };
        out.push(up);
        i += 1;
    }
    out
}

/// What is left of a list of which some entries are dropped.
pub open spec fn kept<T>(all: Seq<T>, keep: Seq<bool>) -> Seq<T>
    decreases all.len(),
{
    if all.len() == 0 {
        all
    } else {
        let before = kept(all.drop_last(), keep);
        if keep[all.len() - 1] {
            before.push(all.last())
        } else {
            before
        }
    }
}

/// A page of the library of the rows that were read: the tracks that can be reached, in the same
/// order, and the number of all rows, so that the next page begins behind them.
pub fn page(rows: &Vec<LibraryTrack>, up: &Vec<bool>) -> (r: LibraryPage)
    requires
        rows@.len() == up@.len() <= i64::MAX,
    ensures
        r.tracks@ == kept(rows@, up@),
        r.scanned == rows@.len(),
{
    let mut tracks: Vec<LibraryTrack> = Vec::new();
    let mut i: usize = 0;
    assert(rows@.take(0) =~= Seq::empty());
    while i < rows.len()
        invariant
            i <= rows@.len(),
            rows@.len() == up@.len() <= i64::MAX,
            tracks@ == kept(rows@.take(i as int), up@),
        decreases rows@.len() - i,
    {
        assert(rows@.take(i + 1).drop_last() =~= rows@.take(i as int));
        if up[i] {
            tracks.push(rows[i].clone());
        }
        i += 1;
    }
    assert(rows@.take(i as int) =~= rows@);
    LibraryPage { tracks, scanned: i as i64 }
}

/// How many tracks can be reached.
pub fn count_available(up: &Vec<bool>) -> (r: i64)
    requires
        up@.len() <= i64::MAX,
    ensures
        r == kept(up@, up@).len(),
{
    let mut n: i64 = 0;
    let mut i: usize = 0;
    assert(up@.take(0) =~= Seq::empty());
    while i < up.len()
        invariant
            i <= up@.len() <= i64::MAX,
            0 <= n <= i,
            n == kept(up@.take(i as int), up@).len(),
        decreases up@.len() - i,
    {
        assert(up@.take(i + 1).drop_last() =~= up@.take(i as int));
        if up[i] {
            n += 1;
        }
        i += 1;
    }
    assert(up@.take(i as int) =~= up@);
    n
}

/// A page hides exactly the tracks that cannot be reached.
pub proof fn law_page_hides_what_is_unreachable<T>(rows: Seq<T>, up: Seq<bool>, i: int)
    requires
        rows.len() == up.len(),
        0 <= i < rows.len(),
        rows.no_duplicates(),
    ensures
        kept(rows, up).contains(rows[i]) <==> up[i],
{
    lemma_kept(rows, up);
    if kept(rows, up).contains(rows[i]) {
        let k = choose|k: int| 0 <= k < kept(rows, up).len() && kept(rows, up)[k] == rows[i];
        assert(picked(rows, up, kept(rows, up)[k]));
        let j = choose|j: int| 0 <= j < rows.len() && up[j] && rows[j] == rows[i];
        assert(j == i);
    }
}

/// The entry stands in the list at a place that is kept.
spec fn picked<T>(rows: Seq<T>, up: Seq<bool>, entry: T) -> bool {
    exists|j: int| 0 <= j < rows.len() && up[j] && #[trigger] rows[j] == entry
}

proof fn lemma_kept<T>(rows: Seq<T>, up: Seq<bool>)
    requires
        rows.len() <= up.len(),
    ensures
        forall|k: int|
            0 <= k < kept(rows, up).len() ==> picked(rows, up, #[trigger] kept(rows, up)[k]),
        forall|j: int| 0 <= j < rows.len() && up[j] ==> kept(rows, up).contains(#[trigger] rows[j]),
    decreases rows.len(),
{
    if rows.len() > 0 {
        let head = rows.drop_last();
        let before = kept(head, up);
        let all = kept(rows, up);
        lemma_kept(head, up);
        assert forall|k: int| 0 <= k < all.len() implies picked(rows, up, #[trigger] all[k]) by {
            if k < before.len() {
                assert(all[k] == before[k]);
                assert(picked(head, up, before[k]));
                let j = choose|j: int| 0 <= j < head.len() && up[j] && head[j] == before[k];
                assert(rows[j] == all[k]);
            } else {
                assert(rows[rows.len() - 1] == all[k]);
            }
        }
        assert forall|j: int| 0 <= j < rows.len() && up[j] implies all.contains(
            #[trigger] rows[j],
        ) by {
            if j < head.len() {
                assert(head[j] == rows[j]);
                let k = choose|k: int| 0 <= k < before.len() && before[k] == head[j];
                assert(all[k] == rows[j]);
            } else {
                assert(all[all.len() - 1] == rows[j]);
            }
        }
    }
}

/// The rows from a place on, no more than so many.
pub open spec fn window<T>(all: Seq<T>, offset: int, limit: int) -> Seq<T> {
    let from = if offset < all.len() {
        offset
    } else {
        all.len() as int
    };
    let to = if offset + limit < all.len() {
        offset + limit
    } else {
        all.len() as int
    };
    all.subrange(from, to)
}

/// The tracks of so many pages one behind the other, each of which begins where the rows of the
/// page in front of it end, and the place at which the next page begins.
pub open spec fn pages<T>(all: Seq<T>, up: Seq<bool>, offset: int, limit: int, count: nat) -> (
    Seq<T>,
    int,
)
    decreases count,
{
    if count == 0 {
        (Seq::empty(), offset)
    } else {
        let (tracks, at) = pages(all, up, offset, limit, (count - 1) as nat);
        let rows = window(all, at, limit);
        (tracks + kept(rows, window(up, at, limit)), at + rows.len())
    }
}

proof fn lemma_kept_joined<T>(a: Seq<T>, b: Seq<T>, up: Seq<bool>, more: Seq<bool>)
    requires
        a.len() == up.len(),
        b.len() == more.len(),
    ensures
        kept(a + b, up + more) == kept(a, up) + kept(b, more),
    decreases b.len(),
{
    if b.len() == 0 {
        assert(a + b =~= a);
        assert(up + more =~= up);
        assert(kept(a, up) + kept(b, more) =~= kept(a, up));
    } else {
        let short = more.drop_last();
        lemma_kept_joined(a, b.drop_last(), up, short);
        assert((a + b).drop_last() =~= a + b.drop_last());
        assert((up + more).take((up + short).len() as int) =~= up + short);
        assert(more.take(short.len() as int) =~= short);
        lemma_kept_front(a + b.drop_last(), up + short, up + more);
        lemma_kept_front(b.drop_last(), short, more);
        assert((up + more)[a.len() + b.len() - 1] == more[b.len() - 1]);
        assert(kept(a + b, up + more) =~= kept(a, up) + kept(b, more));
    }
}

proof fn lemma_kept_front<T>(all: Seq<T>, up: Seq<bool>, more: Seq<bool>)
    requires
        all.len() <= up.len(),
        up.len() <= more.len(),
        more.take(up.len() as int) == up,
    ensures
        kept(all, up) == kept(all, more),
    decreases all.len(),
{
    if all.len() > 0 {
        lemma_kept_front(all.drop_last(), up, more);
        assert(more.take(up.len() as int)[all.len() - 1] == more[all.len() - 1]);
    }
}

/// Pages of which each begins behind the rows of the one in front of it leave no row out and show
/// none twice: together they show what one page of all their rows shows. Where a page holds at
/// least one row, enough pages show the whole library.
pub proof fn law_pages_cover_the_library<T>(
    all: Seq<T>,
    up: Seq<bool>,
    offset: int,
    limit: int,
    count: nat,
)
    requires
        all.len() == up.len(),
        0 <= offset <= all.len(),
        0 <= limit,
    ensures
        ({
            let (tracks, end) = pages(all, up, offset, limit, count);
            &&& offset <= end <= all.len()
            &&& end == (if offset + count * limit < all.len() {
                offset + count * limit
            } else {
                all.len() as int
            })
            &&& tracks == kept(all.subrange(offset, end), up.subrange(offset, end))
            &&& limit > 0 && count >= all.len() ==> end == all.len()
        }),
    decreases count,
{
    if count == 0 {
        assert(all.subrange(offset, offset) =~= Seq::empty());
        assert(0 * limit == 0);
    } else {
        let m = (count - 1) as nat;
        law_pages_cover_the_library(all, up, offset, limit, m);
        assert(count * limit == m * limit + limit) by (nonlinear_arith)
            requires
                count == m + 1,
        ;
        assert(0 <= m * limit) by (nonlinear_arith)
            requires
                0 <= limit,
        ;
        let (tracks, at) = pages(all, up, offset, limit, m);
        let rows = window(all, at, limit);
        let end = at + rows.len();
        lemma_kept_joined(
            all.subrange(offset, at),
            rows,
            up.subrange(offset, at),
            window(up, at, limit),
        );
        assert(all.subrange(offset, at) + rows =~= all.subrange(offset, end));
        assert(up.subrange(offset, at) + window(up, at, limit) =~= up.subrange(offset, end));
        if limit > 0 {
            assert(count * limit >= count) by (nonlinear_arith)
                requires
                    limit >= 1,
            ;
        }
    }
}

} // verus!
