//! The nodes of the queue tree: a track with its resolved location, an
//! album of tracks, and a playlist of further queue items — the
//! recursion point. Albums and playlists carry a numeric identifier
//! that pairs a source node with its mirror in the history.

use crate::models::Playlist;
use crate::models::Release;
use crate::models::Track;
use crate::queue::options_like;
use crate::queue::shuffle_fits;
use crate::queue::shuffle_like;
use crate::queue::switch_shuffle;
use crate::queue::QueueOptions;
use crate::queue::ShuffleError;
use crate::queue::ShuffleType;
use vstd::multiset::Multiset;
use vstd::pervasive::VecAdditionalExecFns;
use vstd::prelude::*;

verus! {

/// A playable track: its catalog record and the file it resolved to.
pub struct QueueTrack {
    pub track: Track,
    pub location: String,
}

impl Clone for QueueTrack {
    fn clone(&self) -> (r: Self)
        ensures
            r == *self,
    {
        QueueTrack { track: self.track.clone(), location: self.location.clone() }
    }
}

impl QueueTrack {
    pub fn new(track: Track, location: String) -> (r: QueueTrack)
        ensures
            r.track == track,
            r.location == location,
    {
        QueueTrack { track, location }
    }

    pub fn track(&self) -> (r: &Track)
        ensures
            r == self.track,
    {
        &self.track
    }

    pub fn location(&self) -> (r: &String)
        ensures
            r == self.location,
    {
        &self.location
    }
}

/// An album: a release and its ordered tracks.
pub struct QueueAlbum {
    pub album: Release,
    pub tracks: Vec<QueueTrack>,
    pub queue_option: QueueOptions,
    /// Pairs this node with its history mirror.
    pub id: usize,
}

/// A playlist: an ordered list of queue items, the recursion point.
pub struct QueuePlaylist {
    pub playlist: Option<Playlist>,
    pub playlist_items: Vec<QueueItem>,
    pub queue_option: QueueOptions,
    pub id: usize,
}

/// A node of the queue tree.
pub enum QueueItem {
    Track(QueueTrack),
    Playlist(QueuePlaylist),
    Album(QueueAlbum),
}

/// The tracks reachable from one item, in order.
pub open spec fn spec_flatten(item: QueueItem) -> Seq<QueueTrack>
    decreases item, 0int,
{
    match item {
        QueueItem::Track(t) => seq![t],
        QueueItem::Album(a) => a.tracks@,
        QueueItem::Playlist(p) => spec_flatten_seq(p.playlist_items@, 0),
    }
}

pub open spec fn spec_flatten_seq(items: Seq<QueueItem>, i: int) -> Seq<QueueTrack>
    decreases items, items.len() - i,
{
    if i < 0 || i >= items.len() {
        Seq::empty()
    } else {
        spec_flatten(items[i]) + spec_flatten_seq(items, i + 1)
    }
}

/// How many tracks one item reaches.
pub open spec fn spec_count(item: QueueItem) -> int
    decreases item, 0int,
{
    match item {
        QueueItem::Track(_) => 1,
        QueueItem::Album(a) => a.tracks@.len() as int,
        QueueItem::Playlist(p) => spec_count_seq(p.playlist_items@, 0),
    }
}

pub open spec fn spec_count_seq(items: Seq<QueueItem>, i: int) -> int
    decreases items, items.len() - i,
{
    if i < 0 || i >= items.len() {
        0
    } else {
        spec_count(items[i]) + spec_count_seq(items, i + 1)
    }
}

/// Whether an item holds nothing more to play: a track never does; an
/// album is empty exactly when its track list is empty and its options
/// do not say repeat; a playlist when all its children are empty.
pub open spec fn spec_is_empty(item: QueueItem) -> bool
    decreases item, 0int,
{
    match item {
        QueueItem::Track(_) => false,
        QueueItem::Album(a) => a.tracks@.len() == 0 && !a.queue_option.repeat,
        QueueItem::Playlist(p) => spec_all_empty(p.playlist_items@, 0),
    }
}

pub open spec fn spec_all_empty(items: Seq<QueueItem>, i: int) -> bool
    decreases items, items.len() - i,
{
    if i < 0 || i >= items.len() {
        true
    } else {
        spec_is_empty(items[i]) && spec_all_empty(items, i + 1)
    }
}

/// The track the selected indices lead to, if they lead to one.
pub open spec fn spec_get_selected(item: QueueItem) -> Option<QueueTrack>
    decreases item, 0int,
{
    match item {
        QueueItem::Track(t) => Some(t),
        QueueItem::Album(a) => match a.queue_option.selected {
            Some(i) => {
                if i < a.tracks@.len() {
                    Some(a.tracks@[i as int])
                } else {
                    None
                }
            },
            None => None,
        },
        QueueItem::Playlist(p) => match p.queue_option.selected {
            Some(i) => {
                if i < p.playlist_items@.len() {
                    spec_get_selected(p.playlist_items@[i as int])
                } else {
                    None
                }
            },
            None => None,
        },
    }
}

/// The identifier after `id`, wrapping at the machine word.
pub open spec fn spec_wrap_id(id: usize) -> usize {
    if id == usize::MAX {
        0
    } else {
        (id + 1) as usize
    }
}

/// The next free identifier after numbering one item from `id`.
pub open spec fn spec_next_id(item: QueueItem, id: usize) -> usize
    decreases item, 0int,
{
    match item {
        QueueItem::Track(_) => id,
        QueueItem::Album(_) => spec_wrap_id(id),
        QueueItem::Playlist(p) => spec_next_id_seq(p.playlist_items@, spec_wrap_id(id), 0),
    }
}

pub open spec fn spec_next_id_seq(items: Seq<QueueItem>, id: usize, i: int) -> usize
    decreases items, items.len() - i,
{
    if i < 0 || i >= items.len() {
        id
    } else {
        spec_next_id_seq(items, spec_next_id(items[i], id), i + 1)
    }
}

/// Whether `b` is `a` renumbered depth-first from `id`: every album
/// and playlist takes the next identifier, tracks take none.
pub open spec fn spec_numbered(a: QueueItem, b: QueueItem, id: usize) -> bool
    decreases a, 0int,
{
    match (a, b) {
        (QueueItem::Track(x), QueueItem::Track(y)) => x == y,
        (QueueItem::Album(x), QueueItem::Album(y)) => y.album == x.album && y.tracks@ == x.tracks@
            && options_like(x.queue_option, y.queue_option) && y.id == id,
        (QueueItem::Playlist(x), QueueItem::Playlist(y)) => y.playlist == x.playlist
            && options_like(x.queue_option, y.queue_option) && y.id == id
            && y.playlist_items@.len() == x.playlist_items@.len() && spec_numbered_seq(
            x.playlist_items@,
            y.playlist_items@,
            spec_wrap_id(id),
            0,
        ),
        _ => false,
    }
}

pub open spec fn spec_numbered_seq(a: Seq<QueueItem>, b: Seq<QueueItem>, id: usize, i: int) -> bool
    decreases a, a.len() - i,
{
    if i < 0 || i >= a.len() || a.len() != b.len() {
        true
    } else {
        spec_numbered(a[i], b[i], id) && spec_numbered_seq(a, b, spec_next_id(a[i], id), i + 1)
    }
}

/// A throwaway item to swap into a slot while its real value is away.
pub(crate) fn placeholder_item() -> QueueItem {
    QueueItem::Track(
        QueueTrack {
            track: Track {
                id: 0,
                name: String::new(),
                date: 0,
                number: 0,
                duration: 0,
                artist_id: 0,
                release_id: 0,
            },
            location: String::new(),
        },
    )
}

impl QueueAlbum {
    pub fn new(album: Release, tracks: Vec<QueueTrack>, queue_option: QueueOptions) -> (r:
        QueueAlbum)
        ensures
            r.album == album,
            r.tracks == tracks,
            r.queue_option == queue_option,
            r.id == 0,
    {
        QueueAlbum { album, tracks, queue_option, id: 0 }
    }

    /// A mirror of this album for the history: same release and
    /// identifier, no tracks yet, default options.
    pub fn empty_clone(&self) -> (r: QueueAlbum)
        ensures
            r.album == self.album,
            r.tracks@.len() == 0,
            r.id == self.id,
    {
        QueueAlbum {
            album: self.album.clone(),
            tracks: Vec::new(),
            // Options sometimes depend on the items, so the mirror
            // starts from the default.
            queue_option: QueueOptions::default(),
            id: self.id,
        }
    }

    pub fn album(&self) -> (r: &Release)
        ensures
            r == self.album,
    {
        &self.album
    }

    #[verifier::loop_isolation(false)]
    /// Empty exactly when no tracks remain and the options do not say
    /// repeat: a repeating album always has more to play.
    pub fn is_empty(&self) -> (r: bool)
        ensures
            r == (self.tracks@.len() == 0 && !self.queue_option.repeat),
    {
        self.tracks.len() == 0 && !self.queue_option.repeat
    }

    pub fn tracks(&self) -> (r: &Vec<QueueTrack>)
        ensures
            r == self.tracks,
    {
        &self.tracks
    }

    pub fn queue_option(&self) -> (r: &QueueOptions)
        ensures
            r == self.queue_option,
    {
        &self.queue_option
    }

    pub fn id(&self) -> (r: usize)
        ensures
            r == self.id,
    {
        self.id
    }

    pub fn change_queue_options(&mut self, queue_option: QueueOptions)
        ensures
            final(self).queue_option == queue_option,
            final(self).album == old(self).album,
            final(self).tracks == old(self).tracks,
            final(self).id == old(self).id,
    {
        self.queue_option = queue_option;
    }
}

impl QueuePlaylist {
    pub fn new(
        playlist: Option<Playlist>,
        playlist_items: Vec<QueueItem>,
        queue_option: QueueOptions,
    ) -> (r: QueuePlaylist)
        ensures
            r.playlist == playlist,
            r.playlist_items == playlist_items,
            r.queue_option == queue_option,
            r.id == 0,
    {
        QueuePlaylist { playlist, playlist_items, queue_option, id: 0 }
    }

    /// A playlist with no catalog record behind it.
    pub fn from_items(playlist_items: Vec<QueueItem>) -> (r: QueuePlaylist)
        ensures
            r.playlist is None,
            r.playlist_items == playlist_items,
            r.id == 0,
    {
        QueuePlaylist {
            playlist: None,
            playlist_items,
            queue_option: QueueOptions::default(),
            id: 0,
        }
    }

    /// A mirror of this playlist for the history: same record and
    /// identifier, no items yet, default options.
    pub fn empty_clone(&self) -> (r: QueuePlaylist)
        ensures
            r.playlist == self.playlist,
            r.playlist_items@.len() == 0,
            r.id == self.id,
    {
        QueuePlaylist {
            playlist: match &self.playlist {
                Some(p) => Some(p.clone()),
                None => None,
            },
            playlist_items: Vec::new(),
            queue_option: QueueOptions::default(),
            id: self.id,
        }
    }

    pub fn playlist(&self) -> (r: &Option<Playlist>)
        ensures
            r == self.playlist,
    {
        &self.playlist
    }

    pub fn i(&self) -> (r: &Vec<QueueItem>)
        ensures
            r == self.playlist_items,
    {
        &self.playlist_items
    }

    pub fn queue_option(&self) -> (r: &QueueOptions)
        ensures
            r == self.queue_option,
    {
        &self.queue_option
    }

    pub fn id(&self) -> (r: usize)
        ensures
            r == self.id,
    {
        self.id
    }

    pub fn change_queue_options(&mut self, queue_option: QueueOptions)
        ensures
            final(self).queue_option == queue_option,
            final(self).playlist == old(self).playlist,
            final(self).playlist_items == old(self).playlist_items,
            final(self).id == old(self).id,
    {
        self.queue_option = queue_option;
    }
}

impl QueueItem {
    /// Whether this item reaches no playable track.
    #[verifier::loop_isolation(false)]
    pub fn is_empty(&self) -> (r: bool)
        ensures
            r == spec_is_empty(*self),
        decreases *self, 1int,
    {
        match self {
            QueueItem::Track(_) => false,
            QueueItem::Album(album) => album.tracks.len() == 0 && !album.queue_option.repeat,
            QueueItem::Playlist(playlist) => {
                let n = playlist.playlist_items.len();
                let mut i: usize = 0;
                let mut all = true;
                while i < n
                    invariant
                        i <= n,
                        n == playlist.playlist_items@.len(),
                        all == (forall|j: int|
                            0 <= j < i ==> spec_is_empty(#[trigger] playlist.playlist_items@[j])),
                    decreases n - i,
                {
                    proof {
                        broadcast use vstd::std_specs::vec::axiom_vec_index_decreases;

                        assert(decreases_to!(*self => self->Playlist_0));
                        assert(decreases_to!(self->Playlist_0 => self
                            ->Playlist_0.playlist_items));
                        assert(decreases_to!(self->Playlist_0.playlist_items => self
                            ->Playlist_0.playlist_items[i as int]));
                        assert(playlist.playlist_items[i as int] == self
                            ->Playlist_0.playlist_items[i as int]);
                    }
                    let e = (&playlist.playlist_items[i]).is_empty();
                    all = all && e;
                    i = i + 1;
                }
                proof {
                    lemma_all_empty_iff(playlist.playlist_items@, 0);
                }
                all
            },
        }
    }

    /// The identifier `id` when this is a track; otherwise sets the
    /// node's identifier to `id` and answers the next one, wrapping at
    /// the machine word.
    pub fn set_id(&mut self, id: usize) -> (r: usize)
        ensures
            r == (if *old(self) is Track {
                id
            } else {
                spec_wrap_id(id)
            }),
            (*old(self) is Track) ==> *final(self) == *old(self),
            (match *old(self) {
                QueueItem::Album(a) => *final(self) matches QueueItem::Album(b) && b.id == id
                    && b.album == a.album && b.tracks@ == a.tracks@ && options_like(
                    b.queue_option,
                    a.queue_option,
                ),
                _ => true,
            }),
            (match *old(self) {
                QueueItem::Playlist(p) => *final(self) matches QueueItem::Playlist(q) && q.id == id
                    && q.playlist == p.playlist && q.playlist_items@ == p.playlist_items@
                    && options_like(q.queue_option, p.queue_option),
                _ => true,
            }),
    {
        let mut tmp = placeholder_item();
        core::mem::swap(self, &mut tmp);
        match tmp {
            QueueItem::Track(t) => {
                *self = QueueItem::Track(t);
                id
            },
            QueueItem::Album(mut a) => {
                a.id = id;
                *self = QueueItem::Album(a);
                Self::wrap_id(id)
            },
            QueueItem::Playlist(mut p) => {
                p.id = id;
                *self = QueueItem::Playlist(p);
                Self::wrap_id(id)
            },
        }
    }

    /// `id + 1`, wrapping to zero at the machine word.
    fn wrap_id(id: usize) -> (r: usize)
        ensures
            r == spec_wrap_id(id),
    {
        if id == usize::MAX {
            0
        } else {
            id + 1
        }
    }

    /// Number this node and its descendants depth-first from `id`,
    /// skipping track leaves, and answer the next free identifier.
    pub fn set_id_rec(&mut self, id: usize) -> (r: usize)
        ensures
            spec_numbered(*old(self), *final(self), id),
            r == spec_next_id(*old(self), id),
    {
        let mut tmp = placeholder_item();
        core::mem::swap(self, &mut tmp);
        let (item, next) = Self::set_id_rec_owned(tmp, id);
        *self = item;
        next
    }

    #[verifier::loop_isolation(false)]
    #[verifier::rlimit(60)]
    fn set_id_rec_owned(item: QueueItem, id: usize) -> (r: (QueueItem, usize))
        ensures
            spec_numbered(item, r.0, id),
            r.1 == spec_next_id(item, id),
        decreases item, 1int,
    {
        let ghost item0 = item;
        match item {
            QueueItem::Track(t) => (QueueItem::Track(t), id),
            QueueItem::Album(mut a) => {
                a.id = id;
                (QueueItem::Album(a), Self::wrap_id(id))
            },
            QueueItem::Playlist(mut p) => {
                p.id = id;
                let mut next = Self::wrap_id(id);
                let ghost start = spec_wrap_id(id);
                let ghost orig_items = p.playlist_items@;
                let n = p.playlist_items.len();
                let mut i: usize = 0;
                while i < n
                    invariant
                        i <= n,
                        n == p.playlist_items@.len() == orig_items.len(),
                        forall|j: int| i <= j < n ==> p.playlist_items@[j] == orig_items[j],
                        spec_numbered_seq(
                            orig_items.take(i as int),
                            p.playlist_items@.take(i as int),
                            start,
                            0,
                        ),
                        next == spec_next_id_seq(orig_items.take(i as int), start, 0),
                        item0 matches QueueItem::Playlist(p0) && p0.playlist_items@ == orig_items
                            && p.playlist == p0.playlist && p.queue_option == p0.queue_option,
                        p.id == id,
                    decreases n - i,
                {
                    let ghost before = p.playlist_items@;
                    let mut child = placeholder_item();
                    p.playlist_items.set_and_swap(i, &mut child);
                    proof {
                        broadcast use vstd::std_specs::vec::axiom_vec_index_decreases;

                        assert(child == item0->Playlist_0.playlist_items[i as int]);
                        assert(decreases_to!(item0 => item0->Playlist_0));
                        assert(decreases_to!(item0->Playlist_0 => item0
                            ->Playlist_0.playlist_items));
                        assert(decreases_to!(item0->Playlist_0.playlist_items => item0
                            ->Playlist_0.playlist_items[i as int]));
                    }
                    let (c2, n2) = Self::set_id_rec_owned(child, next);
                    p.playlist_items.set(i, c2);
                    proof {
                        assert(orig_items.take(i + 1) =~= orig_items.take(i as int).push(
                            orig_items[i as int],
                        ));
                        assert(p.playlist_items@.take(i + 1) =~= before.take(i as int).push(c2));
                        assert(before.take(i as int) =~= p.playlist_items@.take(i as int));
                        lemma_numbered_seq_snoc(
                            orig_items.take(i as int),
                            before.take(i as int),
                            orig_items[i as int],
                            c2,
                            start,
                        );
                        lemma_next_id_seq_snoc(orig_items.take(i as int), orig_items[i as int],
                        start);
                    }
                    next = n2;
                    i = i + 1;
                }
                proof {
                    assert(orig_items.take(n as int) =~= orig_items);
                    assert(p.playlist_items@.take(n as int) =~= p.playlist_items@);
                }
                (QueueItem::Playlist(p), next)
            },
        }
    }
}

pub proof fn lemma_all_empty_iff(items: Seq<QueueItem>, i: int)
    requires
        0 <= i <= items.len(),
    ensures
        spec_all_empty(items, i) == (forall|j: int|
            i <= j < items.len() ==> spec_is_empty(#[trigger] items[j])),
    decreases items.len() - i,
{
    if i < items.len() {
        lemma_all_empty_iff(items, i + 1);
    }
}

proof fn lemma_next_id_seq_snoc(items: Seq<QueueItem>, last: QueueItem, id: usize)
    ensures
        spec_next_id_seq(items.push(last), id, 0) == spec_next_id(
            last,
            spec_next_id_seq(items, id, 0),
        ),
    decreases items.len(),
{
    lemma_next_id_seq_snoc_at(items, last, id, 0);
}

proof fn lemma_next_id_seq_snoc_at(items: Seq<QueueItem>, last: QueueItem, id: usize, i: int)
    requires
        0 <= i <= items.len(),
    ensures
        spec_next_id_seq(items.push(last), id, i) == spec_next_id(
            last,
            spec_next_id_seq(items, id, i),
        ),
    decreases items.len() - i,
{
    if i < items.len() {
        assert(items.push(last)[i] == items[i]);
        lemma_next_id_seq_snoc_at(items, last, spec_next_id(items[i], id), i + 1);
    } else {
        assert(items.push(last)[items.len() as int] == last);
        assert(spec_next_id_seq(items, id, i) == id);
        assert(spec_next_id_seq(items.push(last), spec_next_id(last, id), i + 1) == spec_next_id(
            last,
            id,
        ));
    }
}

proof fn lemma_numbered_seq_snoc(
    a: Seq<QueueItem>,
    b: Seq<QueueItem>,
    x: QueueItem,
    y: QueueItem,
    id: usize,
)
    requires
        a.len() == b.len(),
        spec_numbered_seq(a, b, id, 0),
        spec_numbered(x, y, spec_next_id_seq(a, id, 0)),
    ensures
        spec_numbered_seq(a.push(x), b.push(y), id, 0),
{
    lemma_numbered_seq_snoc_at(a, b, x, y, id, 0);
}

proof fn lemma_numbered_seq_snoc_at(
    a: Seq<QueueItem>,
    b: Seq<QueueItem>,
    x: QueueItem,
    y: QueueItem,
    id: usize,
    i: int,
)
    requires
        a.len() == b.len(),
        0 <= i <= a.len(),
        spec_numbered_seq(a, b, id, i),
        spec_numbered(x, y, spec_next_id_seq(a, id, i)),
    ensures
        spec_numbered_seq(a.push(x), b.push(y), id, i),
    decreases a.len() - i,
{
    if i < a.len() {
        assert(a.push(x)[i] == a[i]);
        assert(b.push(y)[i] == b[i]);
        lemma_numbered_seq_snoc_at(a, b, x, y, spec_next_id(a[i], id), i + 1);
    } else {
        assert(a.push(x)[i] == x);
        assert(b.push(y)[i] == y);
        assert(spec_next_id_seq(a, id, i) == id);
        assert(spec_numbered_seq(a.push(x), b.push(y), spec_next_id(x, id), i + 1));
    }
}

impl QueueItem {
    /// Every reachable track, in order; consumes the item.
    #[verifier::loop_isolation(false)]
    pub fn flatten(self) -> (r: Vec<QueueTrack>)
        ensures
            r@ == spec_flatten(self),
        decreases self, 1int,
    {
        let ghost item0 = self;
        match self {
            QueueItem::Track(t) => {
                let mut out: Vec<QueueTrack> = Vec::new();
                out.push(t);
                proof {
                    assert(out@ =~= spec_flatten(item0));
                }
                out
            },
            QueueItem::Album(a) => a.tracks,
            QueueItem::Playlist(p) => {
                let mut out: Vec<QueueTrack> = Vec::new();
                let ghost items0 = p.playlist_items@;
                let mut items = p.playlist_items;
                let n = items.len();
                let mut i: usize = 0;
                while i < n
                    invariant
                        i <= n,
                        n == items@.len() == items0.len(),
                        forall|j: int| i <= j < n ==> items@[j] == items0[j],
                        out@ == spec_flatten_seq(items0.take(i as int), 0),
                        item0 matches QueueItem::Playlist(p0) && p0.playlist_items@ == items0,
                    decreases n - i,
                {
                    let mut child = placeholder_item();
                    items.set_and_swap(i, &mut child);
                    proof {
                        broadcast use vstd::std_specs::vec::axiom_vec_index_decreases;

                        assert(child == item0->Playlist_0.playlist_items[i as int]);
                        assert(decreases_to!(item0 => item0->Playlist_0));
                        assert(decreases_to!(item0->Playlist_0 => item0
                            ->Playlist_0.playlist_items));
                        assert(decreases_to!(item0->Playlist_0.playlist_items => item0
                            ->Playlist_0.playlist_items[i as int]));
                    }
                    let mut tracks = child.flatten();
                    let ghost out_before = out@;
                    out.append(&mut tracks);
                    proof {
                        assert(items0.take(i + 1) =~= items0.take(i as int).push(
                            items0[i as int],
                        ));
                        lemma_flatten_seq_snoc(items0.take(i as int), items0[i as int]);
                    }
                    i = i + 1;
                }
                proof {
                    assert(items0.take(n as int) =~= items0);
                }
                out
            },
        }
    }

    /// How many tracks this item reaches, clamped at the word size.
    #[verifier::loop_isolation(false)]
    pub fn count(&self) -> (r: u32)
        ensures
            r == spec_clamp32(spec_count(*self)),
        decreases *self, 1int,
    {
        match self {
            QueueItem::Track(_) => 1,
            QueueItem::Album(album) => {
                let n = album.tracks.len();
                if n > u32::MAX as usize {
                    u32::MAX
                } else {
                    n as u32
                }
            },
            QueueItem::Playlist(playlist) => {
                let n = playlist.playlist_items.len();
                let mut total: u32 = 0;
                let mut i: usize = 0;
                while i < n
                    invariant
                        i <= n,
                        n == playlist.playlist_items@.len(),
                        total == spec_clamp32(
                            spec_count_prefix(playlist.playlist_items@, i as int),
                        ),
                    decreases n - i,
                {
                    proof {
                        broadcast use vstd::std_specs::vec::axiom_vec_index_decreases;

                        assert(decreases_to!(*self => self->Playlist_0));
                        assert(decreases_to!(self->Playlist_0 => self
                            ->Playlist_0.playlist_items));
                        assert(decreases_to!(self->Playlist_0.playlist_items => self
                            ->Playlist_0.playlist_items[i as int]));
                        assert(playlist.playlist_items[i as int] == self
                            ->Playlist_0.playlist_items[i as int]);
                        lemma_count_nonneg(playlist.playlist_items@[i as int]);
                    }
                    let c = (&playlist.playlist_items[i]).count();
                    proof {
                        let s0 = playlist.playlist_items@;
                        assert(s0.take(i + 1) =~= s0.take(i as int).push(s0[i as int]));
                        lemma_count_seq_snoc(s0.take(i as int), s0[i as int]);
                        lemma_count_seq_nonneg(s0.take(i as int), 0);
                    }
                    total = if total as u64 + c as u64 > u32::MAX as u64 {
                        u32::MAX
                    } else {
                        total + c
                    };
                    i = i + 1;
                }
                proof {
                    lemma_count_prefix_whole(playlist.playlist_items@);
                }
                total
            },
        }
    }

    /// Whether some album or playlist in this tree carries `id`;
    /// tracks carry none.
    pub fn has_id(&self, id: usize) -> (r: bool)
        ensures
            r == spec_has_id(*self, id),
    {
        match self {
            QueueItem::Track(_) => false,
            QueueItem::Playlist(queue_playlist) => queue_playlist.id == id,
            QueueItem::Album(queue_album) => queue_album.id == id,
        }
    }

    /// The track the selected indices lead to, if they lead to one.
    #[verifier::loop_isolation(false)]
    pub fn get_selected(&self) -> (r: Option<QueueTrack>)
        ensures
            r == spec_get_selected(*self),
        decreases *self, 1int,
    {
        match self {
            QueueItem::Track(track) => Some(track.clone()),
            QueueItem::Playlist(playlist) => match playlist.queue_option.selected {
                Some(i) => {
                    if i < playlist.playlist_items.len() {
                        proof {
                            broadcast use vstd::std_specs::vec::axiom_vec_index_decreases;

                            assert(decreases_to!(*self => self->Playlist_0));
                            assert(decreases_to!(self->Playlist_0 => self
                                ->Playlist_0.playlist_items));
                            assert(decreases_to!(self->Playlist_0.playlist_items => self
                                ->Playlist_0.playlist_items[i as int]));
                            assert(playlist.playlist_items[i as int] == self
                                ->Playlist_0.playlist_items[i as int]);
                        }
                        (&playlist.playlist_items[i]).get_selected()
                    } else {
                        None
                    }
                },
                None => None,
            },
            QueueItem::Album(album) => match album.queue_option.selected {
                Some(i) => {
                    if i < album.tracks.len() {
                        Some((&album.tracks[i]).clone())
                    } else {
                        None
                    }
                },
                None => None,
            },
        }
    }

    /// Install options on this node alone; tracks carry none.
    pub fn set_queue_options(&mut self, options: QueueOptions)
        ensures
            (*old(self) is Track) ==> *final(self) == *old(self),
            (match *old(self) {
                QueueItem::Album(a) => *final(self) matches QueueItem::Album(b)
                    && options_like(b.queue_option, options) && b.album == a.album && b.tracks@
                    == a.tracks@ && b.id == a.id,
                _ => true,
            }),
            (match *old(self) {
                QueueItem::Playlist(p) => *final(self) matches QueueItem::Playlist(q)
                    && options_like(q.queue_option, options) && q.playlist == p.playlist
                    && q.playlist_items@ == p.playlist_items@ && q.id == p.id,
                _ => true,
            }),
    {
        let mut tmp = placeholder_item();
        core::mem::swap(self, &mut tmp);
        match tmp {
            QueueItem::Track(t) => {
                *self = QueueItem::Track(t);
            },
            QueueItem::Album(mut a) => {
                a.queue_option = options;
                *self = QueueItem::Album(a);
            },
            QueueItem::Playlist(mut p) => {
                p.queue_option = options;
                *self = QueueItem::Playlist(p);
            },
        }
    }

    /// Switch this node's shuffle policy; the weight lists must match
    /// the node's width. Tracks have no policy and accept anything.
    pub fn switch_shuffle(&mut self, new_shuffle: ShuffleType) -> (r: Result<(), ShuffleError>)
        ensures
            (*old(self) is Track) ==> *final(self) == *old(self) && r matches Ok(()),
            (match *old(self) {
                QueueItem::Album(a) => {
                    &&& (shuffle_fits(&new_shuffle, a.tracks@.len() as int) ==> (r matches Ok(())
                        && (*final(self) matches QueueItem::Album(b) && b.queue_option.shuffle_type
                        == new_shuffle && b.album == a.album && b.tracks@ == a.tracks@ && b.id
                        == a.id)))
                    &&& (!shuffle_fits(&new_shuffle, a.tracks@.len() as int) ==> (r matches Err(e)
                        && e == ShuffleError::WrongLength && *final(self) == *old(self)))
                },
                _ => true,
            }),
            (match *old(self) {
                QueueItem::Playlist(p) => {
                    &&& (shuffle_fits(&new_shuffle, p.playlist_items@.len() as int) ==> (r matches
                    Ok(()) && (*final(self) matches QueueItem::Playlist(q)
                        && q.queue_option.shuffle_type == new_shuffle && q.playlist == p.playlist
                        && q.playlist_items@ == p.playlist_items@ && q.id == p.id)))
                    &&& (!shuffle_fits(&new_shuffle, p.playlist_items@.len() as int) ==> (r matches
                    Err(e) && e == ShuffleError::WrongLength && *final(self) == *old(self)))
                },
                _ => true,
            }),
    {
        let mut tmp = placeholder_item();
        core::mem::swap(self, &mut tmp);
        match tmp {
            QueueItem::Track(t) => {
                *self = QueueItem::Track(t);
                Ok(())
            },
            QueueItem::Album(mut a) => {
                let len = a.tracks.len();
                let r = switch_shuffle(&mut a.queue_option.shuffle_type, new_shuffle, len);
                *self = QueueItem::Album(a);
                r
            },
            QueueItem::Playlist(mut p) => {
                let len = p.playlist_items.len();
                let r = switch_shuffle(&mut p.queue_option.shuffle_type, new_shuffle, len);
                *self = QueueItem::Playlist(p);
                r
            },
        }
    }
}

/// Whether this node itself carries `id`.
pub open spec fn spec_has_id(item: QueueItem, id: usize) -> bool {
    match item {
        QueueItem::Track(_) => false,
        QueueItem::Playlist(p) => p.id == id,
        QueueItem::Album(a) => a.id == id,
    }
}

/// An integer clamped into a 32-bit word.
pub open spec fn spec_clamp32(n: int) -> u32 {
    if n > u32::MAX {
        u32::MAX
    } else if n < 0 {
        0
    } else {
        n as u32
    }
}

/// `spec_count_seq` over a prefix, for loop invariants.
pub open spec fn spec_count_prefix(items: Seq<QueueItem>, i: int) -> int {
    spec_count_seq(items.take(i), 0)
}

proof fn lemma_count_nonneg(item: QueueItem)
    ensures
        spec_count(item) >= 0,
    decreases item, 1int,
{
    match item {
        QueueItem::Playlist(p) => {
            lemma_count_seq_nonneg(p.playlist_items@, 0);
        },
        _ => {},
    }
}

proof fn lemma_count_seq_nonneg(items: Seq<QueueItem>, i: int)
    ensures
        spec_count_seq(items, i) >= 0,
    decreases items, items.len() - i, 2int,
{
    if 0 <= i < items.len() {
        lemma_count_nonneg(items[i]);
        lemma_count_seq_nonneg(items, i + 1);
    }
}

proof fn lemma_count_seq_snoc(items: Seq<QueueItem>, last: QueueItem)
    ensures
        spec_count_seq(items.push(last), 0) == spec_count_seq(items, 0) + spec_count(last),
{
    lemma_count_seq_snoc_at(items, last, 0);
}

proof fn lemma_count_seq_snoc_at(items: Seq<QueueItem>, last: QueueItem, i: int)
    requires
        0 <= i <= items.len(),
    ensures
        spec_count_seq(items.push(last), i) == spec_count_seq(items, i) + spec_count(last),
    decreases items.len() - i,
{
    if i < items.len() {
        assert(items.push(last)[i] == items[i]);
        lemma_count_seq_snoc_at(items, last, i + 1);
    } else {
        assert(items.push(last)[i] == last);
        assert(spec_count_seq(items, i) == 0);
        assert(spec_count_seq(items.push(last), i + 1) == 0);
    }
}

proof fn lemma_count_prefix_whole(items: Seq<QueueItem>)
    ensures
        spec_count_prefix(items, items.len() as int) == spec_count_seq(items, 0),
{
    assert(items.take(items.len() as int) =~= items);
}

pub proof fn lemma_flatten_seq_snoc(items: Seq<QueueItem>, last: QueueItem)
    ensures
        spec_flatten_seq(items.push(last), 0) == spec_flatten_seq(items, 0) + spec_flatten(last),
{
    lemma_flatten_seq_snoc_at(items, last, 0);
}

proof fn lemma_flatten_seq_snoc_at(items: Seq<QueueItem>, last: QueueItem, i: int)
    requires
        0 <= i <= items.len(),
    ensures
        spec_flatten_seq(items.push(last), i) == spec_flatten_seq(items, i) + spec_flatten(last),
    decreases items.len() - i,
{
    if i < items.len() {
        assert(items.push(last)[i] == items[i]);
        lemma_flatten_seq_snoc_at(items, last, i + 1);
        assert(spec_flatten(items[i]) + (spec_flatten_seq(items, i + 1) + spec_flatten(last))
            =~= (spec_flatten(items[i]) + spec_flatten_seq(items, i + 1)) + spec_flatten(last));
    } else {
        assert(items.push(last)[i] == last);
        assert(spec_flatten_seq(items, i) =~= Seq::<QueueTrack>::empty());
        assert(spec_flatten_seq(items.push(last), i + 1) =~= Seq::<QueueTrack>::empty());
        assert(Seq::<QueueTrack>::empty() + spec_flatten(last) =~= spec_flatten(last));
        assert(spec_flatten_seq(items.push(last), i) =~= spec_flatten(last));
    }
}

/// Whether `b` is `a` with `opts` installed on every album and
/// playlist node, tracks untouched.
pub open spec fn spec_options_set(a: QueueItem, b: QueueItem, opts: QueueOptions) -> bool
    decreases a, 0int,
{
    match (a, b) {
        (QueueItem::Track(x), QueueItem::Track(y)) => x == y,
        (QueueItem::Album(x), QueueItem::Album(y)) => y.album == x.album && y.tracks@ == x.tracks@
            && options_like(y.queue_option, opts) && y.id == x.id,
        (QueueItem::Playlist(x), QueueItem::Playlist(y)) => y.playlist == x.playlist
            && options_like(y.queue_option, opts) && y.id == x.id && y.playlist_items@.len()
            == x.playlist_items@.len() && spec_options_set_seq(
            x.playlist_items@,
            y.playlist_items@,
            opts,
            0,
        ),
        _ => false,
    }
}

pub open spec fn spec_options_set_seq(
    a: Seq<QueueItem>,
    b: Seq<QueueItem>,
    opts: QueueOptions,
    i: int,
) -> bool
    decreases a, a.len() - i,
{
    if i < 0 || i >= a.len() || a.len() != b.len() {
        true
    } else {
        spec_options_set(a[i], b[i], opts) && spec_options_set_seq(a, b, opts, i + 1)
    }
}

proof fn lemma_options_set_seq_snoc(
    a: Seq<QueueItem>,
    b: Seq<QueueItem>,
    x: QueueItem,
    y: QueueItem,
    opts: QueueOptions,
    i: int,
)
    requires
        a.len() == b.len(),
        0 <= i <= a.len(),
        spec_options_set_seq(a, b, opts, i),
        spec_options_set(x, y, opts),
    ensures
        spec_options_set_seq(a.push(x), b.push(y), opts, i),
    decreases a.len() - i,
{
    if i < a.len() {
        assert(a.push(x)[i] == a[i]);
        assert(b.push(y)[i] == b[i]);
        lemma_options_set_seq_snoc(a, b, x, y, opts, i + 1);
    } else {
        assert(a.push(x)[i] == x);
        assert(b.push(y)[i] == y);
        assert(spec_options_set_seq(a.push(x), b.push(y), opts, i + 1));
    }
}

impl QueueItem {
    /// Install options on this node and every container below it.
    pub fn set_queue_options_rec(&mut self, options: QueueOptions)
        ensures
            spec_options_set(*old(self), *final(self), options),
    {
        let mut tmp = placeholder_item();
        core::mem::swap(self, &mut tmp);
        let done = Self::set_queue_options_rec_owned(tmp, &options);
        *self = done;
    }

    #[verifier::loop_isolation(false)]
    fn set_queue_options_rec_owned(item: QueueItem, options: &QueueOptions) -> (r: QueueItem)
        ensures
            spec_options_set(item, r, *options),
        decreases item, 1int,
    {
        let ghost item0 = item;
        match item {
            QueueItem::Track(t) => QueueItem::Track(t),
            QueueItem::Album(mut a) => {
                a.queue_option = options.clone();
                QueueItem::Album(a)
            },
            QueueItem::Playlist(mut p) => {
                p.queue_option = options.clone();
                let ghost orig_items = p.playlist_items@;
                let n = p.playlist_items.len();
                let mut i: usize = 0;
                while i < n
                    invariant
                        i <= n,
                        n == p.playlist_items@.len() == orig_items.len(),
                        forall|j: int| i <= j < n ==> p.playlist_items@[j] == orig_items[j],
                        spec_options_set_seq(
                            orig_items.take(i as int),
                            p.playlist_items@.take(i as int),
                            *options,
                            0,
                        ),
                        item0 matches QueueItem::Playlist(p0) && p0.playlist_items@ == orig_items
                            && p.playlist == p0.playlist && p.id == p0.id,
                        options_like(p.queue_option, *options),
                    decreases n - i,
                {
                    let ghost before = p.playlist_items@;
                    let mut child = placeholder_item();
                    p.playlist_items.set_and_swap(i, &mut child);
                    proof {
                        broadcast use vstd::std_specs::vec::axiom_vec_index_decreases;

                        assert(child == item0->Playlist_0.playlist_items[i as int]);
                        assert(decreases_to!(item0 => item0->Playlist_0));
                        assert(decreases_to!(item0->Playlist_0 => item0
                            ->Playlist_0.playlist_items));
                        assert(decreases_to!(item0->Playlist_0.playlist_items => item0
                            ->Playlist_0.playlist_items[i as int]));
                    }
                    let c2 = Self::set_queue_options_rec_owned(child, options);
                    p.playlist_items.set(i, c2);
                    proof {
                        assert(orig_items.take(i + 1) =~= orig_items.take(i as int).push(
                            orig_items[i as int],
                        ));
                        assert(p.playlist_items@.take(i + 1) =~= before.take(i as int).push(c2));
                        assert(before.take(i as int) =~= p.playlist_items@.take(i as int));
                        lemma_options_set_seq_snoc(
                            orig_items.take(i as int),
                            before.take(i as int),
                            orig_items[i as int],
                            c2,
                            *options,
                            0,
                        );
                    }
                    i = i + 1;
                }
                proof {
                    assert(orig_items.take(n as int) =~= orig_items);
                    assert(p.playlist_items@.take(n as int) =~= p.playlist_items@);
                }
                QueueItem::Playlist(p)
            },
        }
    }
}

/// How many albums and playlists one item holds, the nodes that take
/// an identifier.
pub open spec fn spec_n_containers(item: QueueItem) -> int
    decreases item, 0int,
{
    match item {
        QueueItem::Track(_) => 0,
        QueueItem::Album(_) => 1,
        QueueItem::Playlist(p) => 1 + spec_n_containers_seq(p.playlist_items@, 0),
    }
}

pub open spec fn spec_n_containers_seq(items: Seq<QueueItem>, i: int) -> int
    decreases items, items.len() - i,
{
    if i < 0 || i >= items.len() {
        0
    } else {
        spec_n_containers(items[i]) + spec_n_containers_seq(items, i + 1)
    }
}

/// How many nodes of the tree carry identifier `k`.
pub open spec fn spec_count_id(item: QueueItem, k: usize) -> int
    decreases item, 0int,
{
    match item {
        QueueItem::Track(_) => 0,
        QueueItem::Album(a) => if a.id == k {
            1int
        } else {
            0int
        },
        QueueItem::Playlist(p) => (if p.id == k {
            1int
        } else {
            0int
        }) + spec_count_id_seq(p.playlist_items@, k, 0),
    }
}

pub open spec fn spec_count_id_seq(items: Seq<QueueItem>, k: usize, i: int) -> int
    decreases items, items.len() - i,
{
    if i < 0 || i >= items.len() {
        0
    } else {
        spec_count_id(items[i], k) + spec_count_id_seq(items, k, i + 1)
    }
}

proof fn lemma_n_containers_nonneg(item: QueueItem)
    ensures
        spec_n_containers(item) >= 0,
    decreases item, 1int,
{
    match item {
        QueueItem::Playlist(p) => {
            lemma_n_containers_seq_nonneg(p.playlist_items@, 0);
        },
        _ => {},
    }
}

proof fn lemma_n_containers_seq_nonneg(items: Seq<QueueItem>, i: int)
    ensures
        spec_n_containers_seq(items, i) >= 0,
    decreases items, items.len() - i, 2int,
{
    if 0 <= i < items.len() {
        lemma_n_containers_nonneg(items[i]);
        lemma_n_containers_seq_nonneg(items, i + 1);
    }
}

/// Without wrap-around, numbering advances by exactly the number of
/// containers.
proof fn lemma_next_id_is_count(item: QueueItem, id: usize)
    requires
        id + spec_n_containers(item) <= usize::MAX,
    ensures
        spec_next_id(item, id) == id + spec_n_containers(item),
    decreases item, 1int,
{
    match item {
        QueueItem::Track(_) => {},
        QueueItem::Album(_) => {},
        QueueItem::Playlist(p) => {
            lemma_n_containers_seq_nonneg(p.playlist_items@, 0);
            lemma_next_id_seq_is_count(p.playlist_items@, spec_wrap_id(id), 0);
        },
    }
}

proof fn lemma_next_id_seq_is_count(items: Seq<QueueItem>, id: usize, i: int)
    requires
        0 <= i <= items.len(),
        id + spec_n_containers_seq(items, i) <= usize::MAX,
    ensures
        spec_next_id_seq(items, id, i) == id + spec_n_containers_seq(items, i),
    decreases items, items.len() - i, 2int,
{
    if i < items.len() {
        lemma_n_containers_nonneg(items[i]);
        lemma_n_containers_seq_nonneg(items, i + 1);
        lemma_next_id_is_count(items[i], id);
        lemma_next_id_seq_is_count(items, spec_next_id(items[i], id), i + 1);
    }
}

/// History id pairing rests on this law: numbering a tree depth-first
/// from `id` gives its albums and playlists pairwise distinct
/// identifiers — every identifier in the assigned range occurs exactly
/// once in the tree, and none outside it occurs at all.
pub proof fn lemma_ids_unique(a: QueueItem, b: QueueItem, id: usize)
    requires
        spec_numbered(a, b, id),
        id + spec_n_containers(a) <= usize::MAX,
    ensures
        forall|k: usize|
            #[trigger] spec_count_id(b, k) == if id <= k < id + spec_n_containers(a) {
                1int
            } else {
                0int
            },
    decreases a, 1int,
{
    match (a, b) {
        (QueueItem::Track(_), QueueItem::Track(_)) => {},
        (QueueItem::Album(_), QueueItem::Album(_)) => {},
        (QueueItem::Playlist(x), QueueItem::Playlist(y)) => {
            lemma_n_containers_seq_nonneg(x.playlist_items@, 0);
            lemma_ids_unique_seq(x.playlist_items@, y.playlist_items@, spec_wrap_id(id), 0);
            assert forall|k: usize| #[trigger] spec_count_id(b, k) == (if id <= k < id
                + spec_n_containers(a) {
                1int
            } else {
                0int
            }) by {
                assert(spec_count_id_seq(y.playlist_items@, k, 0) == (if id + 1 <= k < id + 1
                    + spec_n_containers_seq(x.playlist_items@, 0) {
                    1int
                } else {
                    0int
                }));
            }
        },
        _ => {},
    }
}

proof fn lemma_ids_unique_seq(a: Seq<QueueItem>, b: Seq<QueueItem>, id: usize, i: int)
    requires
        a.len() == b.len(),
        0 <= i <= a.len(),
        spec_numbered_seq(a, b, id, i),
        id + spec_n_containers_seq(a, i) <= usize::MAX,
    ensures
        forall|k: usize|
            #[trigger] spec_count_id_seq(b, k, i) == if id <= k < id + spec_n_containers_seq(
                a,
                i,
            ) {
                1int
            } else {
                0int
            },
    decreases a, a.len() - i, 2int,
{
    if i < a.len() {
        lemma_n_containers_nonneg(a[i]);
        lemma_n_containers_seq_nonneg(a, i + 1);
        lemma_ids_unique(a[i], b[i], id);
        lemma_next_id_is_count(a[i], id);
        lemma_ids_unique_seq(a, b, spec_next_id(a[i], id), i + 1);
        let mid = id + spec_n_containers(a[i]);
        assert forall|k: usize| #[trigger] spec_count_id_seq(b, k, i) == (if id <= k < id
            + spec_n_containers_seq(a, i) {
            1int
        } else {
            0int
        }) by {
            assert(spec_count_id(b[i], k) == (if id <= k < mid {
                1int
            } else {
                0int
            }));
            assert(spec_count_id_seq(b, k, i + 1) == (if mid <= k < mid + spec_n_containers_seq(
                a,
                i + 1,
            ) {
                1int
            } else {
                0int
            }));
        }
    }
}

/// The multiset of tracks reachable from a list of items.
pub open spec fn flatten_ms(items: Seq<QueueItem>) -> Multiset<QueueTrack> {
    spec_flatten_seq(items, 0).to_multiset()
}

proof fn lemma_flatten_seq_skip(s: Seq<QueueItem>, k: int, i: int)
    requires
        0 <= k,
        0 <= i,
        k + i <= s.len(),
    ensures
        spec_flatten_seq(s.skip(k), i) == spec_flatten_seq(s, k + i),
    decreases s.len() - k - i,
{
    if k + i < s.len() {
        assert(s.skip(k)[i] == s[k + i]);
        lemma_flatten_seq_skip(s, k, i + 1);
    }
}

proof fn lemma_flatten_split(s: Seq<QueueItem>, i: int)
    requires
        0 <= i <= s.len(),
    ensures
        spec_flatten_seq(s, 0) == spec_flatten_seq(s.take(i), 0) + spec_flatten_seq(s, i),
    decreases i,
{
    if i == 0 {
        assert(spec_flatten_seq(s.take(0), 0) =~= Seq::<QueueTrack>::empty());
        assert(Seq::<QueueTrack>::empty() + spec_flatten_seq(s, 0) =~= spec_flatten_seq(s, 0));
    } else {
        lemma_flatten_split(s, i - 1);
        assert(s.take(i) =~= s.take(i - 1).push(s[i - 1]));
        lemma_flatten_seq_snoc(s.take(i - 1), s[i - 1]);
        assert(spec_flatten_seq(s, i - 1) == spec_flatten(s[i - 1]) + spec_flatten_seq(s, i));
        assert(spec_flatten_seq(s.take(i - 1), 0) + (spec_flatten(s[i - 1]) + spec_flatten_seq(
            s,
            i,
        )) =~= (spec_flatten_seq(s.take(i - 1), 0) + spec_flatten(s[i - 1])) + spec_flatten_seq(
            s,
            i,
        ));
    }
}

proof fn lemma_flatten_seq_congruent(a: Seq<QueueItem>, b: Seq<QueueItem>, i: int)
    requires
        a.len() == b.len(),
        0 <= i,
        forall|j: int| i <= j < a.len() ==> a[j] == b[j],
    ensures
        spec_flatten_seq(a, i) == spec_flatten_seq(b, i),
    decreases a.len() - i,
{
    if i < a.len() {
        lemma_flatten_seq_congruent(a, b, i + 1);
    }
}

proof fn lemma_flatten_seq_concat(a: Seq<QueueItem>, b: Seq<QueueItem>)
    ensures
        spec_flatten_seq(a + b, 0) == spec_flatten_seq(a, 0) + spec_flatten_seq(b, 0),
{
    lemma_flatten_split(a + b, a.len() as int);
    assert((a + b).take(a.len() as int) =~= a);
    lemma_flatten_seq_skip(a + b, a.len() as int, 0);
    assert((a + b).skip(a.len() as int) =~= b);
}

/// Replacing the item at `i` trades its tracks for the new item's:
/// both sides of the exchange carry the same multiset.
pub proof fn lemma_flatten_ms_update(s: Seq<QueueItem>, i: int, x: QueueItem)
    requires
        0 <= i < s.len(),
    ensures
        flatten_ms(s.update(i, x)).add(spec_flatten(s[i]).to_multiset()) == flatten_ms(s).add(
            spec_flatten(x).to_multiset(),
        ),
{
    broadcast use vstd::seq_lib::lemma_multiset_commutative;
    broadcast use vstd::multiset::group_multiset_axioms;

    let s2 = s.update(i, x);
    lemma_flatten_split(s, i);
    lemma_flatten_split(s2, i);
    assert(s2.take(i) =~= s.take(i));
    assert(spec_flatten_seq(s, i) == spec_flatten(s[i]) + spec_flatten_seq(s, i + 1));
    assert(spec_flatten_seq(s2, i) == spec_flatten(x) + spec_flatten_seq(s2, i + 1));
    lemma_flatten_seq_congruent(s2, s, i + 1);
    let pre = spec_flatten_seq(s.take(i), 0).to_multiset();
    let suf = spec_flatten_seq(s, i + 1).to_multiset();
    let fi = spec_flatten(s[i]).to_multiset();
    let fx = spec_flatten(x).to_multiset();
    assert(flatten_ms(s) =~= pre.add(fi.add(suf)));
    assert(flatten_ms(s2) =~= pre.add(fx.add(suf)));
    assert(pre.add(fx.add(suf)).add(fi) =~= pre.add(fi.add(suf)).add(fx));
}

/// Removing the item at `i` takes exactly its tracks out.
pub proof fn lemma_flatten_ms_remove(s: Seq<QueueItem>, i: int)
    requires
        0 <= i < s.len(),
    ensures
        flatten_ms(s.remove(i)).add(spec_flatten(s[i]).to_multiset()) == flatten_ms(s),
{
    broadcast use vstd::seq_lib::lemma_multiset_commutative;
    broadcast use vstd::multiset::group_multiset_axioms;

    assert(s.remove(i) =~= s.take(i) + s.skip(i + 1));
    lemma_flatten_seq_concat(s.take(i), s.skip(i + 1));
    lemma_flatten_split(s, i);
    assert(spec_flatten_seq(s, i) == spec_flatten(s[i]) + spec_flatten_seq(s, i + 1));
    lemma_flatten_seq_skip(s, i + 1, 0);
    let pre = spec_flatten_seq(s.take(i), 0).to_multiset();
    let suf = spec_flatten_seq(s, i + 1).to_multiset();
    let fi = spec_flatten(s[i]).to_multiset();
    assert(flatten_ms(s.remove(i)) =~= pre.add(suf));
    assert(flatten_ms(s) =~= pre.add(fi.add(suf)));
    assert(pre.add(suf).add(fi) =~= pre.add(fi.add(suf)));
}

/// Appending an item adds exactly its tracks.
pub proof fn lemma_flatten_ms_push(s: Seq<QueueItem>, x: QueueItem)
    ensures
        flatten_ms(s.push(x)) == flatten_ms(s).add(spec_flatten(x).to_multiset()),
{
    broadcast use vstd::seq_lib::lemma_multiset_commutative;

    lemma_flatten_seq_snoc(s, x);
}

/// A single track flattens to exactly itself.
pub proof fn lemma_flatten_track(t: QueueTrack)
    ensures
        spec_flatten(QueueItem::Track(t)).to_multiset() == Multiset::<QueueTrack>::empty().insert(
            t,
        ),
{
    broadcast use vstd::seq_lib::group_to_multiset_ensures;

    assert(spec_flatten(QueueItem::Track(t)) =~= Seq::<QueueTrack>::empty().push(t));
    assert(Seq::<QueueTrack>::empty().push(t).to_multiset() =~= Seq::<
        QueueTrack,
    >::empty().to_multiset().insert(t));
    assert(forall|y: QueueTrack| !Seq::<QueueTrack>::empty().contains(y));
    assert(Seq::<QueueTrack>::empty().to_multiset() =~= Multiset::<QueueTrack>::empty());
}

/// An exhausted item reaches no track at all.
pub proof fn lemma_empty_flattens_empty(item: QueueItem)
    requires
        spec_is_empty(item),
    ensures
        spec_flatten(item) =~= Seq::<QueueTrack>::empty(),
    decreases item, 1int,
{
    match item {
        QueueItem::Track(_) => {},
        QueueItem::Album(_) => {},
        QueueItem::Playlist(p) => {
            lemma_all_empty_flattens_empty(p.playlist_items@, 0);
        },
    }
}

proof fn lemma_all_empty_flattens_empty(items: Seq<QueueItem>, i: int)
    requires
        0 <= i <= items.len(),
        spec_all_empty(items, i),
    ensures
        spec_flatten_seq(items, i) =~= Seq::<QueueTrack>::empty(),
    decreases items, items.len() - i, 2int,
{
    if i < items.len() {
        lemma_empty_flattens_empty(items[i]);
        lemma_all_empty_flattens_empty(items, i + 1);
    }
}

/// A track reachable from the item at `i` is reachable from the list.
pub proof fn lemma_flatten_ms_contains(s: Seq<QueueItem>, i: int, t: QueueTrack)
    requires
        0 <= i < s.len(),
        spec_flatten(s[i]).to_multiset().contains(t),
    ensures
        flatten_ms(s).contains(t),
{
    broadcast use vstd::seq_lib::lemma_multiset_commutative;
    broadcast use vstd::multiset::group_multiset_axioms;

    lemma_flatten_split(s, i);
    assert(spec_flatten_seq(s, i) == spec_flatten(s[i]) + spec_flatten_seq(s, i + 1));
}

pub proof fn lemma_ms_cancel(
    a: Multiset<QueueTrack>,
    b: Multiset<QueueTrack>,
    c: Multiset<QueueTrack>,
)
    requires
        a.add(c) == b.add(c),
    ensures
        a == b,
{
    broadcast use vstd::multiset::group_multiset_axioms;

    assert forall|t: QueueTrack| #[trigger] a.count(t) == b.count(t) by {
        assert(a.add(c).count(t) == a.count(t) + c.count(t));
        assert(b.add(c).count(t) == b.count(t) + c.count(t));
        assert(a.add(c).count(t) == b.add(c).count(t));
    }
    assert(a =~= b);
}

pub proof fn lemma_ms_insert_is_add(m: Multiset<QueueTrack>, t: QueueTrack)
    ensures
        m.insert(t) == m.add(Multiset::<QueueTrack>::empty().insert(t)),
{
    broadcast use vstd::multiset::group_multiset_axioms;

    assert(m.insert(t) =~= m.add(Multiset::<QueueTrack>::empty().insert(t)));
}

pub proof fn lemma_ms_add_empty(m: Multiset<QueueTrack>)
    ensures
        m.add(Multiset::<QueueTrack>::empty()) == m,
{
    broadcast use vstd::multiset::group_multiset_axioms;

    assert(m.add(Multiset::<QueueTrack>::empty()) =~= m);
}

pub proof fn lemma_empty_seq_ms()
    ensures
        Seq::<QueueTrack>::empty().to_multiset() == Multiset::<QueueTrack>::empty(),
{
    broadcast use vstd::seq_lib::group_to_multiset_ensures;
    broadcast use vstd::multiset::group_multiset_axioms;

    assert(forall|y: QueueTrack| !Seq::<QueueTrack>::empty().contains(y));
    assert(Seq::<QueueTrack>::empty().to_multiset() =~= Multiset::<QueueTrack>::empty());
}

/// An exchange where the new part carries one extra track: the whole
/// gains exactly that track.
pub proof fn lemma_ms_update_gain(
    a1: Multiset<QueueTrack>,
    a0: Multiset<QueueTrack>,
    f0: Multiset<QueueTrack>,
    t: QueueTrack,
)
    requires
        a1.add(f0) == a0.add(f0.insert(t)),
    ensures
        a1 == a0.insert(t),
{
    broadcast use vstd::multiset::group_multiset_axioms;

    assert forall|y: QueueTrack| #[trigger] a1.count(y) == a0.insert(t).count(y) by {
        assert(a1.add(f0).count(y) == a1.count(y) + f0.count(y));
        assert(a0.add(f0.insert(t)).count(y) == a0.count(y) + f0.insert(t).count(y));
    }
    assert(a1 =~= a0.insert(t));
}

/// An exchange where the new part lost exactly one track: the whole
/// loses exactly that track.
pub proof fn lemma_ms_update_loss(
    a1: Multiset<QueueTrack>,
    a0: Multiset<QueueTrack>,
    f1: Multiset<QueueTrack>,
    t: QueueTrack,
)
    requires
        a1.add(f1.insert(t)) == a0.add(f1),
    ensures
        a1.insert(t) == a0,
{
    broadcast use vstd::multiset::group_multiset_axioms;

    assert forall|y: QueueTrack| #[trigger] a1.insert(t).count(y) == a0.count(y) by {
        assert(a1.add(f1.insert(t)).count(y) == a1.count(y) + f1.insert(t).count(y));
        assert(a0.add(f1).count(y) == a0.count(y) + f1.count(y));
    }
    assert(a1.insert(t) =~= a0);
}

/// Renumbering a tree moves no track: the flattening is unchanged.
pub proof fn lemma_numbered_flatten(a: QueueItem, b: QueueItem, id: usize)
    requires
        spec_numbered(a, b, id),
    ensures
        spec_flatten(b) == spec_flatten(a),
    decreases a, 1int,
{
    match (a, b) {
        (QueueItem::Playlist(x), QueueItem::Playlist(y)) => {
            lemma_numbered_flatten_seq(
                x.playlist_items@,
                y.playlist_items@,
                spec_wrap_id(id),
                0,
            );
        },
        _ => {},
    }
}

proof fn lemma_numbered_flatten_seq(a: Seq<QueueItem>, b: Seq<QueueItem>, id: usize, i: int)
    requires
        a.len() == b.len(),
        0 <= i <= a.len(),
        spec_numbered_seq(a, b, id, i),
    ensures
        spec_flatten_seq(b, i) == spec_flatten_seq(a, i),
    decreases a, a.len() - i, 2int,
{
    if i < a.len() {
        lemma_numbered_flatten(a[i], b[i], id);
        lemma_numbered_flatten_seq(a, b, spec_next_id(a[i], id), i + 1);
    }
}

/// A list of plain track items flattens to exactly those tracks.
pub proof fn lemma_flatten_ms_tracks(flat: Seq<QueueTrack>)
    ensures
        flatten_ms(flat.map_values(|t: QueueTrack| QueueItem::Track(t))) == flat.to_multiset(),
    decreases flat.len(),
{
    broadcast use vstd::seq_lib::group_to_multiset_ensures;

    let f = |t: QueueTrack| QueueItem::Track(t);
    if flat.len() == 0 {
        assert(flat.map_values(f) =~= Seq::<QueueItem>::empty());
        assert(spec_flatten_seq(Seq::<QueueItem>::empty(), 0) =~= Seq::<QueueTrack>::empty());
        lemma_empty_seq_ms();
        assert(forall|y: QueueTrack| !flat.contains(y));
        assert(flat.to_multiset() =~= Multiset::<QueueTrack>::empty());
    } else {
        let init = flat.drop_last();
        let last = flat.last();
        lemma_flatten_ms_tracks(init);
        assert(flat.map_values(f) =~= init.map_values(f).push(QueueItem::Track(last)));
        lemma_flatten_ms_push(init.map_values(f), QueueItem::Track(last));
        lemma_flatten_track(last);
        lemma_ms_insert_is_add(init.to_multiset(), last);
        assert(init.push(last) =~= flat);
        assert(init.push(last).to_multiset() =~= init.to_multiset().insert(last));
    }
}

} // verus!
