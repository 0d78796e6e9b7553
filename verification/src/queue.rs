//! The play queue: a recursive composition of tracks, albums and
//! playlists, with per-level shuffle policies, a bounded history of
//! played items, and a next-up lane consumed before the main queue.

pub mod queue_items;
pub mod select_track;

use crate::queue::queue_items::flatten_ms;
use crate::queue::queue_items::lemma_flatten_seq_snoc;
use crate::queue::queue_items::lemma_numbered_flatten;
use crate::queue::queue_items::spec_all_empty;
use crate::queue::queue_items::spec_flatten;
use crate::queue::queue_items::spec_flatten_seq;
use crate::queue::queue_items::spec_next_id;
use crate::queue::queue_items::spec_numbered;
use crate::queue::queue_items::QueueItem;
use crate::queue::queue_items::QueueTrack;
use crate::queue::select_track::select_rec;
use vstd::prelude::*;

verus! {

/// Recursion through nested playlists is bounded by this depth.
pub const DEPTH_LIMIT: usize = 10;

/// How a container picks its next child, and what else governs a
/// level of the queue.
pub struct QueueOptions {
    pub shuffle_type: ShuffleType,
    pub stop_condition: StopCondition,
    /// The index of the last chosen child, for resume and for
    /// sequential advance.
    pub selected: Option<usize>,
    /// Whether a played track stays in its container.
    pub repeat: bool,
}

impl Clone for QueueOptions {
    fn clone(&self) -> (r: Self)
        ensures
            options_like(*self, r),
    {
        QueueOptions {
            shuffle_type: self.shuffle_type.clone(),
            stop_condition: self.stop_condition.clone(),
            selected: match self.selected {
                Some(i) => Some(i),
                None => None,
            },
            repeat: self.repeat,
        }
    }
}

impl Default for QueueOptions {
    fn default() -> (r: Self)
        ensures
            r.shuffle_type == ShuffleType::Sequential,
            r.stop_condition == StopCondition::EndOfList,
            r.selected is None,
            !r.repeat,
    {
        QueueOptions {
            shuffle_type: ShuffleType::Sequential,
            stop_condition: StopCondition::EndOfList,
            selected: None,
            repeat: false,
        }
    }
}

impl QueueOptions {
    /// The same as the default options.
    pub fn new() -> (r: Self)
        ensures
            r.shuffle_type == ShuffleType::Sequential,
            r.stop_condition == StopCondition::EndOfList,
            r.selected is None,
            !r.repeat,
    {
        Self::default()
    }
}

/// The shuffle policy of one container level.
pub enum ShuffleType {
    /// Children play in order.
    Sequential,
    /// Uniform over the children, each draw independent.
    TrueRandom,
    /// Weights that mutate to avoid immediate repeats: after a draw
    /// every weight grows by one and the chosen one resets to zero.
    WeightedRandom(Vec<usize>),
    /// Static weights that never change.
    WeightedDefault(Vec<usize>),
    /// Mutating anti-repeat weights on top of static defaults; draws
    /// go by their sum, mutation touches only the first list.
    WeightedRandomWithDefault(Vec<usize>, Vec<usize>),
}

impl Clone for ShuffleType {
    fn clone(&self) -> (r: Self)
        ensures
            shuffle_like(*self, r),
    {
        match self {
            ShuffleType::Sequential => ShuffleType::Sequential,
            ShuffleType::TrueRandom => ShuffleType::TrueRandom,
            ShuffleType::WeightedRandom(w) => {
                let r = ShuffleType::WeightedRandom(w.clone());
                proof {
                    assert(r->WeightedRandom_0@ =~= w@);
                }
                r
            },
            ShuffleType::WeightedDefault(w) => {
                let r = ShuffleType::WeightedDefault(w.clone());
                proof {
                    assert(r->WeightedDefault_0@ =~= w@);
                }
                r
            },
            ShuffleType::WeightedRandomWithDefault(w, d) => {
                let r = ShuffleType::WeightedRandomWithDefault(w.clone(), d.clone());
                proof {
                    assert(r->WeightedRandomWithDefault_0@ =~= w@);
                    assert(r->WeightedRandomWithDefault_1@ =~= d@);
                }
                r
            },
        }
    }
}

/// Whether two shuffle policies are the same, weight for weight.
pub open spec fn shuffle_like(a: ShuffleType, b: ShuffleType) -> bool {
    match (a, b) {
        (ShuffleType::Sequential, ShuffleType::Sequential) => true,
        (ShuffleType::TrueRandom, ShuffleType::TrueRandom) => true,
        (ShuffleType::WeightedRandom(x), ShuffleType::WeightedRandom(y)) => x@ == y@,
        (ShuffleType::WeightedDefault(x), ShuffleType::WeightedDefault(y)) => x@ == y@,
        (
            ShuffleType::WeightedRandomWithDefault(x, xd),
            ShuffleType::WeightedRandomWithDefault(y, yd),
        ) => x@ == y@ && xd@ == yd@,
        _ => false,
    }
}

/// Whether two option records agree.
pub open spec fn options_like(a: QueueOptions, b: QueueOptions) -> bool {
    shuffle_like(a.shuffle_type, b.shuffle_type) && a.stop_condition == b.stop_condition
        && a.selected == b.selected && a.repeat == b.repeat
}

impl Default for ShuffleType {
    fn default() -> (r: Self)
        ensures
            r == ShuffleType::Sequential,
    {
        ShuffleType::Sequential
    }
}

impl ShuffleType {
    /// Anti-repeat weights over `size` children, all starting at one.
    pub fn new_weighted_random(size: usize) -> (r: Self)
        ensures
            r matches ShuffleType::WeightedRandom(w) && w@.len() == size && (forall|i: int|
                0 <= i < size ==> w@[i] == 1),
    {
        let mut w: Vec<usize> = Vec::new();
        let mut k: usize = 0;
        while k < size
            invariant
                k <= size,
                w@.len() == k,
                forall|i: int| 0 <= i < k ==> w@[i] == 1,
            decreases size - k,
        {
            w.push(1);
            k = k + 1;
        }
        ShuffleType::WeightedRandom(w)
    }

    /// Anti-repeat weights of one each on top of the given defaults.
    pub fn new_weighted_random_default(default_weights: Vec<usize>) -> (r: Self)
        ensures
            r matches ShuffleType::WeightedRandomWithDefault(w, d) && d == default_weights
                && w@.len() == default_weights@.len() && (forall|i: int|
                0 <= i < w@.len() ==> w@[i] == 1),
    {
        let size = default_weights.len();
        let mut w: Vec<usize> = Vec::new();
        let mut k: usize = 0;
        while k < size
            invariant
                k <= size,
                w@.len() == k,
                forall|i: int| 0 <= i < k ==> w@[i] == 1,
            decreases size - k,
        {
            w.push(1);
            k = k + 1;
        }
        ShuffleType::WeightedRandomWithDefault(w, default_weights)
    }

    /// A short tag for display.
    pub fn display_small(&self) -> (r: &'static str)
        ensures
            (*self is Sequential) ==> r@ == "N"@,
            (*self is TrueRandom) ==> r@ == "TR"@,
            (*self matches ShuffleType::WeightedRandom(_)) ==> r@ == "WR"@,
            (*self matches ShuffleType::WeightedDefault(_)) ==> r@ == "WD"@,
            (*self matches ShuffleType::WeightedRandomWithDefault(_, _)) ==> r@ == "WRD"@,
    {
        match self {
            ShuffleType::Sequential => "N",
            ShuffleType::TrueRandom => "TR",
            ShuffleType::WeightedRandom(_) => "WR",
            ShuffleType::WeightedDefault(_) => "WD",
            ShuffleType::WeightedRandomWithDefault(_, _) => "WRD",
        }
    }
}

/// When the queue stops advancing on its own.
pub enum StopCondition {
    /// Stop at the end of the queue.
    EndOfList,
    /// Loop at the end of the list.
    Endless,
    /// Stop after this many tracks.
    AmountTracks(usize),
    /// Stop after this much time, in milliseconds.
    Time(u64),
}

impl Clone for StopCondition {
    fn clone(&self) -> (r: Self)
        ensures
            r == *self,
    {
        match self {
            StopCondition::EndOfList => StopCondition::EndOfList,
            StopCondition::Endless => StopCondition::Endless,
            StopCondition::AmountTracks(n) => StopCondition::AmountTracks(*n),
            StopCondition::Time(t) => StopCondition::Time(*t),
        }
    }
}

impl Default for StopCondition {
    fn default() -> (r: Self)
        ensures
            r == StopCondition::EndOfList,
    {
        StopCondition::EndOfList
    }
}

/// Errors from changing a shuffle policy.
#[derive(Clone, Copy, Debug, PartialEq, Eq, Structural)]
pub enum ShuffleError {
    /// A weight list's length does not match the container.
    WrongLength,
}

/// Whether every weight list of `shuffle` has exactly `length` entries.
pub open spec fn shuffle_fits(shuffle: &ShuffleType, length: int) -> bool {
    match shuffle {
        ShuffleType::WeightedRandom(w) => w@.len() == length,
        ShuffleType::WeightedDefault(w) => w@.len() == length,
        ShuffleType::WeightedRandomWithDefault(w, d) => w@.len() == length && d@.len() == length,
        _ => true,
    }
}

/// Install a new shuffle policy, but only when its weight lists match
/// the container's length; otherwise nothing changes.
pub fn switch_shuffle(shuffle: &mut ShuffleType, new_shuffle: ShuffleType, length: usize) -> (r:
    Result<(), ShuffleError>)
    ensures
        shuffle_fits(&new_shuffle, length as int) ==> (r matches Ok(()) && *final(shuffle)
            == new_shuffle),
        !shuffle_fits(&new_shuffle, length as int) ==> (r matches Err(e) && e
            == ShuffleError::WrongLength && *final(shuffle) == *old(shuffle)),
{
    let ok = match &new_shuffle {
        ShuffleType::WeightedRandom(w) => w.len() == length,
        ShuffleType::WeightedDefault(w) => w.len() == length,
        ShuffleType::WeightedRandomWithDefault(w, d) => w.len() == length && d.len() == length,
        _ => true,
    };
    if !ok {
        return Err(ShuffleError::WrongLength);
    }
    *shuffle = new_shuffle;
    Ok(())
}

/// The top-level play queue: the main items, the bounded history of
/// played items, the next-up lane consumed first, and the options of
/// the top level. `next_id` allocates identifiers for every container
/// inserted, so source nodes pair with their history mirrors.
pub struct Queue {
    pub queue_items: Vec<QueueItem>,
    pub played_items: Vec<QueueItem>,
    pub max_history: usize,
    pub queue_options: QueueOptions,
    pub repeat_current: bool,
    pub current_track: Option<String>,
    pub next_up: Vec<QueueItem>,
    // Nothing to do with next_up: the identifier allocator.
    pub next_id: usize,
}

impl Default for Queue {
    fn default() -> (r: Queue)
        ensures
            r.queue_items@.len() == 0,
            r.played_items@.len() == 0,
            r.next_up@.len() == 0,
            r.max_history == 128,
            !r.repeat_current,
            r.current_track is None,
            r.next_id == 0,
    {
        Queue {
            queue_items: Vec::new(),
            played_items: Vec::new(),
            max_history: 128,
            queue_options: QueueOptions::default(),
            repeat_current: false,
            current_track: None,
            next_up: Vec::new(),
            next_id: 0,
        }
    }
}

impl Queue {
    pub fn new() -> (r: Queue)
        ensures
            r.queue_items@.len() == 0,
            r.played_items@.len() == 0,
            r.next_up@.len() == 0,
            r.max_history == 128,
            !r.repeat_current,
            r.current_track is None,
            r.next_id == 0,
    {
        Self::default()
    }

    /// Replace the queue with the given item — renumbered, flattened
    /// to plain tracks when asked — and select its first track under
    /// the default options; the chosen track becomes current. The
    /// selection consumes from the freshly installed queue, so the
    /// track handed back was reachable in the item, unless the next-up
    /// lane intervened first.
    pub fn play_queue_item(&mut self, queue_item: QueueItem, flatten: bool) -> (r: Option<String>)
        ensures
            r == final(self).current_track,
            final(self).next_id == spec_next_id(queue_item, old(self).next_id),
            (spec_all_empty(old(self).next_up@, 0) && !(old(self).repeat_current && old(self).current_track is Some)) ==> (match r {
                Some(path) => exists|t: QueueTrack|
                    #[trigger] t.location == path && spec_flatten(queue_item).to_multiset().contains(
                        t,
                    ) && (flatten_ms(final(self).queue_items@).insert(t) == spec_flatten(
                        queue_item,
                    ).to_multiset() || flatten_ms(final(self).queue_items@) == spec_flatten(
                        queue_item,
                    ).to_multiset()),
                None => flatten_ms(final(self).queue_items@) == spec_flatten(
                    queue_item,
                ).to_multiset(),
            }),
    {
        let ghost item0 = queue_item;
        self.clear_queue();
        self.append_queue_item(queue_item, flatten);
        proof {
            if flatten {
                assert(self.queue_items@ =~= spec_flatten(item0).map_values(
                    |t: QueueTrack| QueueItem::Track(t),
                ));
                crate::queue::queue_items::lemma_flatten_ms_tracks(spec_flatten(item0));
            } else {
                assert(self.queue_items@ =~= seq![self.queue_items@.last()]);
                assert(spec_flatten_seq(self.queue_items@, 1) =~= Seq::<QueueTrack>::empty());
                assert(spec_flatten_seq(self.queue_items@, 0) =~= spec_flatten(
                    self.queue_items@.last(),
                ) + Seq::<QueueTrack>::empty());
                assert(spec_flatten_seq(self.queue_items@, 0) =~= spec_flatten(
                    self.queue_items@.last(),
                ));
                assert(flatten_ms(self.queue_items@) == spec_flatten(item0).to_multiset());
            }
        }
        let t = self.next_track();
        self.current_track = t;
        match &self.current_track {
            Some(s) => Some(s.clone()),
            None => None,
        }
    }

    /// Remove everything in the main queue — not the next-up lane,
    /// not the history — and reset the top-level options.
    pub fn clear_queue(&mut self)
        ensures
            final(self).queue_items@.len() == 0,
            final(self).played_items == old(self).played_items,
            final(self).next_up == old(self).next_up,
            final(self).current_track == old(self).current_track,
            final(self).max_history == old(self).max_history,
            final(self).repeat_current == old(self).repeat_current,
            final(self).next_id == old(self).next_id,
    {
        self.queue_items.clear();
        self.queue_options = QueueOptions::default();
    }

    pub fn clear_next_items(&mut self)
        ensures
            final(self).next_up@.len() == 0,
            final(self).queue_items == old(self).queue_items,
            final(self).played_items == old(self).played_items,
    {
        self.next_up.clear();
    }

    pub fn clear_history(&mut self)
        ensures
            final(self).played_items@.len() == 0,
            final(self).queue_items == old(self).queue_items,
            final(self).next_up == old(self).next_up,
    {
        self.played_items.clear();
    }

    pub fn reset_queue(&mut self)
        ensures
            final(self).queue_items@.len() == 0,
            final(self).next_up@.len() == 0,
            final(self).played_items@.len() == 0,
    {
        self.clear_queue();
        self.clear_next_items();
        self.clear_history();
    }

    /// Switch the top-level shuffle policy; the weight lists must
    /// match the width of the queue.
    pub fn switch_shuffle(&mut self, new_shuffle: ShuffleType) -> (r: Result<(), ShuffleError>)
        ensures
            shuffle_fits(&new_shuffle, old(self).queue_items@.len() as int) ==> (r matches Ok(())
                && final(self).queue_options.shuffle_type == new_shuffle),
            !shuffle_fits(&new_shuffle, old(self).queue_items@.len() as int) ==> (r matches Err(e)
                && e == ShuffleError::WrongLength && final(self).queue_options.shuffle_type == old(self).queue_options.shuffle_type),
            final(self).queue_items == old(self).queue_items,
    {
        let len = self.queue_items.len();
        switch_shuffle(&mut self.queue_options.shuffle_type, new_shuffle, len)
    }

    /// Step the shuffle policy through its cycle: sequential, uniform,
    /// anti-repeat weights, and back.
    pub fn cycle_shuffle(&mut self)
        ensures
            (old(self).queue_options.shuffle_type is Sequential) ==> final(self).queue_options.shuffle_type is TrueRandom,
            (old(self).queue_options.shuffle_type is TrueRandom) ==> final(self).queue_options.shuffle_type matches ShuffleType::WeightedRandom(_),
            !(old(self).queue_options.shuffle_type is Sequential) && !(old(self).queue_options.shuffle_type is TrueRandom) ==> final(self).queue_options.shuffle_type is Sequential,
    {
        let next = match &self.queue_options.shuffle_type {
            ShuffleType::Sequential => ShuffleType::TrueRandom,
            ShuffleType::TrueRandom => ShuffleType::new_weighted_random(self.queue_items.len()),
            _ => ShuffleType::Sequential,
        };
        self.queue_options.shuffle_type = next;
    }

    pub fn queue_items(&self) -> (r: &Vec<QueueItem>)
        ensures
            r == self.queue_items,
    {
        &self.queue_items
    }

    pub fn played_items(&self) -> (r: &Vec<QueueItem>)
        ensures
            r == self.played_items,
    {
        &self.played_items
    }

    pub fn current_track(&self) -> (r: &Option<String>)
        ensures
            r == self.current_track,
    {
        &self.current_track
    }

    /// Append one item, numbering its containers from the allocator;
    /// with `flatten` its tracks are appended one by one instead. The
    /// numbering moves no track, so what is appended flattens to
    /// exactly the item's tracks.
    pub fn append_queue_item(&mut self, item: QueueItem, flatten: bool)
        ensures
            final(self).next_id == spec_next_id(item, old(self).next_id),
            !flatten ==> final(self).queue_items@.len() == old(self).queue_items@.len() + 1
                && spec_numbered(item, final(self).queue_items@.last(), old(self).next_id)
                && final(self).queue_items@.take(old(self).queue_items@.len() as int) == old(self).queue_items@ && spec_flatten(final(self).queue_items@.last()) == spec_flatten(item),
            flatten ==> final(self).queue_items@ == old(self).queue_items@ + spec_flatten(
                item,
            ).map_values(|t: QueueTrack| QueueItem::Track(t)),
            final(self).played_items == old(self).played_items,
            final(self).next_up == old(self).next_up,
            final(self).current_track == old(self).current_track,
            final(self).max_history == old(self).max_history,
            final(self).repeat_current == old(self).repeat_current,
    {
        let ghost item0 = item;
        let mut item = item;
        self.next_id = item.set_id_rec(self.next_id);
        proof {
            lemma_numbered_flatten(item0, item, old(self).next_id);
        }
        if flatten {
            let mut tracks = item.flatten();
            let ghost flat = spec_flatten(item0);
            let n = tracks.len();
            let mut k: usize = 0;
            while k < n
                invariant
                    k <= n,
                    n == flat.len(),
                    tracks@ == flat.skip(k as int),
                    self.queue_items@ == old(self).queue_items@ + flat.take(k as int).map_values(
                        |t: QueueTrack| QueueItem::Track(t),
                    ),
                    self.played_items == old(self).played_items,
                    self.next_up == old(self).next_up,
                    self.current_track == old(self).current_track,
                    self.max_history == old(self).max_history,
                    self.repeat_current == old(self).repeat_current,
                    self.next_id == spec_next_id(item0, old(self).next_id),
                decreases n - k,
            {
                let t = tracks.remove(0);
                proof {
                    assert(t == flat[k as int]);
                    assert(tracks@ =~= flat.skip(k + 1));
                }
                self.queue_items.push(QueueItem::Track(t));
                proof {
                    assert(flat.take(k + 1) =~= flat.take(k as int).push(flat[k as int]));
                    assert(flat.take(k + 1).map_values(|t: QueueTrack| QueueItem::Track(t))
                        =~= flat.take(k as int).map_values(
                        |t: QueueTrack| QueueItem::Track(t),
                    ).push(QueueItem::Track(flat[k as int])));
                    assert(self.queue_items@ =~= old(self).queue_items@ + flat.take(
                        k + 1,
                    ).map_values(|t: QueueTrack| QueueItem::Track(t)));
                }
                k = k + 1;
            }
            proof {
                assert(flat.take(n as int) =~= flat);
            }
        } else {
            self.queue_items.push(item);
            proof {
                assert(self.queue_items@.take(old(self).queue_items@.len() as int) =~= old(self).queue_items@);
            }
        }
    }

    /// Flatten the queue to hold exactly its reachable tracks, in
    /// order, each as a plain track item.
    pub fn flatten(&mut self)
        ensures
            final(self).queue_items@ == spec_flatten_seq(old(self).queue_items@, 0).map_values(
                |t: QueueTrack| QueueItem::Track(t),
            ),
            final(self).played_items == old(self).played_items,
            final(self).next_up == old(self).next_up,
            final(self).current_track == old(self).current_track,
    {
        let mut old_items: Vec<QueueItem> = Vec::new();
        core::mem::swap(&mut old_items, &mut self.queue_items);
        let ghost orig = old_items@;
        let n = old_items.len();
        let mut k: usize = 0;
        while k < n
            invariant
                k <= n,
                n == orig.len(),
                old_items@ == orig.skip(k as int),
                self.queue_items@ == spec_flatten_seq(orig.take(k as int), 0).map_values(
                    |t: QueueTrack| QueueItem::Track(t),
                ),
                self.played_items == old(self).played_items,
                self.next_up == old(self).next_up,
                self.current_track == old(self).current_track,
            decreases n - k,
        {
            let item = old_items.remove(0);
            proof {
                assert(item == orig[k as int]);
                assert(old_items@ =~= orig.skip(k + 1));
            }
            let mut tracks = item.flatten();
            let ghost flat_k = spec_flatten(orig[k as int]);
            let ghost base = self.queue_items@;
            let m = tracks.len();
            let mut j: usize = 0;
            while j < m
                invariant
                    j <= m,
                    m == flat_k.len(),
                    tracks@ == flat_k.skip(j as int),
                    self.queue_items@ == base + flat_k.take(j as int).map_values(
                        |t: QueueTrack| QueueItem::Track(t),
                    ),
                    self.played_items == old(self).played_items,
                    self.next_up == old(self).next_up,
                    self.current_track == old(self).current_track,
                decreases m - j,
            {
                let t = tracks.remove(0);
                proof {
                    assert(t == flat_k[j as int]);
                    assert(tracks@ =~= flat_k.skip(j + 1));
                }
                self.queue_items.push(QueueItem::Track(t));
                proof {
                    assert(flat_k.take(j + 1) =~= flat_k.take(j as int).push(flat_k[j as int]));
                    assert(flat_k.take(j + 1).map_values(|t: QueueTrack| QueueItem::Track(t))
                        =~= flat_k.take(j as int).map_values(
                        |t: QueueTrack| QueueItem::Track(t),
                    ).push(QueueItem::Track(flat_k[j as int])));
                    assert(self.queue_items@ =~= base + flat_k.take(j + 1).map_values(
                        |t: QueueTrack| QueueItem::Track(t),
                    ));
                }
                j = j + 1;
            }
            proof {
                assert(flat_k.take(m as int) =~= flat_k);
                assert(orig.take(k + 1) =~= orig.take(k as int).push(orig[k as int]));
                lemma_flatten_seq_snoc(orig.take(k as int), orig[k as int]);
                assert((spec_flatten_seq(orig.take(k as int), 0) + flat_k).map_values(
                    |t: QueueTrack| QueueItem::Track(t),
                ) =~= spec_flatten_seq(orig.take(k as int), 0).map_values(
                    |t: QueueTrack| QueueItem::Track(t),
                ) + flat_k.map_values(|t: QueueTrack| QueueItem::Track(t)));
                assert(self.queue_items@ =~= spec_flatten_seq(orig.take(k + 1), 0).map_values(
                    |t: QueueTrack| QueueItem::Track(t),
                ));
            }
            k = k + 1;
        }
        proof {
            assert(orig.take(n as int) =~= orig);
        }
    }

    /// Evict the oldest history entries beyond the bound.
    fn trim_history(&mut self)
        ensures
            final(self).played_items@.len() <= old(self).max_history,
            old(self).played_items@.len() <= old(self).max_history ==> final(self).played_items
                == old(self).played_items,
            final(self).queue_items == old(self).queue_items,
            final(self).next_up == old(self).next_up,
            final(self).current_track == old(self).current_track,
            final(self).max_history == old(self).max_history,
            final(self).repeat_current == old(self).repeat_current,
            final(self).next_id == old(self).next_id,
            final(self).queue_options == old(self).queue_options,
    {
        while self.played_items.len() > self.max_history
            invariant
                old(self).played_items@.len() <= old(self).max_history ==> self.played_items
                    == old(self).played_items,
                self.queue_items == old(self).queue_items,
                self.repeat_current == old(self).repeat_current,
                self.next_id == old(self).next_id,
                self.queue_options == old(self).queue_options,
                self.next_up == old(self).next_up,
                self.current_track == old(self).current_track,
                self.max_history == old(self).max_history,
            decreases self.played_items@.len(),
        {
            self.played_items.remove(0);
        }
    }

    /// The next track to play. With repeat-current the current track
    /// answers again and nothing changes. Otherwise the next-up lane
    /// is consumed first: its first reachable track is removed and
    /// mirrored into the history. Only when next-up is exhausted does
    /// the main queue play, under its own policy, consuming unless the
    /// options say repeat. When every lane is exhausted the answer is
    /// nothing. The history is bounded: the oldest entries are evicted
    /// beyond `max_history`; short of that bound, a consumed track
    /// lands in the history.
    pub fn next_track(&mut self) -> (r: Option<String>)
        ensures
            (old(self).repeat_current && old(self).current_track is Some) ==> r == old(self).current_track && *final(self) == *old(self),
            final(self).max_history == old(self).max_history,
            final(self).repeat_current == old(self).repeat_current,
            final(self).current_track == old(self).current_track,
            final(self).next_id == old(self).next_id,
            final(self).played_items@.len() <= old(self).played_items@.len() || final(self).played_items@.len() <= old(self).max_history,
            (!(old(self).repeat_current && old(self).current_track is Some) && !spec_all_empty(
                old(self).next_up@,
                0,
            )) ==> (final(self).queue_items@ == old(self).queue_items@ && (match r {
                Some(path) => exists|t: QueueTrack|
                    #[trigger] t.location == path && flatten_ms(final(self).next_up@).insert(t)
                        == flatten_ms(old(self).next_up@) && (old(self).played_items@.len()
                        + DEPTH_LIMIT <= old(self).max_history ==> flatten_ms(
                        final(self).played_items@,
                    ) == flatten_ms(old(self).played_items@).insert(t)),
                None => flatten_ms(final(self).next_up@) == flatten_ms(old(self).next_up@),
            })),
            (!(old(self).repeat_current && old(self).current_track is Some) && spec_all_empty(
                old(self).next_up@,
                0,
            )) ==> (final(self).next_up@ == old(self).next_up@ && (match r {
                Some(path) => exists|t: QueueTrack|
                    #[trigger] t.location == path && flatten_ms(old(self).queue_items@).contains(
                        t,
                    ) && ((flatten_ms(final(self).queue_items@).insert(t) == flatten_ms(
                        old(self).queue_items@,
                    ) && (old(self).played_items@.len() + DEPTH_LIMIT <= old(self).max_history
                        ==> flatten_ms(final(self).played_items@) == flatten_ms(
                        old(self).played_items@,
                    ).insert(t))) || (flatten_ms(final(self).queue_items@) == flatten_ms(
                        old(self).queue_items@,
                    ) && (old(self).played_items@.len() + DEPTH_LIMIT <= old(self).max_history
                        ==> flatten_ms(final(self).played_items@) == flatten_ms(
                        old(self).played_items@,
                    )))),
                None => flatten_ms(final(self).queue_items@) == flatten_ms(
                    old(self).queue_items@,
                ),
            })),
            (!(old(self).repeat_current && old(self).current_track is Some) && spec_all_empty(
                old(self).next_up@,
                0,
            ) && spec_all_empty(old(self).queue_items@, 0)) ==> r is None,
    {
        if self.repeat_current && self.current_track.is_some() {
            return match &self.current_track {
                Some(s) => Some(s.clone()),
                None => None,
            };
        }
        if first_non_empty_public(&self.next_up) {
            let ghost played0 = self.played_items@;
            let picked = select_rec(
                &mut self.next_up,
                &mut self.played_items,
                &mut self.queue_options,
                true,
                0,
            );
            let ghost played1 = self.played_items@;
            self.trim_history();
            return match picked {
                Ok(Some(t)) => {
                    proof {
                        if old(self).played_items@.len() + DEPTH_LIMIT <= old(self).max_history {
                            assert(self.played_items@ == played1);
                        }
                        assert(t.location == t.location && flatten_ms(
                            self.next_up@,
                        ).insert(t) == flatten_ms(old(self).next_up@) && (old(self).played_items@.len() + DEPTH_LIMIT <= old(self).max_history
                            ==> flatten_ms(self.played_items@) == flatten_ms(
                            old(self).played_items@,
                        ).insert(t)));
                    }
                    Some(t.location)
                },
                _ => None,
            };
        }
        if first_non_empty_public(&self.queue_items) {
            let ghost played0 = self.played_items@;
            let picked = select_rec(
                &mut self.queue_items,
                &mut self.played_items,
                &mut self.queue_options,
                false,
                0,
            );
            let ghost played1 = self.played_items@;
            self.trim_history();
            return match picked {
                Ok(Some(t)) => {
                    proof {
                        if old(self).played_items@.len() + DEPTH_LIMIT <= old(self).max_history {
                            assert(self.played_items@ == played1);
                        }
                        assert(t.location == t.location && flatten_ms(
                            old(self).queue_items@,
                        ).contains(t));
                    }
                    Some(t.location)
                },
                _ => None,
            };
        }
        None
    }
}

/// Whether any item of the list still reaches a track.
#[verifier::loop_isolation(false)]
pub fn first_non_empty_public(list: &Vec<QueueItem>) -> (r: bool)
    ensures
        r == !spec_all_empty(list@, 0),
{
    proof {
        crate::queue::queue_items::lemma_all_empty_iff(list@, 0);
    }
    let n = list.len();
    let mut i: usize = 0;
    while i < n
        invariant
            i <= n,
            n == list@.len(),
            forall|j: int|
                0 <= j < i ==> crate::queue::queue_items::spec_is_empty(#[trigger] list@[j]),
        decreases n - i,
    {
        if !(&list[i]).is_empty() {
            return true;
        }
        i = i + 1;
    }
    false
}

} // verus!
