//! Picking the next concrete track from the recursive queue: the
//! per-level draw under each shuffle policy, bounded-depth descent
//! into containers, consumption of played tracks, and the history
//! mirrors that keep nested containers' state across calls.

use crate::queue::queue_items::flatten_ms;
use crate::queue::queue_items::lemma_empty_flattens_empty;
use crate::queue::queue_items::lemma_flatten_ms_contains;
use crate::queue::queue_items::lemma_flatten_ms_push;
use crate::queue::queue_items::lemma_flatten_ms_remove;
use crate::queue::queue_items::lemma_flatten_ms_update;
use crate::queue::queue_items::lemma_flatten_track;
use crate::queue::queue_items::lemma_empty_seq_ms;
use crate::queue::queue_items::lemma_ms_add_empty;
use crate::queue::queue_items::lemma_ms_cancel;
use crate::queue::queue_items::lemma_ms_insert_is_add;
use crate::queue::queue_items::lemma_ms_update_gain;
use crate::queue::queue_items::lemma_ms_update_loss;
use crate::queue::queue_items::spec_flatten;
use crate::queue::queue_items::spec_has_id;
use crate::queue::queue_items::spec_is_empty;
use crate::queue::queue_items::QueueItem;
use crate::queue::queue_items::QueueTrack;
use crate::queue::QueueOptions;
use crate::queue::ShuffleType;
use crate::queue::DEPTH_LIMIT;
use rand::distributions::Distribution;
use vstd::multiset::Multiset;
use vstd::pervasive::VecAdditionalExecFns;
use vstd::prelude::*;

verus! {

/// Errors of the selection algorithm.
#[derive(Clone, Copy, Debug, PartialEq, Eq, Structural)]
pub enum SelectError {
    /// The weighted draw failed: no positive weight, or a total beyond
    /// the machine word.
    Weight,
    /// A weight list's length does not match its container.
    SizeError,
    /// The depth limit was reached while traversing a playlist.
    MaxDepthReached,
}

/// The sum of a weight list.
pub open spec fn weights_total(s: Seq<usize>) -> int
    decreases s.len(),
{
    if s.len() == 0 {
        0
    } else {
        weights_total(s.drop_last()) + s.last()
    }
}

/// Sum a weight list, or nothing when the total overflows the word.
fn sum_weights(w: &Vec<usize>) -> (r: Option<usize>)
    ensures
        r matches Some(t) ==> t == weights_total(w@),
        r is None <==> weights_total(w@) > usize::MAX,
{
    let n = w.len();
    let mut total: usize = 0;
    let mut j: usize = 0;
    while j < n
        invariant
            j <= n,
            n == w@.len(),
            total == weights_total(w@.take(j as int)),
        decreases n - j,
    {
        proof {
            assert(w@.take(j + 1) =~= w@.take(j as int).push(w@[j as int]));
            assert(w@.take(j + 1).drop_last() =~= w@.take(j as int));
        }
        if w[j] > usize::MAX - total {
            proof {
                lemma_weights_total_extends(w@, j + 1);
            }
            return None;
        }
        total = total + w[j];
        j = j + 1;
    }
    proof {
        assert(w@.take(n as int) =~= w@);
    }
    Some(total)
}

proof fn lemma_weights_total_extends(s: Seq<usize>, i: int)
    requires
        0 <= i <= s.len(),
    ensures
        weights_total(s) >= weights_total(s.take(i)),
    decreases s.len() - i,
{
    if i < s.len() {
        lemma_weights_total_extends(s, i + 1);
        assert(s.take(i + 1).drop_last() =~= s.take(i));
        assert(s.take(i + 1).last() == s[i]);
    } else {
        assert(s.take(i) =~= s);
    }
}

proof fn lemma_weights_total_pairwise(w: Seq<usize>, d: Seq<usize>, c: Seq<usize>)
    requires
        c.len() == w.len() == d.len(),
        forall|j: int| 0 <= j < c.len() ==> c[j] == w[j] + d[j],
    ensures
        weights_total(c) == weights_total(w) + weights_total(d),
    decreases c.len(),
{
    if c.len() > 0 {
        assert(c.drop_last().len() == w.drop_last().len() == d.drop_last().len());
        lemma_weights_total_pairwise(w.drop_last(), d.drop_last(), c.drop_last());
    }
}

/// Relies on rand's `Rng::gen_range` over `0..end`: an index drawn
/// uniformly below `end`.
#[verifier::external_body]
fn random_index(end: usize) -> (r: usize)
    requires
        end > 0,
    ensures
        r < end,
{
    rand::Rng::gen_range(&mut rand::thread_rng(), 0..end)
}

/// Relies on rand's `WeightedIndex` over usize weights: a draw
/// proportional to the weights, so the chosen index always carries a
/// positive weight. `None` exactly when the list is empty or every
/// weight is zero; a total beyond the machine word must be ruled out
/// by the caller, since the sum would not be computed faithfully.
#[verifier::external_body]
fn random_weighted(weights: &Vec<usize>) -> (r: Option<usize>)
    requires
        weights_total(weights@) <= usize::MAX,
    ensures
        r matches Some(i) ==> i < weights@.len() && weights@[i as int] > 0,
        (r is None) <==> (weights@.len() == 0 || weights_total(weights@) == 0),
{
    match rand::distributions::WeightedIndex::new(weights) {
        Ok(dist) => Some(dist.sample(&mut rand::thread_rng())),
        Err(_) => None,
    }
}

/// Grow every weight by one and reset the chosen one to zero, so the
/// track just played cannot be drawn again at once. Answers the chosen
/// index back.
pub fn increase_weights(weights: &mut Vec<usize>, chosen: usize) -> (r: usize)
    requires
        forall|i: int| 0 <= i < old(weights)@.len() ==> #[trigger] old(weights)@[i] < usize::MAX,
    ensures
        r == chosen,
        final(weights)@.len() == old(weights)@.len(),
        chosen < old(weights)@.len() ==> final(weights)@[chosen as int] == 0,
        forall|j: int|
            0 <= j < old(weights)@.len() && j != chosen ==> final(weights)@[j] == old(
                weights,
            )@[j] + 1,
{
    let n = weights.len();
    let mut j: usize = 0;
    while j < n
        invariant
            j <= n,
            n == weights@.len() == old(weights)@.len(),
            forall|i: int| j <= i < n ==> weights@[i] == old(weights)@[i],
            forall|i: int| 0 <= i < j ==> weights@[i] == old(weights)@[i] + 1,
            forall|i: int| 0 <= i < n ==> #[trigger] old(weights)@[i] < usize::MAX,
        decreases n - j,
    {
        let v = weights[j];
        weights.set(j, v + 1);
        j = j + 1;
    }
    if chosen < n {
        weights.set(chosen, 0);
    }
    chosen
}

/// Whether every weight list of the policy matches the container.
pub fn check_weight_length(shuffle: &ShuffleType, list_len: usize) -> (r: Result<(), SelectError>)
    ensures
        crate::queue::shuffle_fits(shuffle, list_len as int) ==> r matches Ok(()),
        !crate::queue::shuffle_fits(shuffle, list_len as int) ==> (r matches Err(e) && e
            == SelectError::SizeError),
{
    match shuffle {
        ShuffleType::Sequential => Ok(()),
        ShuffleType::TrueRandom => Ok(()),
        ShuffleType::WeightedRandom(w) => {
            if w.len() == list_len {
                Ok(())
            } else {
                Err(SelectError::SizeError)
            }
        },
        ShuffleType::WeightedDefault(w) => {
            if w.len() == list_len {
                Ok(())
            } else {
                Err(SelectError::SizeError)
            }
        },
        ShuffleType::WeightedRandomWithDefault(w, d) => {
            if w.len() == list_len && d.len() == list_len {
                Ok(())
            } else {
                Err(SelectError::SizeError)
            }
        },
    }
}

/// Draw the next child index under the options' shuffle policy:
/// sequential advances the selected index; a uniform draw is
/// independent and leaves it alone; weighted draws go by the weights,
/// and the anti-repeat variants then grow every weight by one and
/// reset the chosen one to zero.
pub fn get_random(list_len: usize, options: &mut QueueOptions) -> (r: Result<
    Option<usize>,
    SelectError,
>)
    requires
        list_len > 0,
    ensures
        final(options).stop_condition == old(options).stop_condition,
        final(options).repeat == old(options).repeat,
        (match r {
            Ok(c) => c matches Some(i) ==> i < list_len,
            Err(_) => true,
        }),
        (match old(options).shuffle_type {
            ShuffleType::Sequential => final(options).shuffle_type == old(options).shuffle_type
                && (match old(options).selected {
                Some(s) => {
                    if s + 1 < list_len {
                        r == Ok::<Option<usize>, SelectError>(Some((s + 1) as usize)) && final(options).selected == Some((s + 1) as usize)
                    } else {
                        r == Ok::<Option<usize>, SelectError>(None) && final(options).selected is None
                    }
                },
                None => r == Ok::<Option<usize>, SelectError>(Some(0usize)) && final(options).selected == Some(0usize),
            }),
            ShuffleType::TrueRandom => final(options).shuffle_type == old(options).shuffle_type
                && final(options).selected == old(options).selected && (r matches Ok(c)
                && c matches Some(i) && i < list_len),
            ShuffleType::WeightedRandom(w) => {
                if w@.len() != list_len {
                    r == Err::<Option<usize>, SelectError>(SelectError::SizeError) && final(options).shuffle_type == old(options).shuffle_type && final(options).selected == old(options).selected
                } else {
                    &&& (0 < weights_total(w@) && weights_total(w@) <= usize::MAX - list_len
                        ==> r matches Ok(_))
                    &&& (match r {
                        Ok(c) => {
                            &&& c matches Some(i)
                            &&& i < list_len
                            &&& w@[c->0 as int] > 0
                            &&& (final(options).shuffle_type matches ShuffleType::WeightedRandom(
                                w2,
                            ) && w2@.len() == w@.len() && w2@[c->0 as int] == 0 && (forall|j: int|
                                0 <= j < w@.len() && j != c->0 ==> w2@[j] == w@[j] + 1))
                            &&& final(options).selected == c
                        },
                        Err(e) => e == SelectError::Weight,
                    })
                }
            },
            ShuffleType::WeightedDefault(w) => {
                if w@.len() != list_len {
                    r == Err::<Option<usize>, SelectError>(SelectError::SizeError) && final(options).shuffle_type == old(options).shuffle_type && final(options).selected == old(options).selected
                } else {
                    &&& (0 < weights_total(w@) && weights_total(w@) <= usize::MAX ==> r matches Ok(
                        _,
                    ))
                    &&& final(options).shuffle_type == old(options).shuffle_type
                    &&& (match r {
                        Ok(c) => {
                            &&& c matches Some(i)
                            &&& i < list_len
                            &&& w@[c->0 as int] > 0
                            &&& final(options).selected == c
                        },
                        Err(e) => e == SelectError::Weight,
                    })
                }
            },
            ShuffleType::WeightedRandomWithDefault(w, d) => {
                if w@.len() != list_len || d@.len() != list_len {
                    r == Err::<Option<usize>, SelectError>(SelectError::SizeError) && final(options).shuffle_type == old(options).shuffle_type && final(options).selected == old(options).selected
                } else {
                    &&& (0 < weights_total(w@) + weights_total(d@) && weights_total(w@)
                        + weights_total(d@) <= usize::MAX - list_len ==> r matches Ok(_))
                    &&& (match r {
                        Ok(c) => {
                            &&& c matches Some(i)
                            &&& i < list_len
                            &&& w@[c->0 as int] + d@[c->0 as int] > 0
                            &&& (final(options).shuffle_type matches ShuffleType::WeightedRandomWithDefault(w2, d2)
                                && d2@ == d@ && w2@.len() == w@.len() && w2@[c->0 as int] == 0 && (
                            forall|j: int| 0 <= j < w@.len() && j != c->0 ==> w2@[j] == w@[j] + 1))
                            &&& final(options).selected == c
                        },
                        Err(e) => e == SelectError::Weight,
                    })
                }
            },
        }),
{
    let mut tmp = ShuffleType::Sequential;
    core::mem::swap(&mut tmp, &mut options.shuffle_type);
    match tmp {
        ShuffleType::Sequential => {
            options.shuffle_type = ShuffleType::Sequential;
            match options.selected {
                Some(s) => {
                    if s < usize::MAX && s + 1 < list_len {
                        options.selected = Some(s + 1);
                        Ok(Some(s + 1))
                    } else {
                        options.selected = None;
                        Ok(None)
                    }
                },
                None => {
                    options.selected = Some(0);
                    Ok(Some(0))
                },
            }
        },
        ShuffleType::TrueRandom => {
            options.shuffle_type = ShuffleType::TrueRandom;
            let i = random_index(list_len);
            Ok(Some(i))
        },
        ShuffleType::WeightedRandom(mut w) => {
            if w.len() != list_len {
                options.shuffle_type = ShuffleType::WeightedRandom(w);
                return Err(SelectError::SizeError);
            }
            let total = match sum_weights(&w) {
                Some(t) => t,
                None => {
                    options.shuffle_type = ShuffleType::WeightedRandom(w);
                    return Err(SelectError::Weight);
                },
            };
            if total > usize::MAX - list_len {
                options.shuffle_type = ShuffleType::WeightedRandom(w);
                return Err(SelectError::Weight);
            }
            match random_weighted(&w) {
                Some(i) => {
                    proof {
                        lemma_each_weight_bounded(w@);
                    }
                    increase_weights(&mut w, i);
                    options.shuffle_type = ShuffleType::WeightedRandom(w);
                    options.selected = Some(i);
                    Ok(Some(i))
                },
                None => {
                    options.shuffle_type = ShuffleType::WeightedRandom(w);
                    Err(SelectError::Weight)
                },
            }
        },
        ShuffleType::WeightedDefault(w) => {
            if w.len() != list_len {
                options.shuffle_type = ShuffleType::WeightedDefault(w);
                return Err(SelectError::SizeError);
            }
            if sum_weights(&w).is_none() {
                options.shuffle_type = ShuffleType::WeightedDefault(w);
                return Err(SelectError::Weight);
            }
            match random_weighted(&w) {
                Some(i) => {
                    options.shuffle_type = ShuffleType::WeightedDefault(w);
                    options.selected = Some(i);
                    Ok(Some(i))
                },
                None => {
                    options.shuffle_type = ShuffleType::WeightedDefault(w);
                    Err(SelectError::Weight)
                },
            }
        },
        ShuffleType::WeightedRandomWithDefault(mut w, d) => {
            if w.len() != list_len || d.len() != list_len {
                options.shuffle_type = ShuffleType::WeightedRandomWithDefault(w, d);
                return Err(SelectError::SizeError);
            }
            // Draw by the sums of the changing and default weights.
            let mut combined: Vec<usize> = Vec::new();
            let mut k: usize = 0;
            let mut overflow = false;
            while k < list_len && !overflow
                invariant
                    k <= list_len,
                    w@.len() == list_len,
                    d@.len() == list_len,
                    !overflow ==> combined@.len() == k && (forall|j: int|
                        0 <= j < k ==> combined@[j] == w@[j] + d@[j]),
                    overflow ==> exists|j: int|
                        0 <= j < list_len && #[trigger] (w@[j] + d@[j]) > usize::MAX,
                decreases list_len - k, (if overflow {
                    0int
                } else {
                    1int
                }),
            {
                if w[k] > usize::MAX - d[k] {
                    proof {
                        assert(w@[k as int] + d@[k as int] > usize::MAX);
                    }
                    overflow = true;
                } else {
                    combined.push(w[k] + d[k]);
                    k = k + 1;
                }
            }
            if overflow {
                proof {
                    if 0 < weights_total(w@) + weights_total(d@) && weights_total(w@)
                        + weights_total(d@) <= usize::MAX - list_len {
                        let j = choose|j: int|
                            0 <= j < list_len && #[trigger] (w@[j] + d@[j]) > usize::MAX;
                        lemma_weight_below_total(w@, j);
                        lemma_weight_below_total(d@, j);
                        assert(false);
                    }
                }
                options.shuffle_type = ShuffleType::WeightedRandomWithDefault(w, d);
                return Err(SelectError::Weight);
            }
            proof {
                lemma_weights_total_pairwise(w@, d@, combined@);
            }
            let total = match sum_weights(&combined) {
                Some(t) => t,
                None => {
                    options.shuffle_type = ShuffleType::WeightedRandomWithDefault(w, d);
                    return Err(SelectError::Weight);
                },
            };
            if total > usize::MAX - list_len {
                options.shuffle_type = ShuffleType::WeightedRandomWithDefault(w, d);
                return Err(SelectError::Weight);
            }
            match random_weighted(&combined) {
                Some(i) => {
                    proof {
                        lemma_each_weight_bounded(combined@);
                        assert forall|j: int| 0 <= j < w@.len() implies #[trigger] w@[j]
                            < usize::MAX by {
                            assert(w@[j] <= combined@[j]);
                        }
                    }
                    increase_weights(&mut w, i);
                    options.shuffle_type = ShuffleType::WeightedRandomWithDefault(w, d);
                    options.selected = Some(i);
                    Ok(Some(i))
                },
                None => {
                    options.shuffle_type = ShuffleType::WeightedRandomWithDefault(w, d);
                    Err(SelectError::Weight)
                },
            }
        },
    }
}

/// Each weight is at most the total of its list.
proof fn lemma_weight_below_total(s: Seq<usize>, i: int)
    requires
        0 <= i < s.len(),
    ensures
        s[i] <= weights_total(s),
    decreases s.len(),
{
    if i == s.len() - 1 {
        lemma_weights_total_extends(s.drop_last(), 0);
        lemma_weights_nonneg(s.drop_last());
    } else {
        lemma_weight_below_total(s.drop_last(), i);
        assert(s.drop_last()[i] == s[i]);
    }
}

proof fn lemma_weights_nonneg(s: Seq<usize>)
    ensures
        weights_total(s) >= 0,
    decreases s.len(),
{
    if s.len() > 0 {
        lemma_weights_nonneg(s.drop_last());
    }
}

/// Every weight is at most the total of its list.
proof fn lemma_each_weight_bounded(s: Seq<usize>)
    ensures
        forall|i: int| 0 <= i < s.len() ==> #[trigger] s[i] <= weights_total(s),
{
    assert forall|i: int| 0 <= i < s.len() implies #[trigger] s[i] <= weights_total(s) by {
        lemma_weight_below_total(s, i);
    }
}

/// The index of the first item that still reaches a track.
fn first_non_empty(list: &Vec<QueueItem>) -> (r: Option<usize>)
    ensures
        r matches Some(i) ==> i < list@.len() && !spec_is_empty(list@[i as int]),
        r is None ==> forall|j: int| 0 <= j < list@.len() ==> spec_is_empty(#[trigger] list@[j]),
{
    let n = list.len();
    let mut i: usize = 0;
    while i < n
        invariant
            i <= n,
            n == list@.len(),
            forall|j: int| 0 <= j < i ==> spec_is_empty(#[trigger] list@[j]),
        decreases n - i,
    {
        if !(&list[i]).is_empty() {
            return Some(i);
        }
        i = i + 1;
    }
    None
}

/// Find the history mirror that carries `id`, trying `fast_index`
/// first, then scanning from the tail, where it more likely sits.
#[verifier::loop_isolation(false)]
pub fn find_id(list: &Vec<QueueItem>, id: usize, fast_index: usize) -> (r: Option<usize>)
    ensures
        r matches Some(i) ==> i < list@.len() && spec_has_id(list@[i as int], id),
        r is None ==> forall|j: int| 0 <= j < list@.len() ==> !spec_has_id(#[trigger] list@[j], id),
        (fast_index < list@.len() && spec_has_id(list@[fast_index as int], id)) ==> r == Some(
            fast_index,
        ),
        !(fast_index < list@.len() && spec_has_id(list@[fast_index as int], id)) ==> (match r {
            Some(i) => forall|j: int| i < j < list@.len() ==> !spec_has_id(#[trigger] list@[j], id),
            None => true,
        }),
{
    let n = list.len();
    if fast_index < n && (&list[fast_index]).has_id(id) {
        return Some(fast_index);
    }
    let mut i: usize = n;
    while i > 0
        invariant
            i <= n,
            n == list@.len(),
            forall|j: int| i <= j < n ==> !spec_has_id(#[trigger] list@[j], id),
        decreases i,
    {
        i = i - 1;
        if (&list[i]).has_id(id) {
            return Some(i);
        }
    }
    None
}

/// Drop the weight at `i` from the policy's mutable lists, keeping
/// them in step with a container that lost the child at `i`.
fn remove_weight(options: &mut QueueOptions, i: usize)
    ensures
        final(options).stop_condition == old(options).stop_condition,
        final(options).repeat == old(options).repeat,
        final(options).selected == old(options).selected,
        (match old(options).shuffle_type {
            ShuffleType::WeightedRandom(w) => {
                if i < w@.len() {
                    final(options).shuffle_type matches ShuffleType::WeightedRandom(w2) && w2@
                        == w@.remove(i as int)
                } else {
                    final(options).shuffle_type == old(options).shuffle_type
                }
            },
            ShuffleType::WeightedDefault(w) => {
                if i < w@.len() {
                    final(options).shuffle_type matches ShuffleType::WeightedDefault(w2) && w2@
                        == w@.remove(i as int)
                } else {
                    final(options).shuffle_type == old(options).shuffle_type
                }
            },
            ShuffleType::WeightedRandomWithDefault(w, d) => {
                if i < w@.len() && i < d@.len() {
                    final(options).shuffle_type matches ShuffleType::WeightedRandomWithDefault(
                        w2,
                        d2,
                    ) && w2@ == w@.remove(i as int) && d2@ == d@.remove(i as int)
                } else {
                    final(options).shuffle_type == old(options).shuffle_type
                }
            },
            _ => final(options).shuffle_type == old(options).shuffle_type,
        }),
{
    let mut tmp = ShuffleType::Sequential;
    core::mem::swap(&mut tmp, &mut options.shuffle_type);
    match tmp {
        ShuffleType::WeightedRandom(mut w) => {
            if i < w.len() {
                w.remove(i);
            }
            options.shuffle_type = ShuffleType::WeightedRandom(w);
        },
        ShuffleType::WeightedDefault(mut w) => {
            if i < w.len() {
                w.remove(i);
            }
            options.shuffle_type = ShuffleType::WeightedDefault(w);
        },
        ShuffleType::WeightedRandomWithDefault(mut w, mut d) => {
            if i < w.len() && i < d.len() {
                w.remove(i);
                d.remove(i);
            }
            options.shuffle_type = ShuffleType::WeightedRandomWithDefault(w, d);
        },
        other => {
            options.shuffle_type = other;
        },
    }
}

/// Pick a track from a flat track list under the given options. With
/// `first_only` the first track is taken; otherwise the policy draws.
/// A played track is consumed — removed along with its weight and
/// mirrored into `history` — unless the options say repeat.
pub fn select_from_tracks(
    tracks: &mut Vec<QueueTrack>,
    history: &mut Vec<QueueTrack>,
    options: &mut QueueOptions,
    first_only: bool,
) -> (r: Result<Option<QueueTrack>, SelectError>)
    ensures
        old(tracks)@.len() == 0 ==> (r matches Ok(c) && c is None && final(tracks)@ == old(
            tracks,
        )@ && final(history)@ == old(history)@),
        ((first_only || (old(options).shuffle_type is Sequential && !old(options).repeat)) && old(
            tracks,
        )@.len() > 0) ==> (r matches Ok(c) && c matches Some(t2) && t2 == old(tracks)@[0]),
        (!first_only && old(options).shuffle_type is Sequential && old(options).repeat && old(
            tracks,
        )@.len() > 0) ==> (match old(options).selected {
            None => r matches Ok(c) && c matches Some(t2) && t2 == old(tracks)@[0],
            Some(sel) => {
                if sel + 1 < old(tracks)@.len() {
                    r matches Ok(c) && c matches Some(t2) && t2 == old(tracks)@[sel + 1]
                } else {
                    r matches Ok(c) && c is None
                }
            },
        }),
        r matches Err(_) ==> final(tracks)@ == old(tracks)@ && final(history)@ == old(history)@,
        (match r {
            Ok(c) => match c {
                Some(t) => {
                    &&& (exists|i: int|
                        0 <= i < old(tracks)@.len() && t == old(tracks)@[i] && ((first_only || !old(options).repeat) ==> final(tracks)@ == old(tracks)@.remove(i)))
                    &&& ((first_only || !old(options).repeat) ==> final(history)@ == old(
                        history,
                    )@.push(t) && final(tracks)@.len() + 1 == old(tracks)@.len())
                    &&& (!(first_only || !old(options).repeat) ==> final(tracks)@ == old(tracks)@
                        && final(history)@ == old(history)@)
                },
                None => final(tracks)@ == old(tracks)@ && final(history)@ == old(history)@,
            },
            Err(_) => true,
        }),
{
    let n = tracks.len();
    if n == 0 {
        return Ok(None);
    }
    let use_first = first_only || (matches!(options.shuffle_type, ShuffleType::Sequential)
        && !options.repeat);
    let pick: usize = if use_first {
        0
    } else {
        match get_random(n, options) {
            Ok(Some(i)) => i,
            Ok(None) => {
                return Ok(None);
            },
            Err(e) => {
                return Err(e);
            },
        }
    };
    let t = (&tracks[pick]).clone();
    if first_only || !options.repeat {
        tracks.remove(pick);
        remove_weight(options, pick);
        options.selected = None;
        history.push(t.clone());
        Ok(Some(t))
    } else {
        Ok(Some(t))
    }
}

/// Descend the queue tree for the next track, at most `DEPTH_LIMIT`
/// levels deep and with as many retries per level. With `first_only`
/// the walk takes the first non-empty child and always consumes;
/// otherwise each level draws by its own options and consumes unless
/// they say repeat. Containers entered for the first time get an empty
/// mirror appended to `history`, found again later by its identifier;
/// played tracks land in the mirror of their container. A track handed
/// out was reachable in the source; when it is consumed, the source
/// loses exactly that occurrence and the history gains it, else both
/// keep their tracks — no call conjures or loses a track.
#[verifier::rlimit(100)]
#[verifier::spinoff_prover]
pub fn select_rec(
    source: &mut Vec<QueueItem>,
    history: &mut Vec<QueueItem>,
    options: &mut QueueOptions,
    first_only: bool,
    depth: usize,
) -> (r: Result<Option<QueueTrack>, SelectError>)
    ensures
        depth > DEPTH_LIMIT ==> (r matches Err(e) && e == SelectError::MaxDepthReached && final(source)@ == old(source)@ && final(history)@ == old(history)@ && *final(options) == *old(options)),
        final(source)@.len() <= old(source)@.len(),
        final(history)@.len() >= old(history)@.len(),
        final(history)@.len() <= old(history)@.len() + DEPTH_LIMIT,
        final(options).stop_condition == old(options).stop_condition,
        final(options).repeat == old(options).repeat,
        (match r {
            Ok(c) => match c {
                Some(t) => flatten_ms(old(source)@).contains(t) && ((flatten_ms(final(source)@).insert(t) == flatten_ms(old(source)@) && flatten_ms(final(history)@) == flatten_ms(old(history)@).insert(t)) || (flatten_ms(final(source)@) == flatten_ms(old(source)@) && flatten_ms(final(history)@) == flatten_ms(old(history)@))),
                None => flatten_ms(final(source)@) == flatten_ms(old(source)@) && flatten_ms(final(history)@) == flatten_ms(old(history)@),
            },
            Err(_) => flatten_ms(final(source)@) == flatten_ms(old(source)@) && flatten_ms(final(history)@) == flatten_ms(old(history)@),
        }),
        first_only ==> (match r {
            Ok(c) => match c {
                Some(t) => flatten_ms(final(source)@).insert(t) == flatten_ms(old(source)@)
                    && flatten_ms(final(history)@) == flatten_ms(old(history)@).insert(t),
                None => true,
            },
            Err(_) => true,
        }),
    decreases DEPTH_LIMIT + 1 - depth, 0int,
{
    if depth > DEPTH_LIMIT {
        return Err(SelectError::MaxDepthReached);
    }
    let mut attempts: usize = 0;
    while attempts < DEPTH_LIMIT
        invariant
            depth <= DEPTH_LIMIT,
            attempts <= DEPTH_LIMIT,
            source@.len() <= old(source)@.len(),
            history@.len() >= old(history)@.len(),
            history@.len() <= old(history)@.len() + attempts,
            options.stop_condition == old(options).stop_condition,
            options.repeat == old(options).repeat,
            flatten_ms(source@) == flatten_ms(old(source)@),
            flatten_ms(history@) == flatten_ms(old(history)@),
        decreases DEPTH_LIMIT - attempts,
    {
        if source.len() == 0 {
            return Ok(None);
        }
        let len = source.len();
        let use_first = first_only || (matches!(options.shuffle_type, ShuffleType::Sequential)
            && !options.repeat);
        let pick: usize = if use_first {
            match first_non_empty(source) {
                Some(i) => i,
                None => {
                    return Ok(None);
                },
            }
        } else {
            match get_random(len, options) {
                Ok(Some(i)) => i,
                Ok(None) => {
                    return Ok(None);
                },
                Err(e) => {
                    return Err(e);
                },
            }
        };
        if pick >= source.len() {
            return Ok(None);
        }
        let ghost s0 = source@;
        let ghost h0 = history@;
        let mut child = crate::queue::queue_items::placeholder_item();
        source.set_and_swap(pick, &mut child);
        match child {
            QueueItem::Track(t) => {
                if first_only || !options.repeat {
                    source.remove(pick);
                    remove_weight(options, pick);
                    options.selected = None;
                    history.push(QueueItem::Track(t.clone()));
                    proof {
                        assert(s0[pick as int] == QueueItem::Track(t));
                        assert(source@ =~= s0.remove(pick as int));
                        lemma_flatten_ms_remove(s0, pick as int);
                        lemma_flatten_track(t);
                        lemma_ms_insert_is_add(flatten_ms(source@), t);
                        lemma_flatten_ms_contains(s0, pick as int, t);
                        lemma_flatten_ms_push(h0, QueueItem::Track(t));
                        lemma_ms_insert_is_add(flatten_ms(h0), t);
                    }
                } else {
                    source.set(pick, QueueItem::Track(t.clone()));
                    proof {
                        assert(s0[pick as int] == QueueItem::Track(t));
                        assert(source@ =~= s0);
                        lemma_flatten_track(t);
                        lemma_flatten_ms_contains(s0, pick as int, t);
                    }
                }
                return Ok(Some(t));
            },
            QueueItem::Album(mut a) => {
                // Pair the album with its history mirror by identifier.
                let hidx = match find_id(history, a.id, pick) {
                    Some(i) => i,
                    None => {
                        history.push(QueueItem::Album(a.empty_clone()));
                        proof {
                            lemma_flatten_ms_push(h0, history@.last());
                            assert(spec_flatten(history@.last()) =~= Seq::<QueueTrack>::empty());
                            lemma_empty_seq_ms();
                            lemma_ms_add_empty(flatten_ms(h0));
                            assert(flatten_ms(history@) == flatten_ms(h0));
                        }
                        history.len() - 1
                    },
                };
                let ghost hb = history@;
                let ghost a0 = a;
                let mut hchild = crate::queue::queue_items::placeholder_item();
                history.set_and_swap(hidx, &mut hchild);
                let res = match hchild {
                    QueueItem::Album(mut ha) => {
                        let ghost ha0 = ha;
                        let r = select_from_tracks(
                            &mut a.tracks,
                            &mut ha.tracks,
                            &mut a.queue_option,
                            first_only,
                        );
                        history.set(hidx, QueueItem::Album(ha));
                        proof {
                            broadcast use vstd::seq_lib::group_to_multiset_ensures;

                            assert(history@ =~= hb.update(hidx as int, QueueItem::Album(ha)));
                            lemma_flatten_ms_update(hb, hidx as int, QueueItem::Album(ha));
                            assert(hb[hidx as int] == QueueItem::Album(ha0));
                            let gr = r;
                            match gr {
                                Ok(c) => match c {
                                    Some(t) => {
                                        if ha.tracks@ == ha0.tracks@.push(t) {
                                            // The mirror gained the track.
                                            assert(spec_flatten(QueueItem::Album(ha)).to_multiset()
                                                =~= spec_flatten(
                                                QueueItem::Album(ha0),
                                            ).to_multiset().insert(t));
                                            lemma_ms_update_gain(
                                                flatten_ms(history@),
                                                flatten_ms(hb),
                                                spec_flatten(QueueItem::Album(ha0)).to_multiset(),
                                                t,
                                            );
                                        } else {
                                            assert(ha.tracks@ == ha0.tracks@);
                                            lemma_ms_cancel(
                                                flatten_ms(history@),
                                                flatten_ms(hb),
                                                spec_flatten(QueueItem::Album(ha0)).to_multiset(),
                                            );
                                        }
                                        // Consumption and mirroring go together.
                                        if ha.tracks@ == ha0.tracks@.push(t) {
                                            assert(ha.tracks@.len() == ha0.tracks@.len() + 1);
                                            assert(first_only || !a0.queue_option.repeat);
                                            assert(a.tracks@.len() + 1 == a0.tracks@.len());
                                            assert(a.tracks@ != a0.tracks@);
                                        } else {
                                            assert(ha.tracks@ == ha0.tracks@);
                                            assert(!(first_only || !a0.queue_option.repeat));
                                            assert(a.tracks@ == a0.tracks@);
                                        }
                                        assert((a.tracks@ != a0.tracks@ && flatten_ms(history@)
                                            == flatten_ms(hb).insert(t)) || (a.tracks@
                                            == a0.tracks@ && flatten_ms(history@) == flatten_ms(
                                            hb,
                                        )));
                                    },
                                    None => {
                                        assert(ha.tracks@ == ha0.tracks@);
                                        lemma_ms_cancel(
                                            flatten_ms(history@),
                                            flatten_ms(hb),
                                            spec_flatten(QueueItem::Album(ha0)).to_multiset(),
                                        );
                                    },
                                },
                                Err(_) => {
                                    assert(ha.tracks@ == ha0.tracks@);
                                    lemma_ms_cancel(
                                        flatten_ms(history@),
                                        flatten_ms(hb),
                                        spec_flatten(QueueItem::Album(ha0)).to_multiset(),
                                    );
                                },
                            }
                        }
                        r
                    },
                    other => {
                        history.set(hidx, other);
                        proof {
                            assert(history@ =~= hb);
                        }
                        Ok(None)
                    },
                };
                let drained = a.tracks.len() == 0;
                if drained && (first_only || !options.repeat) {
                    source.remove(pick);
                    remove_weight(options, pick);
                    options.selected = None;
                    proof {
                        assert(source@ =~= s0.remove(pick as int));
                        lemma_flatten_ms_remove(s0, pick as int);
                    }
                } else {
                    source.set(pick, QueueItem::Album(a));
                    proof {
                        assert(source@ =~= s0.update(pick as int, QueueItem::Album(a)));
                        lemma_flatten_ms_update(s0, pick as int, QueueItem::Album(a));
                    }
                }
                proof {
                    assert(s0[pick as int] == QueueItem::Album(a0));
                }
                match res {
                    Ok(Some(t)) => {
                        proof {
                            broadcast use vstd::seq_lib::group_to_multiset_ensures;

                            // The track came from the album's old list.
                            assert(exists|i: int|
                                0 <= i < a0.tracks@.len() && t == a0.tracks@[i]);
                            assert(a0.tracks@.contains(t));
                            lemma_flatten_ms_contains(s0, pick as int, t);
                            if a.tracks@ != a0.tracks@ {
                                // Consumed: the album lost exactly `t`.
                                assert(exists|i: int|
                                    0 <= i < a0.tracks@.len() && t == a0.tracks@[i] && a.tracks@
                                        == a0.tracks@.remove(i));
                                let i = choose|i: int|
                                    0 <= i < a0.tracks@.len() && t == a0.tracks@[i] && a.tracks@
                                        == a0.tracks@.remove(i);
                                lemma_consumption_multiset(a0.tracks@, t, i);
                                if drained && (first_only || !options.repeat) {
                                    assert(a.tracks@ =~= Seq::<QueueTrack>::empty());
                                    lemma_empty_seq_ms();
                                    lemma_ms_insert_is_add(flatten_ms(source@), t);
                                } else {
                                    lemma_ms_update_loss(
                                        flatten_ms(source@),
                                        flatten_ms(s0),
                                        spec_flatten(QueueItem::Album(a)).to_multiset(),
                                        t,
                                    );
                                }
                                assert(flatten_ms(source@).insert(t) == flatten_ms(old(source)@)
                                    && flatten_ms(history@) == flatten_ms(old(history)@).insert(
                                    t,
                                ));
                            } else {
                                if drained && (first_only || !options.repeat) {
                                    assert(a0.tracks@ =~= Seq::<QueueTrack>::empty());
                                    lemma_empty_seq_ms();
                                    lemma_ms_add_empty(flatten_ms(source@));
                                } else {
                                    lemma_ms_cancel(
                                        flatten_ms(source@),
                                        flatten_ms(s0),
                                        spec_flatten(QueueItem::Album(a)).to_multiset(),
                                    );
                                }
                            }
                            assert(flatten_ms(hb) == flatten_ms(h0));
                            assert(flatten_ms(s0).contains(t));
                            assert(flatten_ms(source@).insert(t) == flatten_ms(s0) || flatten_ms(
                                source@,
                            ) == flatten_ms(s0));
                            assert(flatten_ms(history@) == flatten_ms(hb).insert(t) || flatten_ms(
                                history@,
                            ) == flatten_ms(hb));
                        }
                        return Ok(Some(t));
                    },
                    Ok(None) => {
                        proof {
                            assert(a.tracks@ == a0.tracks@);
                            if drained && (first_only || !options.repeat) {
                                assert(a0.tracks@ =~= Seq::<QueueTrack>::empty());
                                lemma_empty_seq_ms();
                                lemma_ms_add_empty(flatten_ms(source@));
                            } else {
                                lemma_ms_cancel(
                                    flatten_ms(source@),
                                    flatten_ms(s0),
                                    spec_flatten(QueueItem::Album(a)).to_multiset(),
                                );
                            }
                        }
                    },
                    Err(e) => {
                        proof {
                            assert(a.tracks@ == a0.tracks@);
                            if drained && (first_only || !options.repeat) {
                                assert(a0.tracks@ =~= Seq::<QueueTrack>::empty());
                                lemma_empty_seq_ms();
                                lemma_ms_add_empty(flatten_ms(source@));
                            } else {
                                lemma_ms_cancel(
                                    flatten_ms(source@),
                                    flatten_ms(s0),
                                    spec_flatten(QueueItem::Album(a)).to_multiset(),
                                );
                            }
                        }
                        return Err(e);
                    },
                }
            },
            QueueItem::Playlist(mut p) => {
                let hidx = match find_id(history, p.id, pick) {
                    Some(i) => i,
                    None => {
                        history.push(QueueItem::Playlist(p.empty_clone()));
                        proof {
                            lemma_flatten_ms_push(h0, history@.last());
                            assert(spec_flatten(history@.last()) =~= Seq::<QueueTrack>::empty());
                            lemma_empty_seq_ms();
                            lemma_ms_add_empty(flatten_ms(h0));
                            assert(flatten_ms(history@) == flatten_ms(h0));
                        }
                        history.len() - 1
                    },
                };
                let ghost hb = history@;
                let ghost p0_items = p.playlist_items@;
                let mut hchild = crate::queue::queue_items::placeholder_item();
                history.set_and_swap(hidx, &mut hchild);
                let res = match hchild {
                    QueueItem::Playlist(mut hp) => {
                        let ghost hp0_items = hp.playlist_items@;
                        let r = select_rec(
                            &mut p.playlist_items,
                            &mut hp.playlist_items,
                            &mut p.queue_option,
                            first_only,
                            depth + 1,
                        );
                        history.set(hidx, QueueItem::Playlist(hp));
                        proof {
                            broadcast use vstd::multiset::group_multiset_axioms;

                            assert(history@ =~= hb.update(hidx as int, QueueItem::Playlist(hp)));
                            lemma_flatten_ms_update(hb, hidx as int, QueueItem::Playlist(hp));
                            assert(spec_flatten(hb[hidx as int]).to_multiset() == flatten_ms(
                                hp0_items,
                            ));
                            assert(spec_flatten(QueueItem::Playlist(hp)).to_multiset()
                                == flatten_ms(hp.playlist_items@));
                            let gr = r;
                            match gr {
                                Ok(c) => match c {
                                    Some(t) => {
                                        if flatten_ms(hp.playlist_items@) == flatten_ms(
                                            hp0_items,
                                        ).insert(t) {
                                            lemma_ms_update_gain(
                                                flatten_ms(history@),
                                                flatten_ms(hb),
                                                flatten_ms(hp0_items),
                                                t,
                                            );
                                        } else {
                                            assert(flatten_ms(hp.playlist_items@) == flatten_ms(
                                                hp0_items,
                                            ));
                                            lemma_ms_cancel(
                                                flatten_ms(history@),
                                                flatten_ms(hb),
                                                flatten_ms(hp0_items),
                                            );
                                        }
                                        if flatten_ms(hp.playlist_items@) == flatten_ms(
                                            hp0_items,
                                        ).insert(t) {
                                            // The mirror gained a track, so the
                                            // sub-queue gave one up.
                                            lemma_ms_insert_is_add(flatten_ms(hp0_items), t);
                                            assert(flatten_ms(hp0_items).insert(t).count(t)
                                                == flatten_ms(hp0_items).count(t) + 1);
                                            assert(flatten_ms(p.playlist_items@).insert(t)
                                                == flatten_ms(p0_items));
                                        } else {
                                            assert(flatten_ms(p.playlist_items@) == flatten_ms(
                                                p0_items,
                                            ));
                                        }
                                        // Consumption below pairs with mirroring below.
                                        assert((flatten_ms(p.playlist_items@).insert(t)
                                            == flatten_ms(p0_items) && flatten_ms(
                                            hp.playlist_items@,
                                        ) == flatten_ms(hp0_items).insert(t)) || (flatten_ms(
                                            p.playlist_items@,
                                        ) == flatten_ms(p0_items) && flatten_ms(
                                            hp.playlist_items@,
                                        ) == flatten_ms(hp0_items)));
                                        assert((flatten_ms(p.playlist_items@).insert(t)
                                            == flatten_ms(p0_items) && flatten_ms(history@)
                                            == flatten_ms(hb).insert(t)) || (flatten_ms(
                                            p.playlist_items@,
                                        ) == flatten_ms(p0_items) && flatten_ms(history@)
                                            == flatten_ms(hb)));
                                    },
                                    None => {
                                        lemma_ms_cancel(
                                            flatten_ms(history@),
                                            flatten_ms(hb),
                                            flatten_ms(hp0_items),
                                        );
                                    },
                                },
                                Err(_) => {
                                    lemma_ms_cancel(
                                        flatten_ms(history@),
                                        flatten_ms(hb),
                                        flatten_ms(hp0_items),
                                    );
                                },
                            }
                        }
                        r
                    },
                    other => {
                        history.set(hidx, other);
                        proof {
                            assert(history@ =~= hb);
                        }
                        Ok(None)
                    },
                };
                let item_back = QueueItem::Playlist(p);
                let ghost p1_items = item_back->Playlist_0.playlist_items@;
                let drained = (&item_back).is_empty();
                proof {
                    if drained {
                        lemma_empty_flattens_empty(item_back);
                        lemma_empty_seq_ms();
                        assert(flatten_ms(p1_items) == Multiset::<QueueTrack>::empty());
                    }
                }
                if drained && (first_only || !options.repeat) {
                    source.remove(pick);
                    remove_weight(options, pick);
                    options.selected = None;
                    proof {
                        assert(source@ =~= s0.remove(pick as int));
                        lemma_flatten_ms_remove(s0, pick as int);
                    }
                } else {
                    source.set(pick, item_back);
                    proof {
                        assert(source@ =~= s0.update(pick as int, item_back));
                        lemma_flatten_ms_update(s0, pick as int, item_back);
                    }
                }
                proof {
                    assert(spec_flatten(s0[pick as int]).to_multiset() == flatten_ms(p0_items));
                    assert(spec_flatten(item_back).to_multiset() == flatten_ms(p1_items));
                }
                match res {
                    Ok(Some(t)) => {
                        proof {
                            lemma_flatten_ms_contains(s0, pick as int, t);
                            if flatten_ms(p1_items).insert(t) == flatten_ms(p0_items) {
                                if drained && (first_only || !options.repeat) {
                                    lemma_ms_insert_is_add(flatten_ms(source@), t);
                                    lemma_ms_insert_is_add(Multiset::<QueueTrack>::empty(), t);
                                } else {
                                    lemma_ms_update_loss(
                                        flatten_ms(source@),
                                        flatten_ms(s0),
                                        flatten_ms(p1_items),
                                        t,
                                    );
                                }
                            } else {
                                assert(flatten_ms(p1_items) == flatten_ms(p0_items));
                                if drained && (first_only || !options.repeat) {
                                    broadcast use vstd::multiset::group_multiset_axioms;

                                    assert(flatten_ms(p0_items).contains(t));
                                    assert(false);
                                } else {
                                    lemma_ms_cancel(
                                        flatten_ms(source@),
                                        flatten_ms(s0),
                                        flatten_ms(p1_items),
                                    );
                                }
                            }
                        }
                        return Ok(Some(t));
                    },
                    Ok(None) => {
                        proof {
                            assert(flatten_ms(p1_items) == flatten_ms(p0_items));
                            if drained && (first_only || !options.repeat) {
                                lemma_ms_add_empty(flatten_ms(source@));
                            } else {
                                lemma_ms_cancel(
                                    flatten_ms(source@),
                                    flatten_ms(s0),
                                    flatten_ms(p1_items),
                                );
                            }
                        }
                    },
                    Err(e) => {
                        proof {
                            assert(flatten_ms(p1_items) == flatten_ms(p0_items));
                            if drained && (first_only || !options.repeat) {
                                lemma_ms_add_empty(flatten_ms(source@));
                            } else {
                                lemma_ms_cancel(
                                    flatten_ms(source@),
                                    flatten_ms(s0),
                                    flatten_ms(p1_items),
                                );
                            }
                        }
                        return Err(e);
                    },
                }
            },
        }
        attempts = attempts + 1;
    }
    Ok(None)
}

/// Weighted anti-repeat: after a draw the chosen weight is zero and
/// no other is — every other weight grew by one from at least zero.
pub proof fn lemma_anti_repeat(w: Seq<usize>, w2: Seq<usize>, i: int)
    requires
        w.len() == w2.len(),
        0 <= i < w.len(),
        w2[i] == 0,
        forall|j: int| 0 <= j < w.len() && j != i ==> w2[j] == w[j] + 1,
    ensures
        forall|j: int| 0 <= j < w2.len() && j != i ==> w2[j] > 0,
{
}

/// A consuming draw removes exactly the occurrence it hands out.
pub proof fn lemma_consumption_multiset(a: Seq<QueueTrack>, t: QueueTrack, i: int)
    requires
        0 <= i < a.len(),
        t == a[i],
    ensures
        a.remove(i).to_multiset().insert(t) == a.to_multiset(),
{
    broadcast use vstd::seq_lib::group_to_multiset_ensures;

    assert(a.remove(i).to_multiset() =~= a.to_multiset().remove(t));
    assert(a.contains(t));
    assert(a.to_multiset().count(t) > 0);
    assert(a.to_multiset().remove(t).insert(t) =~= a.to_multiset());
}

/// Queue shuffle completeness: across a run of consuming draws, the
/// tracks handed out together with what remains amount exactly to the
/// starting list — no occurrence is drawn twice, and once the list is
/// empty the draws are a permutation of it. `states` holds the track
/// list before and after each draw, `picks` the drawn tracks.
pub proof fn lemma_shuffle_completeness(states: Seq<Seq<QueueTrack>>, picks: Seq<QueueTrack>)
    requires
        states.len() == picks.len() + 1,
        forall|k: int|
            0 <= k < picks.len() ==> #[trigger] states[k + 1].to_multiset().insert(picks[k])
                == states[k].to_multiset(),
    ensures
        states.last().to_multiset().add(picks.to_multiset()) == states[0].to_multiset(),
    decreases picks.len(),
{
    broadcast use vstd::seq_lib::group_to_multiset_ensures;

    if picks.len() == 0 {
        assert(states.last() == states[0]);
        assert(forall|y: QueueTrack| !picks.contains(y));
        assert(picks.to_multiset() =~= Multiset::<QueueTrack>::empty());
        assert(states.last().to_multiset().add(Multiset::<QueueTrack>::empty())
            =~= states.last().to_multiset());
    } else {
        let n = picks.len() - 1;
        let sub_states = states.take(n + 1);
        let sub_picks = picks.take(n);
        assert forall|k: int| 0 <= k < sub_picks.len() implies #[trigger] sub_states[k
            + 1].to_multiset().insert(sub_picks[k]) == sub_states[k].to_multiset() by {
            assert(sub_states[k + 1] == states[k + 1]);
            assert(sub_states[k] == states[k]);
            assert(sub_picks[k] == picks[k]);
            assert(states[k + 1].to_multiset().insert(picks[k]) == states[k].to_multiset());
        }
        lemma_shuffle_completeness(sub_states, sub_picks);
        assert(sub_states.last() == states[n as int]);
        assert(sub_states[0] == states[0]);
        // The final draw.
        assert(states[n + 1].to_multiset().insert(picks[n as int]) == states[
        n as int].to_multiset());
        assert(picks.take(n).push(picks[n as int]) =~= picks);
        assert(picks.to_multiset() =~= sub_picks.to_multiset().insert(picks[n as int]));
        assert(states.last() == states[n + 1]);
        assert(states[n + 1].to_multiset().add(
            sub_picks.to_multiset().insert(picks[n as int]),
        ) =~= states[n + 1].to_multiset().insert(picks[n as int]).add(sub_picks.to_multiset()));
    }
}

} // verus!
