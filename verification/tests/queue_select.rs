//! Selection over the queue: consumption, shuffling, history pairing,
//! and the depth bound.

use rmusic::models::{Playlist, Release, Track};
use rmusic::queue::queue_items::{QueueAlbum, QueueItem, QueuePlaylist, QueueTrack};
use rmusic::queue::select_track::{
    check_weight_length, get_random, increase_weights, select_rec, SelectError,
};
use rmusic::queue::{Queue, QueueOptions, ShuffleType, StopCondition};

fn track(id: i32) -> QueueTrack {
    QueueTrack::new(
        Track {
            id,
            name: format!("t{}", id),
            date: 0,
            number: 0,
            duration: 1000,
            artist_id: 0,
            release_id: 0,
        },
        format!("/music/{}.opus", id),
    )
}

fn album(id: i32, track_ids: &[i32], options: QueueOptions) -> QueueAlbum {
    let mut tracks = Vec::new();
    for t in track_ids {
        tracks.push(track(*t));
    }
    QueueAlbum::new(
        Release {
            id,
            name: format!("album{}", id),
            release_type: None,
            date: 0,
            publisher_id: None,
            artist_id: 0,
        },
        tracks,
        options,
    )
}

fn playlist(id: i32, items: Vec<QueueItem>, options: QueueOptions) -> QueuePlaylist {
    QueuePlaylist::new(
        Some(Playlist {
            id,
            name: format!("pl{}", id),
            description: String::new(),
        }),
        items,
        options,
    )
}

/// Sequential album without repeat: tracks come in order, the queue
/// drains, and every played track lands in the history.
#[test]
fn sequential_album_no_repeat() {
    let mut q = Queue::new();
    q.append_queue_item(
        QueueItem::Album(album(1, &[1, 2, 3], QueueOptions::default())),
        false,
    );
    assert_eq!(q.next_track(), Some("/music/1.opus".to_string()));
    assert_eq!(q.next_track(), Some("/music/2.opus".to_string()));
    assert_eq!(q.next_track(), Some("/music/3.opus".to_string()));
    assert_eq!(q.next_track(), None);
    // The album drained and was removed from the queue.
    assert!(q.queue_items().is_empty());
    // The history holds a mirror album with the three tracks, in order.
    assert_eq!(q.played_items().len(), 1);
    if let QueueItem::Album(mirror) = &q.played_items()[0] {
        let ids: Vec<i32> = mirror.tracks().iter().map(|t| t.track().id).collect();
        assert_eq!(ids, vec![1, 2, 3]);
    } else {
        panic!("expected an album mirror in the history");
    }
}

/// Weighted shuffle without repeat drains an album as a permutation:
/// no track twice, all tracks once, then nothing.
#[test]
fn weighted_shuffle_completeness() {
    let mut opts = QueueOptions::default();
    opts.shuffle_type = ShuffleType::WeightedRandom(vec![1, 1, 1, 1, 1]);
    let mut q = Queue::new();
    q.append_queue_item(QueueItem::Album(album(1, &[1, 2, 3, 4, 5], opts)), false);
    let mut seen = Vec::new();
    for _ in 0..5 {
        let t = q.next_track().expect("a track should come while any remain");
        assert!(!seen.contains(&t), "no track may repeat before all played");
        seen.push(t);
    }
    assert_eq!(q.next_track(), None);
    seen.sort();
    let mut expected: Vec<String> = (1..=5).map(|i| format!("/music/{}.opus", i)).collect();
    expected.sort();
    assert_eq!(seen, expected);
}

/// Weighted anti-repeat: after drawing index k the weights read one
/// more everywhere and zero at k, so the next draw cannot pick k.
#[test]
fn weighted_anti_repeat() {
    let mut opts = QueueOptions::default();
    opts.shuffle_type = ShuffleType::WeightedRandom(vec![1, 1, 1]);
    opts.repeat = true;
    let k = match get_random(3, &mut opts) {
        Ok(Some(i)) => i,
        other => panic!("draw failed: {:?}", other),
    };
    match &opts.shuffle_type {
        ShuffleType::WeightedRandom(w) => {
            assert_eq!(w.len(), 3);
            for (j, wj) in w.iter().enumerate() {
                if j == k {
                    assert_eq!(*wj, 0, "the chosen weight resets to zero");
                } else {
                    assert_eq!(*wj, 2, "every other weight grows by one");
                }
            }
        }
        other => panic!("policy changed shape: {:?}", other.display_small()),
    }
    // The immediate next draw cannot pick k again: its weight is zero.
    let k2 = match get_random(3, &mut opts) {
        Ok(Some(i)) => i,
        other => panic!("draw failed: {:?}", other),
    };
    assert_ne!(k2, k);
}

/// A playlist nested beyond the depth limit surfaces MaxDepthReached
/// without mutating anything.
#[test]
fn depth_bound() {
    let mut item = QueueItem::Track(track(1));
    for level in 0..12 {
        item = QueueItem::Playlist(playlist(level, vec![item], QueueOptions::default()));
    }
    let mut source = vec![item];
    let mut history = Vec::new();
    let mut options = QueueOptions::default();
    let r = select_rec(&mut source, &mut history, &mut options, false, 0);
    // Eleven levels of recursion exceed the limit of ten.
    assert!(matches!(r, Err(SelectError::MaxDepthReached)));
}

/// History id pairing: playing twice from the same nested album finds
/// the same mirror again — exactly one history entry carries its id.
#[test]
fn history_id_pairing() {
    let mut q = Queue::new();
    let inner = QueueItem::Album(album(7, &[1, 2], QueueOptions::default()));
    q.append_queue_item(
        QueueItem::Playlist(playlist(9, vec![inner], QueueOptions::default())),
        false,
    );
    assert!(q.next_track().is_some());
    assert!(q.next_track().is_some());
    // One playlist mirror at the top; inside it, one album mirror
    // holding both played tracks.
    assert_eq!(q.played_items().len(), 1);
    if let QueueItem::Playlist(pm) = &q.played_items()[0] {
        assert_eq!(pm.i().len(), 1);
        if let QueueItem::Album(am) = &pm.i()[0] {
            assert_eq!(am.tracks().len(), 2);
        } else {
            panic!("expected an album mirror inside the playlist mirror");
        }
    } else {
        panic!("expected a playlist mirror in the history");
    }
}

/// Nested playlist, sequential: the album plays through before the
/// trailing track, and the history mirrors the shape.
#[test]
fn nested_playlist_sequential() {
    let mut q = Queue::new();
    let a = QueueItem::Album(album(1, &[11, 12], QueueOptions::default()));
    let x = QueueItem::Track(track(99));
    q.append_queue_item(
        QueueItem::Playlist(playlist(5, vec![a, x], QueueOptions::default())),
        false,
    );
    assert_eq!(q.next_track(), Some("/music/11.opus".to_string()));
    assert_eq!(q.next_track(), Some("/music/12.opus".to_string()));
    assert_eq!(q.next_track(), Some("/music/99.opus".to_string()));
    assert_eq!(q.next_track(), None);
    assert_eq!(q.played_items().len(), 1);
    if let QueueItem::Playlist(pm) = &q.played_items()[0] {
        // The mirror holds the album mirror and the plain track.
        assert_eq!(pm.i().len(), 2);
    } else {
        panic!("expected a playlist mirror");
    }
}

/// The next-up lane plays before the main queue and is consumed.
#[test]
fn next_up_first() {
    let mut q = Queue::new();
    q.append_queue_item(
        QueueItem::Album(album(1, &[1, 2], QueueOptions::default())),
        false,
    );
    q.next_up.push(QueueItem::Track(track(50)));
    assert_eq!(q.next_track(), Some("/music/50.opus".to_string()));
    assert!(q.next_up.is_empty());
    assert_eq!(q.next_track(), Some("/music/1.opus".to_string()));
}

/// Repeat-current answers the same track again and again.
#[test]
fn repeat_current_track() {
    let mut q = Queue::new();
    q.current_track = Some("/music/9.opus".to_string());
    q.repeat_current = true;
    assert_eq!(q.next_track(), Some("/music/9.opus".to_string()));
    assert_eq!(q.next_track(), Some("/music/9.opus".to_string()));
}

/// The weight-length check accepts matching lists and nothing else.
#[test]
fn weight_length_check() {
    assert!(check_weight_length(&ShuffleType::Sequential, 4).is_ok());
    assert!(check_weight_length(&ShuffleType::WeightedRandom(vec![1, 1]), 2).is_ok());
    assert!(matches!(
        check_weight_length(&ShuffleType::WeightedRandom(vec![1, 1]), 3),
        Err(SelectError::SizeError)
    ));
    assert!(matches!(
        check_weight_length(&ShuffleType::WeightedRandomWithDefault(vec![1], vec![1, 2]), 1),
        Err(SelectError::SizeError)
    ));
}

/// Growing the weights resets the chosen one and raises the rest.
#[test]
fn increase_weights_resets_chosen() {
    let mut w = vec![3, 4, 5];
    let r = increase_weights(&mut w, 1);
    assert_eq!(r, 1);
    assert_eq!(w, vec![4, 0, 6]);
}

/// Switching the top-level shuffle refuses mismatched weight lists.
#[test]
fn switch_shuffle_checks_length() {
    let mut q = Queue::new();
    q.append_queue_item(QueueItem::Track(track(1)), false);
    q.append_queue_item(QueueItem::Track(track(2)), false);
    assert!(q.switch_shuffle(ShuffleType::WeightedRandom(vec![1, 1])).is_ok());
    assert!(q.switch_shuffle(ShuffleType::WeightedRandom(vec![1])).is_err());
    match &q.queue_options.shuffle_type {
        ShuffleType::WeightedRandom(w) => assert_eq!(w.len(), 2),
        _ => panic!("the matching switch should have stuck"),
    }
}

/// Sequential with repeat advances the selected index and stops at
/// the end of the list.
#[test]
fn sequential_selected_advance() {
    let mut opts = QueueOptions::default();
    opts.repeat = true;
    assert_eq!(get_random(3, &mut opts), Ok(Some(0)));
    assert_eq!(opts.selected, Some(0));
    assert_eq!(get_random(3, &mut opts), Ok(Some(1)));
    assert_eq!(get_random(3, &mut opts), Ok(Some(2)));
    assert_eq!(get_random(3, &mut opts), Ok(None));
    assert_eq!(opts.selected, None);
}

/// The stop condition and defaults of fresh options.
#[test]
fn default_options() {
    let o = QueueOptions::default();
    assert!(matches!(o.shuffle_type, ShuffleType::Sequential));
    assert!(matches!(o.stop_condition, StopCondition::EndOfList));
    assert_eq!(o.selected, None);
    assert!(!o.repeat);
    assert_eq!(ShuffleType::Sequential.display_small(), "N");
    assert_eq!(ShuffleType::TrueRandom.display_small(), "TR");
}

/// Weighted shuffle with anti-repeat on a playlist with repeat: after
/// drawing some track k, the playlist's weights read one more
/// everywhere and zero at k, and the next draw avoids k.
#[test]
fn weighted_playlist_anti_repeat() {
    let mut opts = QueueOptions::default();
    opts.shuffle_type = ShuffleType::WeightedRandom(vec![1, 1, 1]);
    opts.repeat = true;
    let items = vec![
        QueueItem::Track(track(1)),
        QueueItem::Track(track(2)),
        QueueItem::Track(track(3)),
    ];
    let mut q = Queue::new();
    q.append_queue_item(QueueItem::Playlist(playlist(1, items, opts)), false);
    // The top level descends into the playlist; its own options stay
    // sequential. Drawing from the playlist mutates its weights.
    let first = q.next_track().expect("a track");
    let k = match &q.queue_items()[0] {
        QueueItem::Playlist(p) => {
            let selected = p.queue_option().selected.expect("a weighted draw selects");
            match &p.queue_option().shuffle_type {
                ShuffleType::WeightedRandom(w) => {
                    assert_eq!(w.len(), 3);
                    for (j, wj) in w.iter().enumerate() {
                        if j == selected {
                            assert_eq!(*wj, 0);
                        } else {
                            assert_eq!(*wj, 2);
                        }
                    }
                }
                _ => panic!("policy shape changed"),
            }
            selected
        }
        _ => panic!("the playlist stays with repeat"),
    };
    let second = q.next_track().expect("a track");
    // With k's weight at zero the immediate next draw avoids it.
    let k2 = match &q.queue_items()[0] {
        QueueItem::Playlist(p) => p.queue_option().selected.expect("selected"),
        _ => panic!("the playlist stays"),
    };
    assert_ne!(k2, k);
    let _ = (first, second);
}

/// Static weights also drain cleanly: the weight of a played track
/// leaves the list with it, so the album plays out completely.
#[test]
fn weighted_default_drains() {
    let mut opts = QueueOptions::default();
    opts.shuffle_type = ShuffleType::WeightedDefault(vec![5, 1, 1]);
    let mut q = Queue::new();
    q.append_queue_item(QueueItem::Album(album(1, &[1, 2, 3], opts)), false);
    let mut seen = Vec::new();
    for _ in 0..3 {
        let t = q.next_track().expect("a track while any remain");
        assert!(!seen.contains(&t));
        seen.push(t);
    }
    assert_eq!(q.next_track(), None);
}
