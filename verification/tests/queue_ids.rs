//! Identifier numbering over the queue tree.

use rmusic::models::{Playlist, Release, Track};
use rmusic::queue::queue_items::{QueueAlbum, QueueItem, QueuePlaylist, QueueTrack};

fn dummy_queue_track(id: i32) -> QueueTrack {
    QueueTrack::new(
        Track {
            id,
            name: format!("Track {}", id),
            date: 0,
            number: 0,
            duration: 2000,
            artist_id: 0,
            release_id: 0,
        },
        format!("/path/to/track_{}.mp3", id),
    )
}

fn dummy_queue_album(id: i32, num_tracks: usize) -> QueueAlbum {
    let mut tracks = Vec::new();
    for i in 0..num_tracks {
        tracks.push(dummy_queue_track(id * 100 + i as i32));
    }
    QueueAlbum::new(
        Release {
            id,
            name: format!("Album {}", id),
            release_type: None,
            date: 0,
            publisher_id: None,
            artist_id: 0,
        },
        tracks,
        rmusic::queue::QueueOptions::default(),
    )
}

fn dummy_queue_playlist(id: i32, items: Vec<QueueItem>) -> QueuePlaylist {
    QueuePlaylist::new(
        Some(Playlist {
            id,
            name: format!("Playlist {}", id),
            description: "".into(),
        }),
        items,
        rmusic::queue::QueueOptions::default(),
    )
}

#[test]
fn test_set_id_for_album() {
    let mut album_item = QueueItem::Album(dummy_queue_album(1, 3));
    let initial_id = 10;
    let next_id = album_item.set_id(initial_id);

    // For an Album, its id is set and the next id is one further.
    if let QueueItem::Album(album) = &album_item {
        assert_eq!(album.id(), initial_id);
    } else {
        panic!("Expected QueueItem::Album");
    }
    assert_eq!(next_id, initial_id.wrapping_add(1));
}

#[test]
fn test_set_id_for_playlist() {
    let mut playlist_item = QueueItem::Playlist(dummy_queue_playlist(
        1,
        vec![QueueItem::Track(dummy_queue_track(1))],
    ));
    let initial_id = 20;
    let next_id = playlist_item.set_id(initial_id);

    // For a Playlist, its id is set and the next id is one further.
    if let QueueItem::Playlist(playlist) = &playlist_item {
        assert_eq!(playlist.id(), initial_id);
    } else {
        panic!("Expected QueueItem::Playlist");
    }
    assert_eq!(next_id, initial_id.wrapping_add(1));
}

#[test]
fn test_set_id_wrapping() {
    let mut album_item = QueueItem::Album(dummy_queue_album(1, 1));
    let initial_id = usize::MAX;
    let next_id = album_item.set_id(initial_id);

    if let QueueItem::Album(album) = &album_item {
        assert_eq!(album.id(), initial_id);
    } else {
        panic!("Expected QueueItem::Album");
    }
    assert_eq!(next_id, 0);
}

#[test]
fn test_set_id_rec_simple_playlist() {
    // A playlist of two tracks takes one id itself; tracks take none.
    let mut playlist_item = QueueItem::Playlist(dummy_queue_playlist(
        1,
        vec![
            QueueItem::Track(dummy_queue_track(1)),
            QueueItem::Track(dummy_queue_track(2)),
        ],
    ));

    let initial_id = 100;
    let next_id = playlist_item.set_id_rec(initial_id);

    if let QueueItem::Playlist(playlist) = &playlist_item {
        assert_eq!(playlist.id(), initial_id);
    } else {
        panic!("Expected QueueItem::Playlist");
    }
    assert_eq!(next_id, initial_id.wrapping_add(1));
}

#[test]
fn test_set_id_rec_complex_playlist() {
    // Playlist 1 [ Track 1, Album 2, Playlist 3 [ Track 301, Album 4 ] ]
    let inner_album = QueueItem::Album(dummy_queue_album(4, 1));

    let mut inner_playlist_items = Vec::new();
    inner_playlist_items.push(QueueItem::Track(dummy_queue_track(301)));
    inner_playlist_items.push(inner_album);
    let inner_playlist = QueueItem::Playlist(dummy_queue_playlist(3, inner_playlist_items));

    let mid_album = QueueItem::Album(dummy_queue_album(2, 2));

    let mut root_playlist_items = Vec::new();
    root_playlist_items.push(QueueItem::Track(dummy_queue_track(1)));
    root_playlist_items.push(mid_album);
    root_playlist_items.push(inner_playlist);

    let mut root_playlist_item = QueueItem::Playlist(dummy_queue_playlist(1, root_playlist_items));

    let initial_id = 100;
    let final_id = root_playlist_item.set_id_rec(initial_id);

    if let QueueItem::Playlist(root_pl) = &root_playlist_item {
        assert_eq!(root_pl.id(), 100);

        if let QueueItem::Album(album) = &root_pl.playlist_items[1] {
            assert_eq!(album.id(), 101);
        } else {
            panic!("Expected Album at index 1");
        }

        if let QueueItem::Playlist(inner_pl) = &root_pl.playlist_items[2] {
            assert_eq!(inner_pl.id(), 102);

            if let QueueItem::Album(album) = &inner_pl.playlist_items[1] {
                assert_eq!(album.id(), 103);
            } else {
                panic!("Expected Album at index 1 of inner playlist");
            }
        } else {
            panic!("Expected Playlist at index 2");
        }
    } else {
        panic!("Expected root QueueItem::Playlist");
    }

    // Four nodes take an id: the root playlist, both albums, and the
    // inner playlist.
    assert_eq!(final_id, initial_id.wrapping_add(4));
}

#[test]
fn test_set_id_rec_empty_playlist() {
    let mut empty_playlist_item = QueueItem::Playlist(dummy_queue_playlist(1, Vec::new()));
    let initial_id = 500;
    let next_id = empty_playlist_item.set_id_rec(initial_id);

    if let QueueItem::Playlist(pl) = &empty_playlist_item {
        assert_eq!(pl.id(), initial_id);
    } else {
        panic!("Expected QueueItem::Playlist");
    }
    assert_eq!(next_id, initial_id.wrapping_add(1));
}

#[test]
fn test_set_id_rec_track_item() {
    let mut track_item = QueueItem::Track(dummy_queue_track(99));
    let initial_id = 700;
    let next_id = track_item.set_id_rec(initial_id);
    assert_eq!(next_id, initial_id);
}

#[test]
fn test_set_id_rec_album_item() {
    let mut album_item = QueueItem::Album(dummy_queue_album(5, 2));
    let initial_id = 800;
    let next_id = album_item.set_id_rec(initial_id);

    if let QueueItem::Album(album) = &album_item {
        assert_eq!(album.id(), initial_id);
    } else {
        panic!("Expected QueueItem::Album");
    }
    assert_eq!(next_id, initial_id.wrapping_add(1));
}
