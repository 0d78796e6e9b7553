//! The catalog records the queue carries: tracks, releases and
//! playlists, as the catalog layer hands them over. Dates are carried
//! as day numbers; the queue never reads them.

use vstd::prelude::*;

verus! {

pub struct Track {
    pub id: i32,
    pub name: String,
    pub date: i64,
    pub number: i32,
    pub duration: i32,
    pub artist_id: i32,
    pub release_id: i32,
}

impl Clone for Track {
    fn clone(&self) -> (r: Self)
        ensures
            r == *self,
    {
        Track {
            id: self.id,
            name: self.name.clone(),
            date: self.date,
            number: self.number,
            duration: self.duration,
            artist_id: self.artist_id,
            release_id: self.release_id,
        }
    }
}

pub struct Release {
    pub id: i32,
    pub name: String,
    pub release_type: Option<String>,
    pub date: i64,
    pub publisher_id: Option<i32>,
    pub artist_id: i32,
}

impl Clone for Release {
    fn clone(&self) -> (r: Self)
        ensures
            r == *self,
    {
        Release {
            id: self.id,
            name: self.name.clone(),
            release_type: match &self.release_type {
                Some(t) => Some(t.clone()),
                None => None,
            },
            date: self.date,
            publisher_id: match &self.publisher_id {
                Some(p) => Some(*p),
                None => None,
            },
            artist_id: self.artist_id,
        }
    }
}

pub struct Playlist {
    pub id: i32,
    pub name: String,
    pub description: String,
}

impl Clone for Playlist {
    fn clone(&self) -> (r: Self)
        ensures
            r == *self,
    {
        Playlist { id: self.id, name: self.name.clone(), description: self.description.clone() }
    }
}

} // verus!
