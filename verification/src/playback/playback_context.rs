//! The playback context: the one bundle of state shared between the
//! control surface and the audio thread — the queue, the track's
//! length and remaining samples, its sample rate, and the volume,
//! which never drops below zero. The layer around the engine wraps it
//! for the threads; every rule about its values lives here.

use crate::queue::Queue;
use vstd::prelude::*;

verus! {

/// The volume level a fresh context starts with.
pub const DEFAULT_VOLUME: i64 = 100;

pub struct PlaybackContext {
    pub queue: Queue,
    pub left: u64,
    pub length: u64,
    pub sample_rate: usize,
    pub volume_level: i64,
}

impl PlaybackContext {
    /// A fresh context: empty queue, nothing playing, full volume.
    pub fn new() -> (r: PlaybackContext)
        ensures
            r.left == 0,
            r.length == 0,
            r.sample_rate == 0,
            r.volume_level == DEFAULT_VOLUME,
            r.queue.current_track is None,
    {
        PlaybackContext {
            queue: Queue::new(),
            left: 0,
            length: 0,
            sample_rate: 0,
            volume_level: DEFAULT_VOLUME,
        }
    }

    /// A context already playing `track`, with the whole length ahead.
    pub fn new_from(length: u64, track: String, sample_rate: usize, volume_level: i64) -> (r:
        PlaybackContext)
        ensures
            r.left == length,
            r.length == length,
            r.sample_rate == sample_rate,
            r.volume_level == volume_level,
            r.queue.current_track == Some(track),
    {
        let mut queue = Queue::new();
        queue.current_track = Some(track);
        PlaybackContext { queue, left: length, length, sample_rate, volume_level }
    }

    pub fn update_left(&mut self, left: u64)
        ensures
            final(self).left == left,
            final(self).length == old(self).length,
            final(self).volume_level == old(self).volume_level,
            final(self).sample_rate == old(self).sample_rate,
            final(self).queue == old(self).queue,
    {
        self.left = left;
    }

    /// Set the volume level, clamped so it never drops below zero.
    pub fn update_volume_level(&mut self, volume_level: i64)
        ensures
            final(self).volume_level == (if volume_level >= 0 {
                volume_level
            } else {
                0
            }),
            final(self).left == old(self).left,
            final(self).length == old(self).length,
            final(self).sample_rate == old(self).sample_rate,
            final(self).queue == old(self).queue,
    {
        self.volume_level = if volume_level >= 0 {
            volume_level
        } else {
            0
        };
    }

    /// Shift the volume level by `volume_change`, clamped at zero.
    pub fn change_volume_level(&mut self, volume_change: i64)
        requires
            old(self).volume_level >= 0,
            old(self).volume_level + volume_change <= i64::MAX,
        ensures
            final(self).volume_level == (if old(self).volume_level + volume_change >= 0 {
                old(self).volume_level + volume_change
            } else {
                0
            }),
            final(self).left == old(self).left,
            final(self).length == old(self).length,
            final(self).sample_rate == old(self).sample_rate,
            final(self).queue == old(self).queue,
    {
        let new = self.volume_level + volume_change;
        self.volume_level = if new >= 0 {
            new
        } else {
            0
        };
    }

    /// Install a new track: its length, its rate, and its path in the
    /// queue; the remaining samples reset to the whole length.
    pub fn set_track(&mut self, track: String, length: u64, sample_rate: usize)
        ensures
            final(self).length == length,
            final(self).left == length,
            final(self).sample_rate == sample_rate,
            final(self).queue.current_track == Some(track),
            final(self).volume_level == old(self).volume_level,
    {
        self.length = length;
        self.left = length;
        self.sample_rate = sample_rate;
        self.queue.current_track = Some(track);
    }

    pub fn current_track(&self) -> (r: Option<String>)
        ensures
            r == self.queue.current_track,
    {
        match &self.queue.current_track {
            Some(s) => Some(s.clone()),
            None => None,
        }
    }

    pub fn left(&self) -> (r: u64)
        ensures
            r == self.left,
    {
        self.left
    }

    pub fn length(&self) -> (r: u64)
        ensures
            r == self.length,
    {
        self.length
    }

    pub fn sample_rate(&self) -> (r: usize)
        ensures
            r == self.sample_rate,
    {
        self.sample_rate
    }

    pub fn volume_level(&self) -> (r: i64)
        ensures
            r == self.volume_level,
    {
        self.volume_level
    }

    /// Samples already played of the current track.
    pub fn played(&self) -> (r: u64)
        ensures
            self.left <= self.length ==> r == self.length - self.left,
            self.left > self.length ==> r == 0,
    {
        if self.left <= self.length {
            self.length - self.left
        } else {
            0
        }
    }

    pub fn played_sec(&self) -> (r: u64)
        ensures
            self.sample_rate == 0 ==> r == 0,
    {
        let p = self.played();
        self.some_sec(p)
    }

    pub fn length_sec(&self) -> (r: u64)
        ensures
            self.sample_rate > 0 ==> r == self.length as int / self.sample_rate as int,
            self.sample_rate == 0 ==> r == 0,
    {
        self.some_sec(self.length)
    }

    pub fn left_sec(&self) -> (r: u64)
        ensures
            self.sample_rate > 0 ==> r == self.left as int / self.sample_rate as int,
            self.sample_rate == 0 ==> r == 0,
    {
        self.some_sec(self.left)
    }

    /// A sample count as whole seconds at the context's rate; zero
    /// when no rate is known.
    fn some_sec(&self, sample_count: u64) -> (r: u64)
        ensures
            self.sample_rate > 0 ==> r == sample_count as int / self.sample_rate as int,
            self.sample_rate == 0 ==> r == 0,
    {
        if self.sample_rate == 0 {
            0
        } else {
            sample_count / (self.sample_rate as u64)
        }
    }
}

} // verus!
