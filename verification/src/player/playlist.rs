//! Moving through a playlist.

use vstd::prelude::*;
use vstd::string::*;

use crate::m3u::{entry_views, EntryView, Playlist};
use crate::player::types::{EventView, PlayerEvent};

verus! {

/// A playlist and the track that is played.
#[derive(Debug)]
pub struct PlaylistCursor {
    pub playlist: Option<Playlist>,
    pub index: usize,
}

/// A playlist and its track as views.
#[verifier::ext_equal]
pub struct CursorView {
    pub playlist: Option<Seq<EntryView>>,
    pub index: int,
}

impl View for PlaylistCursor {
    type V = CursorView;

    open spec fn view(&self) -> CursorView {
        CursorView {
            playlist: match self.playlist {
                Some(p) => Some(entry_views(p.entries@)),
                None => None,
            },
            index: self.index as int,
        }
    }
}

/// The number of tracks; 0 without a playlist.
pub open spec fn track_count(c: CursorView) -> int {
    match c.playlist {
        Some(p) => p.len() as int,
        None => 0,
    }
}

/// The place of the next track, or why there is none.
pub open spec fn next_place(c: CursorView) -> Result<int, Seq<char>> {
    if track_count(c) == 0 {
        Err("No playlist loaded"@)
    } else if c.index + 1 >= track_count(c) {
        Err("Already at last track"@)
    } else {
        Ok(c.index + 1)
    }
}

/// The place of the previous track, or why there is none.
pub open spec fn previous_place(c: CursorView) -> Result<int, Seq<char>> {
    if c.playlist is None {
        Err("No playlist loaded"@)
    } else if c.index == 0 {
        Err("Already at first track"@)
    } else {
        Ok(c.index - 1)
    }
}

/// A chosen place, or why it is none.
pub open spec fn chosen_place(c: CursorView, index: int) -> Result<int, Seq<char>> {
    if index >= track_count(c) { Err("Track index out of bounds"@) } else { Ok(index) }
}

/// A cursor moved to a place, where there is one.
pub open spec fn moved_to(c: CursorView, place: Result<int, Seq<char>>) -> CursorView {
    match place {
        Ok(i) => CursorView { index: i, ..c },
        Err(_) => c,
    }
}

impl PlaylistCursor {
    /// No playlist.
    pub fn new() -> (r: Self)
        ensures
            r@ == (CursorView { playlist: None, index: 0 }),
    {
        PlaylistCursor { playlist: None, index: 0 }
    }

    /// Take a playlist, at its first track. One without entries is refused.
    pub fn open(&mut self, playlist: Playlist) -> (r: Result<(), String>)
        ensures
            playlist.entries@.len() == 0 ==> (r matches Err(t) && t@ == "Playlist has no entries"@) && final(self)@ == old(self)@,
            playlist.entries@.len() > 0 ==> r is Ok && final(self)@ == (CursorView {
                playlist: Some(entry_views(playlist.entries@)),
                index: 0,
            }),
    {
        if playlist.entries.len() == 0 {
            return Err(String::from_str("Playlist has no entries"));
        }
        self.playlist = Some(playlist);
        self.index = 0;
        Ok(())
    }

    /// The number of tracks; 0 without a playlist.
    pub fn playlist_len(&self) -> (n: usize)
        ensures
            n == track_count(self@),
    {
        match &self.playlist {
            Some(p) => p.entries.len(),
            None => 0,
        }
    }

    /// Get the current playlist track index.
    pub fn get_playlist_index(&self) -> (n: usize)
        ensures
            n == self@.index,
    {
        self.index
    }

    /// Skip to the next track in the playlist.
    pub fn next_track(&mut self) -> (r: Result<(), String>)
        ensures
            final(self)@ == moved_to(old(self)@, next_place(old(self)@)),
            match (r, next_place(old(self)@)) {
                (Ok(()), Ok(_)) => true,
                (Err(e), Err(t)) => e@ == t,
                _ => false,
            },
    {
        let len: usize = self.playlist_len();
        if len == 0 {
            return Err(String::from_str("No playlist loaded"));
        }
        if self.index >= len - 1 {
            return Err(String::from_str("Already at last track"));
        }
        self.index = self.index + 1;
        Ok(())
    }

    /// Go back to the previous track in the playlist.
    pub fn previous_track(&mut self) -> (r: Result<(), String>)
        ensures
            final(self)@ == moved_to(old(self)@, previous_place(old(self)@)),
            match (r, previous_place(old(self)@)) {
                (Ok(()), Ok(_)) => true,
                (Err(e), Err(t)) => e@ == t,
                _ => false,
            },
    {
        if self.playlist.is_none() {
            return Err(String::from_str("No playlist loaded"));
        }
        if self.index == 0 {
            return Err(String::from_str("Already at first track"));
        }
        self.index = self.index - 1;
        Ok(())
    }

    /// Jump to a specific track by index.
    pub fn play_track(&mut self, index: usize) -> (r: Result<(), String>)
        ensures
            final(self)@ == moved_to(old(self)@, chosen_place(old(self)@, index as int)),
            match (r, chosen_place(old(self)@, index as int)) {
                (Ok(()), Ok(_)) => true,
                (Err(e), Err(t)) => e@ == t,
                _ => false,
            },
    {
        if index >= self.playlist_len() {
            return Err(String::from_str("Track index out of bounds"));
        }
        self.index = index;
        Ok(())
    }

    /// The URL of the current track, and the event that tells of it.
    pub fn current_track(&self) -> (r: Result<(String, PlayerEvent), String>)
        ensures
            match self@.playlist {
                None => r matches Err(t) && t@ == "No playlist loaded"@,
                Some(p) => if self@.index < p.len() {
                    r matches Ok((url, e)) && url@ == p[self@.index].url && e@ == (EventView::PlaylistTrackChanged { index: self@.index as usize })
                } else {
                    r matches Err(t) && t@ == "Track index out of bounds"@
                },
            },
    {
        match &self.playlist {
            None => Err(String::from_str("No playlist loaded")),
            Some(p) => if self.index < p.entries.len() {
                Ok((p.entries[self.index].url.clone(), PlayerEvent::PlaylistTrackChanged { index: self.index }))
            } else {
                Err(String::from_str("Track index out of bounds"))
            },
        }
    }
}

/// Going to the next track and back leads to the same track.
pub proof fn law_next_and_back(c: CursorView)
    requires
        c.index >= 0,
        next_place(c) is Ok,
    ensures
        moved_to(moved_to(c, next_place(c)), previous_place(moved_to(c, next_place(c)))) == c,
{
}

/// A move never leaves the playlist.
pub proof fn law_moves_stay_inside(c: CursorView, index: int)
    requires
        0 <= c.index < track_count(c),
        index >= 0,
    ensures
        0 <= moved_to(c, next_place(c)).index < track_count(c),
        0 <= moved_to(c, previous_place(c)).index < track_count(c),
        0 <= moved_to(c, chosen_place(c, index)).index < track_count(c),
{
}

/// The next track is the one behind the current one, and the previous one the one
/// before it, where there is one; a track that is chosen is the one that was named.
pub proof fn law_moves_lead_there(c: CursorView, index: int)
    requires
        0 <= c.index < track_count(c),
        0 <= index,
    ensures
        c.index + 1 < track_count(c) <==> next_place(c) is Ok,
        next_place(c) is Ok ==> moved_to(c, next_place(c)).index == c.index + 1,
        c.index > 0 <==> previous_place(c) is Ok,
        previous_place(c) is Ok ==> moved_to(c, previous_place(c)).index == c.index - 1,
        index < track_count(c) <==> chosen_place(c, index) is Ok,
        chosen_place(c, index) is Ok ==> moved_to(c, chosen_place(c, index)).index == index,
        next_place(c) is Err ==> moved_to(c, next_place(c)) == c,
        previous_place(c) is Err ==> moved_to(c, previous_place(c)) == c,
        moved_to(c, next_place(c)).playlist == c.playlist,
{
}

} // verus!
