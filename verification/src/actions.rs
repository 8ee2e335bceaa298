//! What the player does in answer to a command: messages to show and work
//! for the audio output and the playlist store.
use vstd::prelude::*;
use crate::text::texts;

verus! {

/// The messages the player shows.
#[derive(Debug, Clone, Copy, PartialEq, Eq, Structural)]
pub enum Note {
    /// "No match found for" the search term.
    NoMatch,
    /// "Adding nothing".
    AddingNothing,
    /// "Adding to queue:" the chosen song.
    AddingToQueue,
    /// "Added to queue:" the only match.
    AddedToQueue,
    /// "Replaying...".
    Replaying,
    /// "Queue empty.".
    QueueEmpty,
    /// "Playing...".
    Playing,
    /// "Paused.".
    Paused,
    /// "Queue cleared".
    QueueCleared,
    /// "next: argument needs to be an positive integer".
    BadNextCount,
    /// "prev: argument needs to be an positive integer".
    BadPrevCount,
    /// "Playing Next...".
    PlayingNext,
    /// "Nothing in queue".
    NothingInQueue,
    /// "Exiting...".
    Exiting,
    /// "show: Unknown Command" and the word.
    ShowUnknown,
    /// "playlist: Insufficient arguments" and the usage line.
    PlaylistUsage,
    /// "playlist: Unknown command" and the word, and the usage line.
    PlaylistUnknown,
    /// "Playing from playlist" and its name.
    PlayingFromPlaylist,
    /// "playlist: load: No such playlist" and the file name.
    NoSuchPlaylist,
    /// "No playlists".
    NoPlaylists,
    /// "Unknown command" and the word, and the list of commands.
    UnknownCommand,
}

/// One thing to do, in order, in answer to a line of input.
#[derive(Debug, PartialEq, Eq)]
pub enum Action {
    /// Show a message.
    Say(Note),
    /// Show a message about a word, name or song.
    SayAbout(Note, String),
    /// List the matches to choose from, numbered from 1; the next line of
    /// input is the choice.
    Choices(Vec<String>),
    /// Show a framed list: title, entries, the entry marked as playing.
    Show(String, Vec<String>, Option<usize>),
    /// Hand a song to the player, which plays it after what it has.
    Play(String),
    /// Stop the current sound and drop what the output holds.
    Stop,
    /// Stop, and play this song from its start right away.
    Replay(String),
    /// Resume paused playback.
    Resume,
    /// Pause playback.
    Pause,
    /// List the stored playlists (see `show_playlists`).
    ShowPlaylists,
    /// Store a playlist: file name, contents.
    SavePlaylist(String, String),
    /// Read the playlist file and hand its contents to
    /// `Session::apply_playlist`: playlist name, file name.
    LoadPlaylist(String, String),
    /// End the program.
    Exit,
}

pub enum ActionView {
    Say(Note),
    SayAbout(Note, Seq<char>),
    Choices(Seq<Seq<char>>),
    Show(Seq<char>, Seq<Seq<char>>, Option<usize>),
    Play(Seq<char>),
    Stop,
    Replay(Seq<char>),
    Resume,
    Pause,
    ShowPlaylists,
    SavePlaylist(Seq<char>, Seq<char>),
    LoadPlaylist(Seq<char>, Seq<char>),
    Exit,
}

impl View for Action {
    type V = ActionView;

    open spec fn view(&self) -> ActionView {
        match self {
            Action::Say(n) => ActionView::Say(*n),
            Action::SayAbout(n, s) => ActionView::SayAbout(*n, s@),
            Action::Choices(v) => ActionView::Choices(texts(v@)),
            Action::Show(t, v, sel) => ActionView::Show(t@, texts(v@), *sel),
            Action::Play(s) => ActionView::Play(s@),
            Action::Stop => ActionView::Stop,
            Action::Replay(s) => ActionView::Replay(s@),
            Action::Resume => ActionView::Resume,
            Action::Pause => ActionView::Pause,
            Action::ShowPlaylists => ActionView::ShowPlaylists,
            Action::SavePlaylist(f, c) => ActionView::SavePlaylist(f@, c@),
            Action::LoadPlaylist(n, f) => ActionView::LoadPlaylist(n@, f@),
            Action::Exit => ActionView::Exit,
        }
    }
}

pub open spec fn action_views(v: Seq<Action>) -> Seq<ActionView> {
    v.map_values(|a: Action| a@)
}

} // verus!
