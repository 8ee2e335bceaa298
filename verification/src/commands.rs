//! The commands typed at the prompt, and how a line of input reads as one.
use vstd::prelude::*;
use crate::text::{parse_usize, parse_usize_spec, spaced, spaced_of, split_tokens, texts, tokens, trim, trimmed};

verus! {

/// A `playlist` (or `pl`) command.
#[derive(Debug, PartialEq, Eq)]
pub enum PlaylistCommand {
    /// `playlist new <name>`: save the queue; the name, if one was given.
    New(Option<String>),
    /// `playlist load <name>`: replace the queue; the name, if one was given.
    Load(Option<String>),
    /// `playlist show` / `playlist ls`.
    Show,
    /// Any other subcommand, as typed.
    Unknown(String),
    /// `playlist` with no subcommand.
    Insufficient,
}

/// A command typed at the prompt.
#[derive(Debug, PartialEq, Eq)]
pub enum Command {
    /// `add <search term>`: the search term (the words after `add`, trimmed).
    Add(String),
    Clear,
    Exit,
    /// `next [n]`: how far to skip; `None` when the argument is not a count.
    Next(Option<usize>),
    /// `prev [n]`: how far to go back; `None` when the argument is not a count.
    Prev(Option<usize>),
    /// `p`, `play`, `pause`: toggle playback.
    P,
    Playlist(PlaylistCommand),
    Replay,
    /// `show` / `ls`: the single argument when exactly one was given.
    Show(Option<String>),
    /// The player reports that a track finished.
    TrackEnded,
    /// Any other first word, as typed.
    Unknown(String),
}

/// What the player is asked to do.
#[derive(Debug, PartialEq, Eq)]
pub enum PlayerCommand {
    Play(String),
    TogglePlayState,
}

pub enum PlaylistCommandView {
    New(Option<Seq<char>>),
    Load(Option<Seq<char>>),
    Show,
    Unknown(Seq<char>),
    Insufficient,
}

pub enum CommandView {
    Add(Seq<char>),
    Clear,
    Exit,
    Next(Option<usize>),
    Prev(Option<usize>),
    P,
    Playlist(PlaylistCommandView),
    Replay,
    Show(Option<Seq<char>>),
    TrackEnded,
    Unknown(Seq<char>),
}

pub open spec fn text_option(o: Option<String>) -> Option<Seq<char>> {
    match o {
        Some(s) => Some(s@),
        None => None,
    }
}

impl View for PlaylistCommand {
    type V = PlaylistCommandView;

    open spec fn view(&self) -> PlaylistCommandView {
        match self {
            PlaylistCommand::New(n) => PlaylistCommandView::New(text_option(*n)),
            PlaylistCommand::Load(n) => PlaylistCommandView::Load(text_option(*n)),
            PlaylistCommand::Show => PlaylistCommandView::Show,
            PlaylistCommand::Unknown(w) => PlaylistCommandView::Unknown(w@),
            PlaylistCommand::Insufficient => PlaylistCommandView::Insufficient,
        }
    }
}

impl View for Command {
    type V = CommandView;

    open spec fn view(&self) -> CommandView {
        match self {
            Command::Add(t) => CommandView::Add(t@),
            Command::Clear => CommandView::Clear,
            Command::Exit => CommandView::Exit,
            Command::Next(n) => CommandView::Next(*n),
            Command::Prev(n) => CommandView::Prev(*n),
            Command::P => CommandView::P,
            Command::Playlist(p) => CommandView::Playlist(p@),
            Command::Replay => CommandView::Replay,
            Command::Show(a) => CommandView::Show(text_option(*a)),
            Command::TrackEnded => CommandView::TrackEnded,
            Command::Unknown(w) => CommandView::Unknown(w@),
        }
    }
}

/// The count given to `next` / `prev`: 1 when there is no argument, the
/// argument's value when it is a count, `None` when it is not.
pub open spec fn count_arg(toks: Seq<Seq<char>>) -> Option<usize> {
    if toks.len() > 1 {
        parse_usize_spec(toks[1])
    } else {
        Some(1)
    }
}

/// The third word, if there is one.
pub open spec fn third_word(toks: Seq<Seq<char>>) -> Option<Seq<char>> {
    if toks.len() > 2 {
        Some(toks[2])
    } else {
        None
    }
}

pub open spec fn read_playlist_command(toks: Seq<Seq<char>>) -> PlaylistCommandView {
    if toks.len() < 2 {
        PlaylistCommandView::Insufficient
    } else {
        let w = toks[1];
        if w == "new"@ {
            PlaylistCommandView::New(third_word(toks))
        } else if w == "show"@ || w == "ls"@ {
            PlaylistCommandView::Show
        } else if w == "load"@ {
            PlaylistCommandView::Load(third_word(toks))
        } else {
            PlaylistCommandView::Unknown(w)
        }
    }
}

/// The command that the words `toks` (at least one) of an input line form.
pub open spec fn read_command(toks: Seq<Seq<char>>) -> CommandView {
    let w = toks[0];
    if w == "add"@ {
        CommandView::Add(trim(spaced(toks.skip(1))))
    } else if w == "replay"@ {
        CommandView::Replay
    } else if w == "play"@ || w == "pause"@ || w == "p"@ {
        CommandView::P
    } else if w == "clear"@ {
        CommandView::Clear
    } else if w == "next"@ {
        CommandView::Next(count_arg(toks))
    } else if w == "prev"@ {
        CommandView::Prev(count_arg(toks))
    } else if w == "exit"@ {
        CommandView::Exit
    } else if w == "show"@ || w == "ls"@ {
        CommandView::Show(
            if toks.len() == 2 {
                Some(toks[1])
            } else {
                None
            },
        )
    } else if w == "playlist"@ || w == "pl"@ {
        CommandView::Playlist(read_playlist_command(toks))
    } else if w == "track_ended"@ {
        CommandView::TrackEnded
    } else {
        CommandView::Unknown(w)
    }
}

/// A line of input reads as a command when it holds at least one word.
pub open spec fn parse_line(line: Seq<char>) -> Option<CommandView> {
    if tokens(line).len() == 0 {
        None
    } else {
        Some(read_command(tokens(line)))
    }
}

/// Whether `s` is the word `w`.
pub fn is_word(s: &String, w: &str) -> (r: bool)
    ensures
        r == (s@ == w@),
{
    let o = w.to_owned();
    *s == o
}

fn third_of(toks: &Vec<String>) -> (r: Option<String>)
    ensures
        text_option(r) == third_word(texts(toks@)),
{
    if toks.len() > 2 {
        Some(toks[2].clone())
    } else {
        None
    }
}

fn count_of(toks: &Vec<String>) -> (r: Option<usize>)
    ensures
        r == count_arg(texts(toks@)),
{
    if toks.len() > 1 {
        parse_usize(toks[1].as_str())
    } else {
        Some(1)
    }
}

/// The `playlist` subcommand that the words form.
pub fn playlist_command(toks: &Vec<String>) -> (r: PlaylistCommand)
    ensures
        r@ == read_playlist_command(texts(toks@)),
{
    if toks.len() < 2 {
        return PlaylistCommand::Insufficient;
    }
    let w = &toks[1];
    if is_word(w, "new") {
        PlaylistCommand::New(third_of(toks))
    } else if is_word(w, "show") || is_word(w, "ls") {
        PlaylistCommand::Show
    } else if is_word(w, "load") {
        PlaylistCommand::Load(third_of(toks))
    } else {
        PlaylistCommand::Unknown(w.clone())
    }
}

/// The command that the words `toks` form.
pub fn command_of(toks: &Vec<String>) -> (r: Command)
    requires
        toks.len() >= 1,
    ensures
        r@ == read_command(texts(toks@)),
{
    let w = &toks[0];
    if is_word(w, "add") {
        let joined = spaced_of(toks, 1);
        Command::Add(trimmed(joined.as_str()))
    } else if is_word(w, "replay") {
        Command::Replay
    } else if is_word(w, "play") || is_word(w, "pause") || is_word(w, "p") {
        Command::P
    } else if is_word(w, "clear") {
        Command::Clear
    } else if is_word(w, "next") {
        Command::Next(count_of(toks))
    } else if is_word(w, "prev") {
        Command::Prev(count_of(toks))
    } else if is_word(w, "exit") {
        Command::Exit
    } else if is_word(w, "show") || is_word(w, "ls") {
        if toks.len() == 2 {
            Command::Show(Some(toks[1].clone()))
        } else {
            Command::Show(None)
        }
    } else if is_word(w, "playlist") || is_word(w, "pl") {
        Command::Playlist(playlist_command(toks))
    } else if is_word(w, "track_ended") {
        Command::TrackEnded
    } else {
        Command::Unknown(w.clone())
    }
}

/// Reads a line of input as a command: `None` when it holds no word.
pub fn parse_command(line: &str) -> (r: Option<Command>)
    ensures
        match r {
            Some(c) => parse_line(line@) == Some(c@),
            None => parse_line(line@) is None,
        },
{
    let toks = split_tokens(line);
    if toks.len() == 0 {
        None
    } else {
        Some(command_of(&toks))
    }
}

} // verus!
