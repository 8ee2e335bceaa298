//! The player's state between commands (the song library, the queue, the
//! position in it) and what each line of input does to it.
//!
//! A line of input, or a report from the audio output that a track ended,
//! goes to `Session::step`, which changes the state and returns the actions
//! to carry out in order. Reading a playlist file is the one action whose
//! result comes back: it goes to `Session::apply_playlist`.
use vstd::prelude::*;
use crate::actions::{Action, ActionView, Note, action_views};
use crate::commands::{
    Command,
    CommandView,
    PlaylistCommand,
    PlaylistCommandView,
    is_word,
    parse_command,
    parse_line,
    text_option,
};
use crate::playlist::{
    load_playlist,
    make_playlist,
    playlist_file,
    playlist_file_name,
    playlist_songs,
    playlist_text,
};
use crate::search::{search_fails, search_result, try_search};
use crate::text::{basename, basename_of, parse_usize, parse_usize_spec, texts, trim, trimmed};

verus! {

/// The player's state.
pub struct Session {
    /// Every song the player knows of, as paths.
    pub library: Vec<String>,
    /// The play queue, as paths.
    pub queue: Vec<String>,
    /// The position in the queue of the song playing; it returns to the
    /// start when the queue is emptied or replaced.
    pub current: usize,
    /// Set when the player was told to skip: the next report that a track
    /// ended is about the skipped track and is ignored.
    pub interrupted: bool,
    /// The matches offered after an `add` that matched several songs; the
    /// next line of input chooses among them.
    pub choices: Option<Vec<String>>,
}

#[verifier::ext_equal]
pub struct SessionView {
    pub library: Seq<Seq<char>>,
    pub queue: Seq<Seq<char>>,
    pub current: usize,
    pub interrupted: bool,
    pub choices: Option<Seq<Seq<char>>>,
}

pub open spec fn texts_option(o: Option<Vec<String>>) -> Option<Seq<Seq<char>>> {
    match o {
        Some(v) => Some(texts(v@)),
        None => None,
    }
}

impl View for Session {
    type V = SessionView;

    open spec fn view(&self) -> SessionView {
        SessionView {
            library: texts(self.library@),
            queue: texts(self.queue@),
            current: self.current,
            interrupted: self.interrupted,
            choices: texts_option(self.choices),
        }
    }
}

/// A state change and its actions, or `None` where the input cannot be
/// handled: a choice one past the matches offered, a line of blanks, a
/// search term that cannot be compared, `playlist new` or `playlist load`
/// without a name, or (from a position outside the queue, which no line of
/// input produces) replaying or showing the current song.
pub type Outcome = Option<(SessionView, Seq<ActionView>)>;

/// The state after a call is the expected one and its actions are the
/// expected ones; `None` comes back exactly where nothing is expected.
pub open spec fn settles(after: SessionView, r: Option<Vec<Action>>, expected: Outcome) -> bool {
    match expected {
        None => r is None,
        Some(e) => match r {
            Some(v) => after == e.0 && action_views(v@) == e.1,
            None => false,
        },
    }
}

/// A song joins the end of the queue; when it is the only song, the
/// position is the start of the queue and the song is handed to the player.
pub open spec fn on_append(s: SessionView, song: Seq<char>, note: Note) -> Outcome {
    let q = s.queue.push(song);
    if s.queue.len() == 0 {
        Some(
            (
                SessionView { queue: q, current: 0, ..s },
                seq![ActionView::SayAbout(note, song), ActionView::Play(song)],
            ),
        )
    } else {
        Some((SessionView { queue: q, ..s }, seq![ActionView::SayAbout(note, song)]))
    }
}

/// The line that answers an offer of several matches: a number from 1 to
/// the number of matches adds that match; one past them cannot be handled;
/// anything else adds nothing.
pub open spec fn on_choice(s: SessionView, songs: Seq<Seq<char>>, line: Seq<char>) -> Outcome {
    let c = parse_usize_spec(line);
    if c is Some && 1 <= c.unwrap() && c.unwrap() - 1 < songs.len() {
        on_append(s, songs[c.unwrap() - 1], Note::AddingToQueue)
    } else if c is Some && 1 <= c.unwrap() && c.unwrap() - 1 == songs.len() {
        None
    } else {
        Some((s, seq![ActionView::Say(Note::AddingNothing)]))
    }
}

/// `add`: one match joins the queue, several are offered, none is reported.
pub open spec fn on_add(s: SessionView, term: Seq<char>) -> Outcome {
    if search_fails(s.library, term) {
        None
    } else {
        let found = search_result(s.library, term);
        if found.len() == 1 {
            on_append(s, found[0], Note::AddedToQueue)
        } else if found.len() == 0 {
            Some((s, seq![ActionView::SayAbout(Note::NoMatch, term)]))
        } else {
            Some(
                (
                    SessionView { choices: Some(found), ..s },
                    seq![ActionView::Choices(found.map_values(|p: Seq<char>| basename(p)))],
                ),
            )
        }
    }
}

/// `replay`: the current song starts over.
pub open spec fn on_replay(s: SessionView) -> Outcome {
    if s.queue.len() == 0 {
        Some((s, seq![ActionView::Say(Note::QueueEmpty)]))
    } else if s.current < s.queue.len() {
        Some(
            (s, seq![ActionView::Replay(s.queue[s.current as int]), ActionView::Say(Note::Replaying)]),
        )
    } else {
        None
    }
}

/// `p`: paused playback resumes, running playback pauses.
pub open spec fn on_toggle(s: SessionView, paused: bool) -> Outcome {
    if paused {
        Some((s, seq![ActionView::Resume, ActionView::Say(Note::Playing)]))
    } else {
        Some((s, seq![ActionView::Pause, ActionView::Say(Note::Paused)]))
    }
}

/// `clear`: the queue empties and the position returns to its start.
pub open spec fn on_clear(s: SessionView) -> Outcome {
    Some(
        (
            SessionView { queue: Seq::empty(), current: 0, ..s },
            seq![ActionView::Say(Note::QueueCleared)],
        ),
    )
}

/// The position `n` songs after `cur` in a queue of `len` songs, wrapping
/// around at the end: `(cur + n) mod len`.
pub open spec fn next_index(cur: usize, n: usize, len: usize) -> usize {
    ((cur + n) % (len as int)) as usize
}

/// The position `n` songs before `cur` in a queue of `len` songs, wrapping
/// around at the start: `(cur - n) mod len`.
pub open spec fn prev_index(cur: usize, n: usize, len: usize) -> usize {
    ((cur - n) % (len as int)) as usize
}

/// Moving to position `target`: the player is told to skip to that song.
pub open spec fn on_skip(s: SessionView, target: usize, warn: Seq<ActionView>) -> Outcome {
    if target < s.queue.len() {
        Some(
            (
                SessionView { current: target, interrupted: true, ..s },
                warn + seq![
                    ActionView::Say(Note::PlayingNext),
                    ActionView::Stop,
                    ActionView::Play(s.queue[target as int]),
                ],
            ),
        )
    } else {
        None
    }
}

/// `next [n]`: skip `n` songs ahead (1 by default; 0, with a warning,
/// when the argument is not a count).
pub open spec fn on_next(s: SessionView, count: Option<usize>) -> Outcome {
    if s.queue.len() == 0 {
        Some((s, seq![ActionView::Say(Note::NothingInQueue)]))
    } else {
        let n: usize = if count is Some {
            count.unwrap()
        } else {
            0
        };
        let warn = if count is Some {
            Seq::<ActionView>::empty()
        } else {
            seq![ActionView::Say(Note::BadNextCount)]
        };
        on_skip(s, next_index(s.current, n, s.queue.len() as usize), warn)
    }
}

/// `prev [n]`: go `n` songs back (1 by default; 0, with a warning,
/// when the argument is not a count).
pub open spec fn on_prev(s: SessionView, count: Option<usize>) -> Outcome {
    if s.queue.len() == 0 {
        Some((s, seq![ActionView::Say(Note::NothingInQueue)]))
    } else {
        let n: usize = if count is Some {
            count.unwrap()
        } else {
            0
        };
        let warn = if count is Some {
            Seq::<ActionView>::empty()
        } else {
            seq![ActionView::Say(Note::BadPrevCount)]
        };
        on_skip(s, prev_index(s.current, n, s.queue.len() as usize), warn)
    }
}

/// `show` / `ls`: the queue with the current song marked, or with
/// `current` / `cp` the current song alone.
pub open spec fn on_show(s: SessionView, arg: Option<Seq<char>>) -> Outcome {
    if s.queue.len() == 0 {
        Some((s, seq![ActionView::Say(Note::NothingInQueue)]))
    } else {
        match arg {
            Some(w) => if w == "current"@ || w == "cp"@ {
                if s.current < s.queue.len() {
                    Some(
                        (
                            s,
                            seq![
                                ActionView::Show(
                                    "Current"@,
                                    seq![basename(s.queue[s.current as int])],
                                    Some(0),
                                ),
                            ],
                        ),
                    )
                } else {
                    None
                }
            } else {
                Some((s, seq![ActionView::SayAbout(Note::ShowUnknown, w)]))
            },
            None => Some(
                (
                    s,
                    seq![
                        ActionView::Show(
                            "Queue"@,
                            s.queue.map_values(|p: Seq<char>| basename(p)),
                            Some(s.current),
                        ),
                    ],
                ),
            ),
        }
    }
}

/// `playlist ...`: save the queue, list the playlists, or load one.
pub open spec fn on_playlist(s: SessionView, pc: PlaylistCommandView) -> Outcome {
    match pc {
        PlaylistCommandView::Insufficient => Some((s, seq![ActionView::Say(Note::PlaylistUsage)])),
        PlaylistCommandView::New(name) => if s.queue.len() > 0 {
            match name {
                None => None,
                Some(nm) => Some(
                    (
                        s,
                        seq![ActionView::SavePlaylist(playlist_file(nm), playlist_text(s.queue))],
                    ),
                ),
            }
        } else {
            Some((s, Seq::empty()))
        },
        PlaylistCommandView::Show => Some((s, seq![ActionView::ShowPlaylists])),
        PlaylistCommandView::Load(name) => match name {
            None => None,
            Some(nm) => Some(
                (
                    s,
                    seq![
                        ActionView::SayAbout(Note::PlayingFromPlaylist, nm),
                        ActionView::LoadPlaylist(nm, playlist_file(nm)),
                    ],
                ),
            ),
        },
        PlaylistCommandView::Unknown(w) => Some(
            (s, seq![ActionView::SayAbout(Note::PlaylistUnknown, w)]),
        ),
    }
}

/// The player reports that a track ended: unless that track was skipped,
/// the next song in the queue (wrapping around) is handed to the player.
pub open spec fn on_track_ended(s: SessionView) -> Outcome {
    if s.interrupted {
        Some((SessionView { interrupted: false, ..s }, Seq::empty()))
    } else if s.queue.len() == 0 {
        Some((s, Seq::empty()))
    } else {
        let c = next_index(s.current, 1, s.queue.len() as usize);
        Some((SessionView { current: c, ..s }, seq![ActionView::Play(s.queue[c as int])]))
    }
}

pub open spec fn on_command(s: SessionView, cmd: CommandView, paused: bool) -> Outcome {
    match cmd {
        CommandView::Add(term) => on_add(s, term),
        CommandView::Clear => on_clear(s),
        CommandView::Exit => Some((s, seq![ActionView::Say(Note::Exiting), ActionView::Exit])),
        CommandView::Next(count) => on_next(s, count),
        CommandView::Prev(count) => on_prev(s, count),
        CommandView::P => on_toggle(s, paused),
        CommandView::Playlist(pc) => on_playlist(s, pc),
        CommandView::Replay => on_replay(s),
        CommandView::Show(arg) => on_show(s, arg),
        CommandView::TrackEnded => on_track_ended(s),
        CommandView::Unknown(w) => Some((s, seq![ActionView::SayAbout(Note::UnknownCommand, w)])),
    }
}

/// What a line of input does. While matches are on offer the line is the
/// choice; otherwise an empty line does nothing, a line of blanks cannot be
/// handled, and any other line is a command. `paused` tells whether the
/// audio output is paused.
pub open spec fn on_line(s: SessionView, line: Seq<char>, paused: bool) -> Outcome {
    match s.choices {
        Some(songs) => on_choice(SessionView { choices: None, ..s }, songs, line),
        None => if line.len() == 0 {
            Some((s, Seq::empty()))
        } else {
            match parse_line(line) {
                None => None,
                Some(cmd) => on_command(s, cmd, paused),
            }
        },
    }
}

/// The playlist `name`, read from `file`, becomes the queue: its songs are
/// shown, the position returns to the start of the queue, the player stops
/// and is handed the first one. A missing file is
/// reported and changes nothing.
pub open spec fn on_playlist_text(
    s: SessionView,
    name: Seq<char>,
    file: Seq<char>,
    text: Option<Seq<char>>,
) -> (SessionView, Seq<ActionView>) {
    match text {
        None => (s, seq![ActionView::SayAbout(Note::NoSuchPlaylist, file)]),
        Some(t) => {
            let q = playlist_songs(t);
            (
                SessionView { queue: q, current: 0, interrupted: true, ..s },
                seq![
                    ActionView::Show(name, q.map_values(|l: Seq<char>| trim(basename(l))), None),
                    ActionView::Stop,
                    ActionView::Play(q[0]),
                ],
            )
        },
    }
}

/// The file names of the paths.
fn basenames(v: &Vec<String>) -> (r: Vec<String>)
    ensures
        texts(r@) == texts(v@).map_values(|p: Seq<char>| basename(p)),
{
    let mut r: Vec<String> = Vec::new();
    let mut i: usize = 0;
    while i < v.len()
        invariant
            i <= v.len(),
            texts(r@) =~= texts(v@).take(i as int).map_values(|p: Seq<char>| basename(p)),
        decreases v.len() - i,
    {
        let b = basename_of(v[i].as_str());
        let ghost before = r@;
        r.push(b);
        assert(texts(r@) =~= texts(before).push(b@));
        assert(texts(v@).take(i + 1) =~= texts(v@).take(i as int).push(v@[i as int]@));
        assert(texts(r@) =~= texts(v@).take(i + 1).map_values(|p: Seq<char>| basename(p)));
        i = i + 1;
    }
    assert(texts(v@).take(v.len() as int) =~= texts(v@));
    r
}

/// The file names of the paths, trimmed.
fn trimmed_basenames(v: &Vec<String>) -> (r: Vec<String>)
    ensures
        texts(r@) == texts(v@).map_values(|p: Seq<char>| trim(basename(p))),
{
    let mut r: Vec<String> = Vec::new();
    let mut i: usize = 0;
    while i < v.len()
        invariant
            i <= v.len(),
            texts(r@) =~= texts(v@).take(i as int).map_values(|p: Seq<char>| trim(basename(p))),
        decreases v.len() - i,
    {
        let b = basename_of(v[i].as_str());
        let t = trimmed(b.as_str());
        let ghost before = r@;
        r.push(t);
        assert(texts(r@) =~= texts(before).push(t@));
        assert(texts(v@).take(i + 1) =~= texts(v@).take(i as int).push(v@[i as int]@));
        assert(texts(r@) =~= texts(v@).take(i + 1).map_values(
            |p: Seq<char>| trim(basename(p)),
        ));
        i = i + 1;
    }
    assert(texts(v@).take(v.len() as int) =~= texts(v@));
    r
}

/// `prev_index` computed.
fn prev_position(cur: usize, n: usize, len: usize) -> (r: usize)
    requires
        len > 0,
    ensures
        r == prev_index(cur, n, len),
        r < len,
{
    let c = cur % len;
    let m = n % len;
    proof {
        vstd::arithmetic::div_mod::lemma_sub_mod_noop(cur as int, n as int, len as int);
    }
    if m <= c {
        proof {
            vstd::arithmetic::div_mod::lemma_small_mod((c - m) as nat, len as nat);
        }
        c - m
    } else {
        proof {
            vstd::arithmetic::div_mod::lemma_mod_add_multiples_vanish(c - m, len as int);
            vstd::arithmetic::div_mod::lemma_small_mod((len + c - m) as nat, len as nat);
        }
        c + (len - m)
    }
}

/// `next_index` computed.
fn next_position(cur: usize, n: usize, len: usize) -> (r: usize)
    requires
        len > 0,
    ensures
        r == next_index(cur, n, len),
        r < len,
{
    let c = cur % len;
    let m = n % len;
    proof {
        vstd::arithmetic::div_mod::lemma_add_mod_noop(cur as int, n as int, len as int);
    }
    if m < len - c {
        proof {
            vstd::arithmetic::div_mod::lemma_small_mod((c + m) as nat, len as nat);
        }
        c + m
    } else {
        proof {
            vstd::arithmetic::div_mod::lemma_mod_sub_multiples_vanish(c + m, len as int);
            vstd::arithmetic::div_mod::lemma_small_mod((c + m - len) as nat, len as nat);
        }
        m - (len - c)
    }
}

impl Session {
    /// A player that knows the songs `library` and has an empty queue.
    pub fn new(library: Vec<String>) -> (s: Session)
        ensures
            s@ == (SessionView {
                library: texts(library@),
                queue: Seq::empty(),
                current: 0,
                interrupted: false,
                choices: None,
            }),
    {
        let s = Session {
            library,
            queue: Vec::new(),
            current: 0,
            interrupted: false,
            choices: None,
        };
        assert(s@.queue =~= Seq::<Seq<char>>::empty());
        s
    }

    fn append(&mut self, song: String, note: Note) -> (r: Option<Vec<Action>>)
        ensures
            settles(final(self)@, r, on_append(old(self)@, song@, note)),
    {
        let first = self.queue.len() == 0;
        let mut acts: Vec<Action> = Vec::new();
        acts.push(Action::SayAbout(note, song.clone()));
        if first {
            acts.push(Action::Play(song.clone()));
        }
        let ghost q0 = self.queue@;
        self.queue.push(song);
        if first {
            self.current = 0;
        }
        assert(texts(self.queue@) =~= texts(q0).push(song@));
        proof {
            if first {
                assert(self@ =~= (SessionView {
                    queue: texts(q0).push(song@),
                    current: 0,
                    ..old(self)@
                }));
                assert(action_views(acts@) =~= seq![
                    ActionView::SayAbout(note, song@),
                    ActionView::Play(song@),
                ]);
            } else {
                assert(self@ =~= (SessionView { queue: texts(q0).push(song@), ..old(self)@ }));
                assert(action_views(acts@) =~= seq![ActionView::SayAbout(note, song@)]);
            }
        }
        Some(acts)
    }

    fn pick(&mut self, songs: &Vec<String>, line: &str) -> (r: Option<Vec<Action>>)
        ensures
            settles(final(self)@, r, on_choice(old(self)@, texts(songs@), line@)),
    {
        let c = parse_usize(line);
        match c {
            Some(v) => {
                if v >= 1 && v - 1 < songs.len() {
                    let song = songs[v - 1].clone();
                    return self.append(song, Note::AddingToQueue);
                } else if v >= 1 && v - 1 == songs.len() {
                    return None;
                }
            },
            None => {},
        }
        let acts = vec![Action::Say(Note::AddingNothing)];
        assert(action_views(acts@) =~= seq![ActionView::Say(Note::AddingNothing)]);
        Some(acts)
    }

    fn add(&mut self, term: String) -> (r: Option<Vec<Action>>)
        ensures
            settles(final(self)@, r, on_add(old(self)@, term@)),
    {
        match try_search(&self.library, &term) {
            None => None,
            Some(found) => {
                if found.len() == 1 {
                    let song = found[0].clone();
                    self.append(song, Note::AddedToQueue)
                } else if found.len() == 0 {
                    let acts = vec![Action::SayAbout(Note::NoMatch, term)];
                    assert(action_views(acts@) =~= seq![ActionView::SayAbout(Note::NoMatch, term@)]);
                    Some(acts)
                } else {
                    let names = basenames(&found);
                    let ghost fv = texts(found@);
                    self.choices = Some(found);
                    let acts = vec![Action::Choices(names)];
                    assert(action_views(acts@) =~= seq![
                        ActionView::Choices(fv.map_values(|p: Seq<char>| basename(p))),
                    ]);
                    assert(self@ =~= (SessionView { choices: Some(fv), ..old(self)@ }));
                    Some(acts)
                }
            },
        }
    }

    fn replay(&self) -> (r: Option<Vec<Action>>)
        ensures
            settles(self@, r, on_replay(self@)),
    {
        if self.queue.len() == 0 {
            let acts = vec![Action::Say(Note::QueueEmpty)];
            assert(action_views(acts@) =~= seq![ActionView::Say(Note::QueueEmpty)]);
            Some(acts)
        } else if self.current < self.queue.len() {
            let acts = vec![
                Action::Replay(self.queue[self.current].clone()),
                Action::Say(Note::Replaying),
            ];
            assert(action_views(acts@) =~= seq![
                ActionView::Replay(self@.queue[self.current as int]),
                ActionView::Say(Note::Replaying),
            ]);
            Some(acts)
        } else {
            None
        }
    }

    fn toggle(&self, paused: bool) -> (r: Option<Vec<Action>>)
        ensures
            settles(self@, r, on_toggle(self@, paused)),
    {
        let acts = if paused {
            vec![Action::Resume, Action::Say(Note::Playing)]
        } else {
            vec![Action::Pause, Action::Say(Note::Paused)]
        };
        proof {
            if paused {
                assert(action_views(acts@) =~= seq![
                    ActionView::Resume,
                    ActionView::Say(Note::Playing),
                ]);
            } else {
                assert(action_views(acts@) =~= seq![
                    ActionView::Pause,
                    ActionView::Say(Note::Paused),
                ]);
            }
        }
        Some(acts)
    }

    fn clear(&mut self) -> (r: Option<Vec<Action>>)
        ensures
            settles(final(self)@, r, on_clear(old(self)@)),
    {
        self.queue = Vec::new();
        self.current = 0;
        let acts = vec![Action::Say(Note::QueueCleared)];
        assert(action_views(acts@) =~= seq![ActionView::Say(Note::QueueCleared)]);
        assert(self@ =~= (SessionView { queue: Seq::empty(), current: 0, ..old(self)@ }));
        Some(acts)
    }

    fn skip(&mut self, target: usize, acts: Vec<Action>) -> (r: Option<Vec<Action>>)
        ensures
            settles(final(self)@, r, on_skip(old(self)@, target, action_views(acts@))),
    {
        let mut acts = acts;
        if target < self.queue.len() {
            let ghost a0 = acts@;
            self.current = target;
            self.interrupted = true;
            acts.push(Action::Say(Note::PlayingNext));
            acts.push(Action::Stop);
            acts.push(Action::Play(self.queue[target].clone()));
            assert(action_views(acts@) =~= action_views(a0) + seq![
                ActionView::Say(Note::PlayingNext),
                ActionView::Stop,
                ActionView::Play(self@.queue[target as int]),
            ]);
            assert(self@ =~= (SessionView { current: target, interrupted: true, ..old(self)@ }));
            Some(acts)
        } else {
            None
        }
    }

    fn next(&mut self, count: Option<usize>) -> (r: Option<Vec<Action>>)
        ensures
            settles(final(self)@, r, on_next(old(self)@, count)),
    {
        let len = self.queue.len();
        if len == 0 {
            let acts = vec![Action::Say(Note::NothingInQueue)];
            assert(action_views(acts@) =~= seq![ActionView::Say(Note::NothingInQueue)]);
            return Some(acts);
        }
        let mut warn: Vec<Action> = Vec::new();
        let n = match count {
            Some(n) => n,
            None => {
                warn.push(Action::Say(Note::BadNextCount));
                0
            },
        };
        proof {
            if count is Some {
                assert(action_views(warn@) =~= Seq::<ActionView>::empty());
            } else {
                assert(action_views(warn@) =~= seq![ActionView::Say(Note::BadNextCount)]);
            }
        }
        let target = next_position(self.current, n, len);
        self.skip(target, warn)
    }

    fn prev(&mut self, count: Option<usize>) -> (r: Option<Vec<Action>>)
        ensures
            settles(final(self)@, r, on_prev(old(self)@, count)),
    {
        let len = self.queue.len();
        if len == 0 {
            let acts = vec![Action::Say(Note::NothingInQueue)];
            assert(action_views(acts@) =~= seq![ActionView::Say(Note::NothingInQueue)]);
            return Some(acts);
        }
        let mut warn: Vec<Action> = Vec::new();
        let n = match count {
            Some(n) => n,
            None => {
                warn.push(Action::Say(Note::BadPrevCount));
                0
            },
        };
        proof {
            if count is Some {
                assert(action_views(warn@) =~= Seq::<ActionView>::empty());
            } else {
                assert(action_views(warn@) =~= seq![ActionView::Say(Note::BadPrevCount)]);
            }
        }
        let target = prev_position(self.current, n, len);
        self.skip(target, warn)
    }

    fn show(&self, arg: Option<String>) -> (r: Option<Vec<Action>>)
        ensures
            settles(self@, r, on_show(self@, text_option(arg))),
    {
        if self.queue.len() == 0 {
            let acts = vec![Action::Say(Note::NothingInQueue)];
            assert(action_views(acts@) =~= seq![ActionView::Say(Note::NothingInQueue)]);
            return Some(acts);
        }
        match arg {
            Some(w) => {
                if is_word(&w, "current") || is_word(&w, "cp") {
                    if self.current < self.queue.len() {
                        let b = basename_of(self.queue[self.current].as_str());
                        let items = vec![b];
                        assert(texts(items@) =~= seq![basename(self@.queue[self.current as int])]);
                        let acts = vec![Action::Show("Current".to_owned(), items, Some(0))];
                        assert(action_views(acts@) =~= seq![
                            ActionView::Show(
                                "Current"@,
                                seq![basename(self@.queue[self.current as int])],
                                Some(0),
                            ),
                        ]);
                        Some(acts)
                    } else {
                        None
                    }
                } else {
                    let acts = vec![Action::SayAbout(Note::ShowUnknown, w)];
                    assert(action_views(acts@) =~= seq![ActionView::SayAbout(Note::ShowUnknown, w@)]);
                    Some(acts)
                }
            },
            None => {
                let items = basenames(&self.queue);
                let acts = vec![Action::Show("Queue".to_owned(), items, Some(self.current))];
                assert(action_views(acts@) =~= seq![
                    ActionView::Show(
                        "Queue"@,
                        self@.queue.map_values(|p: Seq<char>| basename(p)),
                        Some(self.current),
                    ),
                ]);
                Some(acts)
            },
        }
    }

    fn playlist(&self, pc: PlaylistCommand) -> (r: Option<Vec<Action>>)
        ensures
            settles(self@, r, on_playlist(self@, pc@)),
    {
        match pc {
            PlaylistCommand::Insufficient => {
                let acts = vec![Action::Say(Note::PlaylistUsage)];
                assert(action_views(acts@) =~= seq![ActionView::Say(Note::PlaylistUsage)]);
                Some(acts)
            },
            PlaylistCommand::New(name) => {
                if self.queue.len() > 0 {
                    match name {
                        None => None,
                        Some(nm) => {
                            let (file, text) = make_playlist(&self.queue, &nm);
                            let acts = vec![Action::SavePlaylist(file, text)];
                            assert(action_views(acts@) =~= seq![
                                ActionView::SavePlaylist(playlist_file(nm@), playlist_text(self@.queue)),
                            ]);
                            Some(acts)
                        },
                    }
                } else {
                    let acts: Vec<Action> = Vec::new();
                    assert(action_views(acts@) =~= Seq::<ActionView>::empty());
                    Some(acts)
                }
            },
            PlaylistCommand::Show => {
                let acts = vec![Action::ShowPlaylists];
                assert(action_views(acts@) =~= seq![ActionView::ShowPlaylists]);
                Some(acts)
            },
            PlaylistCommand::Load(name) => match name {
                None => None,
                Some(nm) => {
                    let file = playlist_file_name(&nm);
                    let acts = vec![
                        Action::SayAbout(Note::PlayingFromPlaylist, nm.clone()),
                        Action::LoadPlaylist(nm, file),
                    ];
                    assert(action_views(acts@) =~= seq![
                        ActionView::SayAbout(Note::PlayingFromPlaylist, nm@),
                        ActionView::LoadPlaylist(nm@, playlist_file(nm@)),
                    ]);
                    Some(acts)
                },
            },
            PlaylistCommand::Unknown(w) => {
                let acts = vec![Action::SayAbout(Note::PlaylistUnknown, w)];
                assert(action_views(acts@) =~= seq![ActionView::SayAbout(Note::PlaylistUnknown, w@)]);
                Some(acts)
            },
        }
    }

    fn track_ended(&mut self) -> (r: Option<Vec<Action>>)
        ensures
            settles(final(self)@, r, on_track_ended(old(self)@)),
    {
        if self.interrupted {
            self.interrupted = false;
            let acts: Vec<Action> = Vec::new();
            assert(action_views(acts@) =~= Seq::<ActionView>::empty());
            assert(self@ =~= (SessionView { interrupted: false, ..old(self)@ }));
            return Some(acts);
        }
        let len = self.queue.len();
        if len == 0 {
            let acts: Vec<Action> = Vec::new();
            assert(action_views(acts@) =~= Seq::<ActionView>::empty());
            return Some(acts);
        }
        let c = next_position(self.current, 1, len);
        self.current = c;
        let acts = vec![Action::Play(self.queue[c].clone())];
        assert(action_views(acts@) =~= seq![ActionView::Play(self@.queue[c as int])]);
        assert(self@ =~= (SessionView { current: c, ..old(self)@ }));
        Some(acts)
    }

    fn run(&mut self, cmd: Command, paused: bool) -> (r: Option<Vec<Action>>)
        ensures
            settles(final(self)@, r, on_command(old(self)@, cmd@, paused)),
    {
        match cmd {
            Command::Add(term) => self.add(term),
            Command::Clear => self.clear(),
            Command::Exit => {
                let acts = vec![Action::Say(Note::Exiting), Action::Exit];
                assert(action_views(acts@) =~= seq![
                    ActionView::Say(Note::Exiting),
                    ActionView::Exit,
                ]);
                Some(acts)
            },
            Command::Next(count) => self.next(count),
            Command::Prev(count) => self.prev(count),
            Command::P => self.toggle(paused),
            Command::Playlist(pc) => self.playlist(pc),
            Command::Replay => self.replay(),
            Command::Show(arg) => self.show(arg),
            Command::TrackEnded => self.track_ended(),
            Command::Unknown(w) => {
                let acts = vec![Action::SayAbout(Note::UnknownCommand, w)];
                assert(action_views(acts@) =~= seq![ActionView::SayAbout(Note::UnknownCommand, w@)]);
                Some(acts)
            },
        }
    }

    /// Handles one line of input (see `on_line`): changes the state and
    /// returns the actions to carry out in order, or `None` where the line
    /// cannot be handled.
    pub fn step(&mut self, line: &str, paused: bool) -> (r: Option<Vec<Action>>)
        ensures
            settles(final(self)@, r, on_line(old(self)@, line@, paused)),
    {
        match self.choices.take() {
            Some(songs) => {
                assert(self@ =~= (SessionView { choices: None, ..old(self)@ }));
                self.pick(&songs, line)
            },
            None => {
                if line.is_empty() {
                    let acts: Vec<Action> = Vec::new();
                    assert(action_views(acts@) =~= Seq::<ActionView>::empty());
                    return Some(acts);
                }
                match parse_command(line) {
                    None => None,
                    Some(cmd) => self.run(cmd, paused),
                }
            },
        }
    }

    /// Makes the playlist `name`, read from `file` (`None`: no such file),
    /// the queue (see `on_playlist_text`).
    pub fn apply_playlist(&mut self, name: &String, file: &String, text: Option<String>) -> (r: Vec<
        Action,
    >)
        ensures
            (final(self)@, action_views(r@)) == on_playlist_text(
                old(self)@,
                name@,
                file@,
                text_option(text),
            ),
    {
        match text {
            None => {
                let acts = vec![Action::SayAbout(Note::NoSuchPlaylist, file.clone())];
                assert(action_views(acts@) =~= seq![ActionView::SayAbout(Note::NoSuchPlaylist, file@)]);
                acts
            },
            Some(t) => {
                let songs = load_playlist(t.as_str());
                let shown = trimmed_basenames(&songs);
                let first = songs[0].clone();
                let ghost q = texts(songs@);
                self.queue = songs;
                self.current = 0;
                self.interrupted = true;
                let acts = vec![Action::Show(name.clone(), shown, None), Action::Stop, Action::Play(first)];
                assert(action_views(acts@) =~= seq![
                    ActionView::Show(name@, q.map_values(|l: Seq<char>| trim(basename(l))), None),
                    ActionView::Stop,
                    ActionView::Play(q[0]),
                ]);
                assert(self@ =~= (SessionView {
                    queue: q,
                    current: 0,
                    interrupted: true,
                    ..old(self)@
                }));
                acts
            },
        }
    }
}

} // verus!
