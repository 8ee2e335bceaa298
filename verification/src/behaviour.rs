//! What each command does, stated in terms of the state before it and the
//! state and actions after it.
use vstd::prelude::*;
use crate::actions::{ActionView, Note};
use crate::commands::{CommandView, parse_line};
use crate::frame::{byte_len, frame_width, row_mark, widest};
use crate::laws::law_moves_wrap;
use crate::search::{search_fails, search_result};
use crate::session::{SessionView, on_line, on_playlist_text};
use crate::text::{basename, parse_usize_spec, split_on, tokens, trim};

verus! {

proof fn lemma_words_mean_text(line: Seq<char>)
    requires
        parse_line(line) is Some,
    ensures
        line.len() > 0,
{
    if line.len() == 0 {
        assert(tokens(line).len() == 0);
    }
}

/// Answering an offer of matches with a number `c` from 1 to the number of
/// matches adds exactly the `c`-th match offered to the end of the queue and
/// announces it; the offer is over. When the queue was empty, that match is
/// played and becomes the current song.
pub proof fn law_choice_adds_the_chosen_match(
    s: SessionView,
    line: Seq<char>,
    paused: bool,
    c: usize,
)
    requires
        s.choices is Some,
        parse_usize_spec(line) == Some(c),
        1 <= c <= s.choices.unwrap().len(),
    ensures
        ({
            let chosen = s.choices.unwrap()[c - 1];
            on_line(s, line, paused) matches Some(o) && {
                &&& o.0.queue == s.queue.push(chosen)
                &&& o.0.choices is None
                &&& o.0.library == s.library
                &&& o.1[0] == ActionView::SayAbout(Note::AddingToQueue, chosen)
                &&& s.queue.len() == 0 ==> o.0.current == 0 && o.1 == seq![
                    ActionView::SayAbout(Note::AddingToQueue, chosen),
                    ActionView::Play(chosen),
                ]
                &&& s.queue.len() > 0 ==> o.0.current == s.current && o.1.len() == 1
            }
        }),
{
}

/// Any other answer to an offer of matches (not a number, 0, or more than
/// one past the number of matches) adds nothing and ends the offer.
pub proof fn law_other_answers_add_nothing(s: SessionView, line: Seq<char>, paused: bool)
    requires
        s.choices is Some,
        !(parse_usize_spec(line) matches Some(c) && 1 <= c <= s.choices.unwrap().len() + 1),
    ensures
        on_line(s, line, paused) == Some(
            (SessionView { choices: None, ..s }, seq![ActionView::Say(Note::AddingNothing)]),
        ),
{
}

/// `add` with a term that matches exactly one song adds that song to the
/// end of the queue (playing it when the queue was empty); with several
/// matches it offers them, by file name, in order; with none it says so.
pub proof fn law_add_by_matches(s: SessionView, line: Seq<char>, paused: bool, term: Seq<char>)
    requires
        s.choices is None,
        parse_line(line) == Some(CommandView::Add(term)),
        !search_fails(s.library, term),
    ensures
        ({
            let found = search_result(s.library, term);
            on_line(s, line, paused) matches Some(o) && {
                &&& found.len() == 1 ==> o.0.queue == s.queue.push(found[0]) && o.1[0]
                    == ActionView::SayAbout(Note::AddedToQueue, found[0]) && (s.queue.len() == 0
                    ==> o.1 == seq![
                    ActionView::SayAbout(Note::AddedToQueue, found[0]),
                    ActionView::Play(found[0]),
                ] && o.0.current == 0)
                &&& found.len() == 0 ==> o.0 == s && o.1 == seq![
                    ActionView::SayAbout(Note::NoMatch, term),
                ]
                &&& found.len() > 1 ==> o.0.queue == s.queue && o.0.choices == Some(found)
                    && o.1.len() == 1 && (o.1[0] matches ActionView::Choices(names) && names.len()
                    == found.len() && forall|i: int|
                    0 <= i < found.len() ==> #[trigger] names[i] == basename(found[i]))
            }
        }),
{
    lemma_words_mean_text(line);
}

/// `replay` replays the song at the current position and leaves the state
/// as it is.
pub proof fn law_replay_replays_current(s: SessionView, line: Seq<char>, paused: bool)
    requires
        s.choices is None,
        parse_line(line) == Some(CommandView::Replay),
        s.current < s.queue.len(),
    ensures
        on_line(s, line, paused) == Some(
            (
                s,
                seq![
                    ActionView::Replay(s.queue[s.current as int]),
                    ActionView::Say(Note::Replaying),
                ],
            ),
        ),
{
    lemma_words_mean_text(line);
}

/// `show` with no argument lists the queue by file name, in order, under
/// the title "Queue", with the current position marked; nothing changes.
pub proof fn law_show_marks_current(s: SessionView, line: Seq<char>, paused: bool)
    requires
        s.choices is None,
        parse_line(line) == Some(CommandView::Show(None)),
        s.queue.len() > 0,
    ensures
        on_line(s, line, paused) matches Some(o) && {
            &&& o.0 == s
            &&& o.1.len() == 1
            &&& o.1[0] matches ActionView::Show(title, items, sel) && {
                &&& title == "Queue"@
                &&& sel == Some(s.current)
                &&& items.len() == s.queue.len()
                &&& forall|i: int| 0 <= i < items.len() ==> #[trigger] items[i] == basename(s.queue[i])
            }
        },
{
    lemma_words_mean_text(line);
}

/// `show current` / `show cp` lists the current song alone, marked.
pub proof fn law_show_current_song(s: SessionView, line: Seq<char>, paused: bool, w: Seq<char>)
    requires
        s.choices is None,
        parse_line(line) == Some(CommandView::Show(Some(w))),
        w == "current"@ || w == "cp"@,
        s.current < s.queue.len(),
    ensures
        on_line(s, line, paused) == Some(
            (
                s,
                seq![
                    ActionView::Show(
                        "Current"@,
                        seq![basename(s.queue[s.current as int])],
                        Some(0),
                    ),
                ],
            ),
        ),
{
    lemma_words_mean_text(line);
}

/// `next [n]` moves `n` songs ahead, wrapping around (no move when the
/// argument is not a count, after a warning), and plays the song it lands
/// on; the queue stays and the next end-of-track report is ignored.
pub proof fn law_next_moves_ahead(
    s: SessionView,
    line: Seq<char>,
    paused: bool,
    count: Option<usize>,
)
    requires
        s.choices is None,
        parse_line(line) == Some(CommandView::Next(count)),
        0 < s.queue.len() <= usize::MAX,
    ensures
        ({
            let len = s.queue.len() as int;
            let moved: int = match count {
                Some(n) => n as int,
                None => 0,
            };
            on_line(s, line, paused) matches Some(o) && {
                &&& o.0.current == (s.current + moved) % len
                &&& o.0.queue == s.queue
                &&& o.0.interrupted
                &&& o.1.last() == ActionView::Play(s.queue[o.0.current as int])
                &&& o.1.len() == (if count is Some {
                    3int
                } else {
                    4int
                })
                &&& count is None ==> o.1[0] == ActionView::Say(Note::BadNextCount)
            }
        }),
{
    lemma_words_mean_text(line);
    let n: usize = match count {
        Some(n) => n,
        None => 0,
    };
    law_moves_wrap(s.current, n, s.queue.len() as usize);
}

/// `prev [n]` moves `n` songs back, wrapping around (no move when the
/// argument is not a count, after a warning), and plays the song it lands
/// on; the queue stays and the next end-of-track report is ignored.
pub proof fn law_prev_moves_back(
    s: SessionView,
    line: Seq<char>,
    paused: bool,
    count: Option<usize>,
)
    requires
        s.choices is None,
        parse_line(line) == Some(CommandView::Prev(count)),
        0 < s.queue.len() <= usize::MAX,
    ensures
        ({
            let len = s.queue.len() as int;
            let moved: int = match count {
                Some(n) => n as int,
                None => 0,
            };
            on_line(s, line, paused) matches Some(o) && {
                &&& o.0.current == (s.current - moved) % len
                &&& o.0.queue == s.queue
                &&& o.0.interrupted
                &&& o.1.last() == ActionView::Play(s.queue[o.0.current as int])
                &&& o.1.len() == (if count is Some {
                    3int
                } else {
                    4int
                })
                &&& count is None ==> o.1[0] == ActionView::Say(Note::BadPrevCount)
            }
        }),
{
    lemma_words_mean_text(line);
    let n: usize = match count {
        Some(n) => n,
        None => 0,
    };
    law_moves_wrap(s.current, n, s.queue.len() as usize);
}

/// When a track ends on its own, the next song in the queue (wrapping
/// around) becomes current and is played; after a skip the report is only
/// noted.
pub proof fn law_track_end_advances(s: SessionView, line: Seq<char>, paused: bool)
    requires
        s.choices is None,
        parse_line(line) == Some(CommandView::TrackEnded),
        0 < s.queue.len() <= usize::MAX,
    ensures
        on_line(s, line, paused) matches Some(o) && {
            &&& !s.interrupted ==> o.0.current == (s.current + 1) % (s.queue.len() as int)
                && o.1 == seq![ActionView::Play(s.queue[o.0.current as int])]
            &&& s.interrupted ==> o.0.current == s.current && o.1.len() == 0
            &&& !o.0.interrupted
            &&& o.0.queue == s.queue
        },
{
    lemma_words_mean_text(line);
    law_moves_wrap(s.current, 1, s.queue.len() as usize);
}

/// `clear` empties the queue and returns to its start.
pub proof fn law_clear_empties(s: SessionView, line: Seq<char>, paused: bool)
    requires
        s.choices is None,
        parse_line(line) == Some(CommandView::Clear),
    ensures
        on_line(s, line, paused) matches Some(o) && o.0.queue.len() == 0 && o.0.current == 0
            && o.0.library == s.library && o.1 == seq![ActionView::Say(Note::QueueCleared)],
{
    lemma_words_mean_text(line);
}

/// A loaded playlist's lines become the queue, from its start: the first
/// line is played, and the lines are shown by trimmed file name.
pub proof fn law_loaded_playlist_plays_from_start(
    s: SessionView,
    name: Seq<char>,
    file: Seq<char>,
    text: Seq<char>,
)
    ensures
        ({
            let o = on_playlist_text(s, name, file, Some(text));
            let lines = split_on(text, '\n');
            &&& o.0.queue == lines
            &&& o.0.current == 0
            &&& o.1.last() == ActionView::Play(lines[0])
            &&& o.1[0] matches ActionView::Show(t, items, sel) && t == name && sel is None
                && items.len() == lines.len() && forall|i: int|
                0 <= i < lines.len() ==> #[trigger] items[i] == trim(basename(lines[i]))
        }),
{
}

proof fn lemma_widest_bounds(v: Seq<Seq<char>>)
    ensures
        forall|i: int| 0 <= i < v.len() ==> byte_len(#[trigger] v[i]) <= widest(v),
        v.len() == 0 ==> widest(v) == 0,
        v.len() > 0 ==> exists|i: int| 0 <= i < v.len() && widest(v) == byte_len(#[trigger] v[i]),
    decreases v.len(),
{
    if v.len() > 0 {
        let init = v.drop_last();
        lemma_widest_bounds(init);
        assert forall|i: int| 0 <= i < v.len() implies byte_len(#[trigger] v[i]) <= widest(v) by {
            if i < v.len() - 1 {
                assert(v[i] == init[i]);
            }
        }
        if byte_len(v.last()) > widest(init) {
            assert(widest(v) == byte_len(v[v.len() - 1]));
        } else if init.len() > 0 {
            let j = choose|j: int| 0 <= j < init.len() && widest(init) == byte_len(#[trigger] init[j]);
            assert(v[j] == init[j]);
        } else {
            assert(widest(v) == byte_len(v[0]));
        }
    }
}

/// The column of a frame is exactly as wide as the longest of its entries
/// and its title, in UTF-8 bytes: no entry and no title is longer, and one
/// of them has that length.
pub proof fn law_frame_fits_every_entry(data: Seq<Seq<char>>, title: Seq<char>)
    ensures
        forall|i: int| 0 <= i < data.len() ==> byte_len(#[trigger] data[i]) <= frame_width(data, title),
        byte_len(title) <= frame_width(data, title),
        frame_width(data, title) == byte_len(title) || exists|i: int|
            0 <= i < data.len() && frame_width(data, title) == byte_len(#[trigger] data[i]),
{
    let all = data.push(title);
    lemma_widest_bounds(all);
    assert forall|i: int| 0 <= i < data.len() implies byte_len(#[trigger] data[i]) <= frame_width(
        data,
        title,
    ) by {
        assert(all[i] == data[i]);
    }
    assert(all[data.len() as int] == title);
    let j = choose|j: int| 0 <= j < all.len() && widest(all) == byte_len(#[trigger] all[j]);
    if j < data.len() {
        assert(all[j] == data[j]);
    }
}

/// Exactly the selected row of a frame is marked (for rows and selections
/// below 2^31, which the row counter reaches).
pub proof fn law_frame_marks_selected_row(selected: Option<usize>, i: int)
    requires
        0 <= i < 0x8000_0000,
        selected matches Some(k) ==> k < 0x8000_0000,
    ensures
        row_mark(selected, i) == (if selected == Some(i as usize) {
            "|>"@
        } else {
            "  "@
        }),
{
    if selected is Some {
        let k = selected.unwrap();
        assert((k as i32) as int == k) by (bit_vector)
            requires
                k < 0x8000_0000,
        ;
    }
}

} // verus!
