use musicman::actions::{Action, Note};
use musicman::session::Session;

fn s(x: &str) -> String {
    x.to_string()
}

fn strings(v: &[&str]) -> Vec<String> {
    v.iter().map(|x| x.to_string()).collect()
}

fn player() -> Session {
    Session::new(strings(&[
        "/m/Beatles/Help.mp3",
        "/m/Beatles/Hey Jude.mp3",
        "/m/Queen/Bohemian.flac",
        "/m/Abba/Waterloo.ogg",
    ]))
}

fn say(n: Note) -> Action {
    Action::Say(n)
}

fn about(n: Note, x: &str) -> Action {
    Action::SayAbout(n, s(x))
}

#[test]
fn add_single_match_plays_it() {
    let mut p = player();
    let acts = p.step("add bohemian", false).unwrap();
    assert_eq!(
        acts,
        vec![about(Note::AddedToQueue, "/m/Queen/Bohemian.flac"), Action::Play(s("/m/Queen/Bohemian.flac"))]
    );
    assert_eq!(p.queue, strings(&["/m/Queen/Bohemian.flac"]));
    // a second song only joins the queue
    let acts = p.step("add wat", false).unwrap();
    assert_eq!(acts, vec![about(Note::AddedToQueue, "/m/Abba/Waterloo.ogg")]);
    assert_eq!(p.queue.len(), 2);
}

#[test]
fn add_words_are_joined_and_trimmed() {
    let mut p = player();
    let acts = p.step("add hey   jude", false).unwrap();
    assert_eq!(acts[0], about(Note::AddedToQueue, "/m/Beatles/Hey Jude.mp3"));
    let acts = p.step("add nothing here", false).unwrap();
    assert_eq!(acts, vec![about(Note::NoMatch, "nothing here")]);
}

#[test]
fn add_several_matches_then_choose() {
    let mut p = player();
    let acts = p.step("add he", false).unwrap();
    assert_eq!(acts, vec![Action::Choices(strings(&["Help.mp3", "Hey Jude.mp3"]))]);
    let acts = p.step("2", false).unwrap();
    assert_eq!(
        acts,
        vec![about(Note::AddingToQueue, "/m/Beatles/Hey Jude.mp3"), Action::Play(s("/m/Beatles/Hey Jude.mp3"))]
    );
    assert_eq!(p.queue, strings(&["/m/Beatles/Hey Jude.mp3"]));
    assert!(p.choices.is_none());
}

#[test]
fn choice_out_of_range_adds_nothing() {
    let mut p = player();
    p.step("add he", false).unwrap();
    assert_eq!(p.step("0", false).unwrap(), vec![say(Note::AddingNothing)]);
    p.step("add he", false).unwrap();
    assert_eq!(p.step("4", false).unwrap(), vec![say(Note::AddingNothing)]);
    p.step("add he", false).unwrap();
    assert_eq!(p.step("two", false).unwrap(), vec![say(Note::AddingNothing)]);
    // the choice is read from any line, even an empty one
    p.step("add he", false).unwrap();
    assert_eq!(p.step("", false).unwrap(), vec![say(Note::AddingNothing)]);
    assert!(p.queue.is_empty());
}

#[test]
fn choice_one_past_the_matches_cannot_be_handled() {
    let mut p = player();
    p.step("add he", false).unwrap();
    assert_eq!(p.step("3", false), None);
}

#[test]
fn empty_and_blank_lines() {
    let mut p = player();
    assert_eq!(p.step("", false), Some(vec![]));
    assert_eq!(p.step("  ", false), None);
}

#[test]
fn empty_search_term_cannot_be_handled() {
    let mut p = player();
    assert_eq!(p.step("add", false), None);
}

fn queued() -> Session {
    let mut p = player();
    p.step("add help", false).unwrap();
    p.step("add hey", false).unwrap();
    p.step("add boh", false).unwrap();
    p
}

#[test]
fn next_and_prev_wrap_around() {
    let mut p = queued();
    let acts = p.step("next", false).unwrap();
    assert_eq!(
        acts,
        vec![say(Note::PlayingNext), Action::Stop, Action::Play(s("/m/Beatles/Hey Jude.mp3"))]
    );
    assert_eq!(p.current, 1);
    assert!(p.interrupted);
    p.step("next 2", false).unwrap();
    assert_eq!(p.current, 0);
    p.step("prev", false).unwrap();
    assert_eq!(p.current, 2);
    p.step("prev 2", false).unwrap();
    assert_eq!(p.current, 0);
    p.step("next 7", false).unwrap();
    assert_eq!(p.current, 1);
}

#[test]
fn prev_wraps_more_than_once() {
    let mut p = queued();
    let acts = p.step("prev 5", false).unwrap();
    assert_eq!(acts, vec![say(Note::PlayingNext), Action::Stop, Action::Play(s("/m/Beatles/Hey Jude.mp3"))]);
    assert_eq!(p.current, 1);
    p.step("prev 4294967297", false).unwrap();
    assert_eq!(p.current, (1 + 3 - (4294967297usize % 3)) % 3);
    p.step("next 18446744073709551615", false).unwrap();
    assert_eq!(p.current, ((1 + 3 - 4294967297usize % 3) % 3 + usize::MAX % 3) % 3);
}

#[test]
fn bad_count_warns_and_stays() {
    let mut p = queued();
    let acts = p.step("next x", false).unwrap();
    assert_eq!(
        acts,
        vec![
            say(Note::BadNextCount),
            say(Note::PlayingNext),
            Action::Stop,
            Action::Play(s("/m/Beatles/Help.mp3")),
        ]
    );
    assert_eq!(p.current, 0);
    let acts = p.step("prev -1", false).unwrap();
    assert_eq!(acts[0], say(Note::BadPrevCount));
}

#[test]
fn empty_queue_answers() {
    let mut p = player();
    assert_eq!(p.step("next", false).unwrap(), vec![say(Note::NothingInQueue)]);
    assert_eq!(p.step("prev 3", false).unwrap(), vec![say(Note::NothingInQueue)]);
    assert_eq!(p.step("show", false).unwrap(), vec![say(Note::NothingInQueue)]);
    assert_eq!(p.step("replay", false).unwrap(), vec![say(Note::QueueEmpty)]);
    assert_eq!(p.step("track_ended", false).unwrap(), vec![]);
}

#[test]
fn track_end_after_skip_is_ignored() {
    let mut p = queued();
    p.step("next", false).unwrap();
    assert_eq!(p.step("track_ended", false).unwrap(), vec![]);
    assert_eq!(p.current, 1);
    assert!(!p.interrupted);
    let acts = p.step("track_ended", false).unwrap();
    assert_eq!(acts, vec![Action::Play(s("/m/Queen/Bohemian.flac"))]);
    assert_eq!(p.step("track_ended", false).unwrap(), vec![Action::Play(s("/m/Beatles/Help.mp3"))]);
    assert_eq!(p.current, 0);
}

#[test]
fn show_queue_and_current() {
    let mut p = queued();
    p.step("next", false).unwrap();
    assert_eq!(
        p.step("show", false).unwrap(),
        vec![Action::Show(s("Queue"), strings(&["Help.mp3", "Hey Jude.mp3", "Bohemian.flac"]), Some(1))]
    );
    assert_eq!(
        p.step("ls cp", false).unwrap(),
        vec![Action::Show(s("Current"), strings(&["Hey Jude.mp3"]), Some(0))]
    );
    assert_eq!(p.step("show current", false).unwrap()[0], Action::Show(s("Current"), strings(&["Hey Jude.mp3"]), Some(0)));
    assert_eq!(p.step("show all", false).unwrap(), vec![about(Note::ShowUnknown, "all")]);
    // with more than one argument the queue is shown
    assert_eq!(p.step("show a b", false).unwrap().len(), 1);
}

#[test]
fn clear_returns_to_the_start() {
    let mut p = queued();
    p.step("next", false).unwrap();
    assert_eq!(p.step("clear", false).unwrap(), vec![say(Note::QueueCleared)]);
    assert!(p.queue.is_empty());
    assert_eq!(p.current, 0);
    assert_eq!(
        p.step("add help", false).unwrap(),
        vec![about(Note::AddedToQueue, "/m/Beatles/Help.mp3"), Action::Play(s("/m/Beatles/Help.mp3"))]
    );
    assert_eq!(p.step("replay", false).unwrap()[0], Action::Replay(s("/m/Beatles/Help.mp3")));
}

#[test]
fn loading_a_playlist_returns_to_the_start() {
    let mut p = queued();
    p.step("prev", false).unwrap();
    assert_eq!(p.current, 2);
    p.apply_playlist(&s("two"), &s("two.list"), Some(s("/x/one\n/x/two")));
    assert_eq!(p.current, 0);
    assert_eq!(p.step("show cp", false).unwrap(), vec![Action::Show(s("Current"), strings(&["one"]), Some(0))]);
    p.step("next", false).unwrap();
    assert_eq!(p.current, 1);
    p.step("track_ended", false).unwrap();
    assert_eq!(p.step("track_ended", false).unwrap(), vec![Action::Play(s("/x/one"))]);
}

#[test]
fn replay_and_toggle() {
    let mut p = queued();
    assert_eq!(
        p.step("replay", false).unwrap(),
        vec![Action::Replay(s("/m/Beatles/Help.mp3")), say(Note::Replaying)]
    );
    assert_eq!(p.step("p", true).unwrap(), vec![Action::Resume, say(Note::Playing)]);
    assert_eq!(p.step("pause", false).unwrap(), vec![Action::Pause, say(Note::Paused)]);
    assert_eq!(p.step("play", false).unwrap(), vec![Action::Pause, say(Note::Paused)]);
}

#[test]
fn exit_and_unknown() {
    let mut p = player();
    assert_eq!(p.step("exit", false).unwrap(), vec![say(Note::Exiting), Action::Exit]);
    assert_eq!(p.step("dance now", false).unwrap(), vec![about(Note::UnknownCommand, "dance")]);
    assert_eq!(p.step("ADD x", false).unwrap(), vec![about(Note::UnknownCommand, "ADD")]);
}

#[test]
fn playlist_commands() {
    let mut p = player();
    assert_eq!(p.step("playlist", false).unwrap(), vec![say(Note::PlaylistUsage)]);
    assert_eq!(p.step("pl ls", false).unwrap(), vec![Action::ShowPlaylists]);
    assert_eq!(p.step("pl show", false).unwrap(), vec![Action::ShowPlaylists]);
    assert_eq!(p.step("pl rm x", false).unwrap(), vec![about(Note::PlaylistUnknown, "rm")]);
    // saving an empty queue does nothing
    assert_eq!(p.step("pl new mix", false).unwrap(), vec![]);
    assert_eq!(p.step("pl new", false).unwrap(), vec![]);
    assert_eq!(p.step("pl load", false), None);
    assert_eq!(
        p.step("playlist load mix", false).unwrap(),
        vec![about(Note::PlayingFromPlaylist, "mix"), Action::LoadPlaylist(s("mix"), s("mix.list"))]
    );
}

#[test]
fn playlist_new_saves_the_queue() {
    let mut p = queued();
    assert_eq!(
        p.step("pl new mix extra", false).unwrap(),
        vec![Action::SavePlaylist(
            s("mix.list"),
            s("/m/Beatles/Help.mp3\n/m/Beatles/Hey Jude.mp3\n/m/Queen/Bohemian.flac")
        )]
    );
    assert_eq!(p.step("pl new", false), None);
}

#[test]
fn saved_playlist_loads_back() {
    let mut p = queued();
    let saved = match p.step("pl new mix", false).unwrap().remove(0) {
        Action::SavePlaylist(_, text) => text,
        other => panic!("unexpected {:?}", other),
    };
    let before = p.queue.clone();
    let mut q = player();
    let acts = q.apply_playlist(&s("mix"), &s("mix.list"), Some(saved));
    assert_eq!(q.queue, before);
    assert!(q.interrupted);
    assert_eq!(
        acts,
        vec![
            Action::Show(s("mix"), strings(&["Help.mp3", "Hey Jude.mp3", "Bohemian.flac"]), None),
            Action::Stop,
            Action::Play(s("/m/Beatles/Help.mp3")),
        ]
    );
}

#[test]
fn missing_or_empty_playlist() {
    let mut p = queued();
    let acts = p.apply_playlist(&s("gone"), &s("gone.list"), None);
    assert_eq!(acts, vec![about(Note::NoSuchPlaylist, "gone.list")]);
    assert_eq!(p.queue.len(), 3);
    let acts = p.apply_playlist(&s("empty"), &s("empty.list"), Some(String::new()));
    assert_eq!(p.queue, strings(&[""]));
    assert_eq!(acts[2], Action::Play(String::new()));
    // shown names are trimmed
    let acts = p.apply_playlist(&s("w"), &s("w.list"), Some(s("/a/ x \r\n/b/y")));
    assert_eq!(acts[0], Action::Show(s("w"), strings(&["x", "y"]), None));
    assert_eq!(p.queue, strings(&["/a/ x \r", "/b/y"]));
}
