use musicman::actions::{Action, Note};
use musicman::playlist::{load_playlist, make_playlist, playlist_file_name, show_playlists};

fn strings(v: &[&str]) -> Vec<String> {
    v.iter().map(|x| x.to_string()).collect()
}

#[test]
fn saved_text_is_one_song_per_line() {
    let q = strings(&["/a/x.mp3", "/b/y.mp3"]);
    let (file, text) = make_playlist(&q, &"road trip".to_string());
    assert_eq!(file, "road trip.list");
    assert_eq!(text, "/a/x.mp3\n/b/y.mp3");
    assert_eq!(load_playlist(&text), q);
}

#[test]
fn loading_keeps_empty_lines() {
    assert_eq!(load_playlist("a\n\nb\n"), strings(&["a", "", "b", ""]));
    assert_eq!(load_playlist(""), strings(&[""]));
}

#[test]
fn file_name() {
    assert_eq!(playlist_file_name(&"mix".to_string()), "mix.list");
}

#[test]
fn listing_playlists() {
    assert_eq!(show_playlists(&Vec::new()), Action::Say(Note::NoPlaylists));
    assert_eq!(
        show_playlists(&strings(&["mix.list", "old.list.bak", "plain"])),
        Action::Show("Playlists".to_string(), strings(&["mix", "old", "plain"]), None)
    );
}
