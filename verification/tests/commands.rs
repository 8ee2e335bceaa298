use musicman::commands::{parse_command, Command, PlaylistCommand};

fn s(x: &str) -> String {
    x.to_string()
}

#[test]
fn reading_commands() {
    assert_eq!(parse_command(""), None);
    assert_eq!(parse_command(" \t"), None);
    assert_eq!(parse_command("add  a   b "), Some(Command::Add(s("a b"))));
    assert_eq!(parse_command("add"), Some(Command::Add(s(""))));
    assert_eq!(parse_command("clear"), Some(Command::Clear));
    assert_eq!(parse_command("exit now"), Some(Command::Exit));
    assert_eq!(parse_command("next"), Some(Command::Next(Some(1))));
    assert_eq!(parse_command("next 4 9"), Some(Command::Next(Some(4))));
    assert_eq!(parse_command("next four"), Some(Command::Next(None)));
    assert_eq!(parse_command("prev +2"), Some(Command::Prev(Some(2))));
    assert_eq!(parse_command("p"), Some(Command::P));
    assert_eq!(parse_command("play"), Some(Command::P));
    assert_eq!(parse_command("pause"), Some(Command::P));
    assert_eq!(parse_command("replay"), Some(Command::Replay));
    assert_eq!(parse_command("show"), Some(Command::Show(None)));
    assert_eq!(parse_command("ls cp"), Some(Command::Show(Some(s("cp")))));
    assert_eq!(parse_command("ls cp x"), Some(Command::Show(None)));
    assert_eq!(parse_command("track_ended"), Some(Command::TrackEnded));
    assert_eq!(parse_command("Add x"), Some(Command::Unknown(s("Add"))));
}

#[test]
fn reading_playlist_commands() {
    assert_eq!(parse_command("pl"), Some(Command::Playlist(PlaylistCommand::Insufficient)));
    assert_eq!(parse_command("playlist new a b"), Some(Command::Playlist(PlaylistCommand::New(Some(s("a"))))));
    assert_eq!(parse_command("pl new"), Some(Command::Playlist(PlaylistCommand::New(None))));
    assert_eq!(parse_command("pl load x"), Some(Command::Playlist(PlaylistCommand::Load(Some(s("x"))))));
    assert_eq!(parse_command("pl load"), Some(Command::Playlist(PlaylistCommand::Load(None))));
    assert_eq!(parse_command("pl ls"), Some(Command::Playlist(PlaylistCommand::Show)));
    assert_eq!(parse_command("pl show"), Some(Command::Playlist(PlaylistCommand::Show)));
    assert_eq!(parse_command("pl drop"), Some(Command::Playlist(PlaylistCommand::Unknown(s("drop")))));
}
