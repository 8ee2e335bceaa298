use musicman::playlist::{load_playlist, make_playlist};
use musicman::search::search;
use musicman::session::Session;

fn strings(v: &[&str]) -> Vec<String> {
    v.iter().map(|x| x.to_string()).collect()
}

#[test]
fn round_trip_of_a_queue() {
    let q = strings(&["/a/1", "", "/b/ü 2"]);
    let (_, text) = make_playlist(&q, &"n".to_string());
    assert_eq!(load_playlist(&text), q);
}

#[test]
fn prev_undoes_next() {
    let lib = strings(&["/m/a1", "/m/a2", "/m/a3", "/m/a4", "/m/a5"]);
    let mut p = Session::new(lib.clone());
    for x in &lib {
        p.step(&format!("add {}", x), false).unwrap();
    }
    for start in 0..5 {
        for n in 0..5 {
            p.current = start;
            p.step(&format!("next {}", n), false).unwrap();
            p.step(&format!("prev {}", n), false).unwrap();
            assert_eq!(p.current, start);
        }
    }
}

#[test]
fn exact_path_wins_over_prefix() {
    let lib = strings(&["/m/abc", "/m/abcd"]);
    let mut p = Session::new(lib);
    assert_eq!(p.step("add /m/abc", false).unwrap().len(), 2);
    assert_eq!(p.queue, strings(&["/m/abc"]));
}

#[test]
fn longer_term_finds_fewer() {
    let lib = strings(&["/m/abc", "/m/abd", "/m/xyz", "/m/ab"]);
    let short = search(&lib, &"a".to_string());
    let long = search(&lib, &"abc".to_string());
    assert_eq!(short, strings(&["/m/abc", "/m/abd", "/m/ab"]));
    assert!(long.iter().all(|x| short.contains(x)));
    assert!(long.is_empty());
    assert_eq!(search(&lib, &"ab".to_string()), strings(&["/m/abc", "/m/abd"]));
}

#[test]
fn queue_grows_only_by_library_songs() {
    let lib = strings(&["/m/abc", "/m/abd"]);
    let mut p = Session::new(lib.clone());
    for line in ["add ab", "1", "add abd", "next", "show", "clear", "add zz", "add ab", "2"] {
        let before = p.queue.clone();
        p.step(line, false).unwrap();
        assert!(
            p.queue == before
                || p.queue.is_empty()
                || (p.queue.len() == before.len() + 1 && lib.contains(p.queue.last().unwrap()))
        );
        assert_eq!(p.library, lib);
    }
}

#[test]
fn saving_a_loaded_playlist_keeps_its_text() {
    for text in ["", "\n", "a\n\nb", "x\r\ny\n", "only"] {
        let q = load_playlist(text);
        let (_, again) = make_playlist(&q, &"n".to_string());
        assert_eq!(again, text);
    }
}

#[test]
fn search_of_joined_lists_joins_the_results() {
    let a = strings(&["/m/abc", "/m/x", "/m/abd"]);
    let b = strings(&["/n/aba", "/n/ab"]);
    let both: Vec<String> = a.iter().chain(b.iter()).cloned().collect();
    let t = "ab".to_string();
    let mut expected = search(&a, &t);
    expected.extend(search(&b, &t));
    assert_eq!(search(&both, &t), expected);
    assert_eq!(expected, strings(&["/m/abc", "/m/abd", "/n/aba"]));
}

#[test]
fn longer_term_keeps_order_of_shorter() {
    let lib = strings(&["/m/abz", "/m/aq", "/m/abc", "/m/b"]);
    let short = search(&lib, &"a".to_string());
    let long = search(&lib, &"ab".to_string());
    let kept: Vec<String> = short.iter().filter(|x| long.contains(x)).cloned().collect();
    assert_eq!(long, kept);
    assert_eq!(long, strings(&["/m/abz", "/m/abc"]));
}

#[test]
fn every_command_keeps_the_position_in_the_queue() {
    let lib = strings(&["/m/a1", "/m/a2", "/m/a3"]);
    let mut p = Session::new(lib);
    for line in ["add a1", "add a2", "add a3", "prev 7", "next 11", "clear", "add a2", "track_ended", "prev", "next 0"] {
        p.step(line, false).unwrap();
        assert!((p.queue.is_empty() && p.current == 0) || p.current < p.queue.len());
    }
}

#[test]
fn saved_playlist_is_listed_under_its_name() {
    let q = strings(&["/a/1"]);
    let (file, _) = make_playlist(&q, &"road trip".to_string());
    let shown = musicman::playlist::show_playlists(&vec![file]);
    assert_eq!(
        shown,
        musicman::actions::Action::Show("Playlists".to_string(), strings(&["road trip"]), None)
    );
}

#[test]
fn ascii_search_always_goes_through() {
    let lib = strings(&["/m/Abc", "/m/aBd", "/m/x y", "/m/ab"]);
    for t in ["a", "ab", "AB", "x", "x y", "/m/ab", "zzz"] {
        let found = musicman::search::try_search(&lib, &t.to_string()).unwrap();
        let expected: Vec<String> = if lib.iter().any(|n| n == t) {
            vec![t.to_string()]
        } else {
            lib.iter()
                .filter(|n| {
                    let k = n.split('/').last().unwrap().to_ascii_lowercase();
                    k.len() > t.len() && k.starts_with(t)
                })
                .cloned()
                .collect()
        };
        assert_eq!(found, expected);
    }
}
