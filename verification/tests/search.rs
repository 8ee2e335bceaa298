use musicman::search::{narrowing_holds, search, select_matches, try_search};

fn strings(v: &[&str]) -> Vec<String> {
    v.iter().map(|s| s.to_string()).collect()
}

fn library() -> Vec<String> {
    strings(&[
        "/home/u/Music/Beatles/Help.mp3",
        "/home/u/Music/Beatles/Hey Jude.mp3",
        "/home/u/Music/Queen/Bohemian.flac",
        "/home/u/Music/he",
    ])
}

#[test]
fn exact_path_is_the_only_result() {
    let lib = library();
    let t = "/home/u/Music/Queen/Bohemian.flac".to_string();
    assert_eq!(search(&lib, &t), strings(&["/home/u/Music/Queen/Bohemian.flac"]));
    assert_eq!(try_search(&lib, &t), Some(strings(&["/home/u/Music/Queen/Bohemian.flac"])));
}

#[test]
fn prefix_of_lowercased_file_name_matches_in_order() {
    let lib = library();
    // "he" itself is not longer than the term, so it is not a match
    assert_eq!(
        search(&lib, &"he".to_string()),
        strings(&["/home/u/Music/Beatles/Help.mp3", "/home/u/Music/Beatles/Hey Jude.mp3"])
    );
    assert_eq!(search(&lib, &"hey".to_string()), strings(&["/home/u/Music/Beatles/Hey Jude.mp3"]));
    assert_eq!(search(&lib, &"boh".to_string()), strings(&["/home/u/Music/Queen/Bohemian.flac"]));
}

#[test]
fn term_is_not_lowercased() {
    let lib = library();
    assert_eq!(search(&lib, &"He".to_string()), Vec::<String>::new());
}

#[test]
fn no_match_gives_nothing() {
    let lib = library();
    assert_eq!(search(&lib, &"zz".to_string()), Vec::<String>::new());
    assert_eq!(try_search(&Vec::new(), &"x".to_string()), Some(Vec::new()));
    // the folder names do not count
    assert_eq!(search(&lib, &"queen".to_string()), Vec::<String>::new());
}

#[test]
fn empty_term_cannot_be_searched() {
    assert_eq!(try_search(&library(), &String::new()), None);
    // unless it is one of the paths
    assert_eq!(try_search(&strings(&["", "a"]), &String::new()), Some(strings(&[""])));
}

#[test]
fn non_ascii_names_and_terms() {
    let lib = strings(&["/m/ÉTÉ.mp3", "/m/eau.mp3"]);
    // the term is compared one byte at a time, so "é" is cut in two
    assert_eq!(try_search(&lib, &"été".to_string()), None);
    // upper-case letters outside ASCII are lowered too
    assert_eq!(try_search(&strings(&["/m/AbÉ"]), &"ab".to_string()), Some(strings(&["/m/AbÉ"])));
    // comparing the first byte cuts "é" in two
    assert_eq!(try_search(&lib, &"x".to_string()), None);
    assert_eq!(try_search(&strings(&["/m/abc"]), &"é".to_string()), None);
    // a key cut inside a character only matters while it is still a candidate
    assert_eq!(try_search(&strings(&["/m/aé", "/m/bc"]), &"b".to_string()), Some(strings(&["/m/bc"])));
    assert_eq!(try_search(&strings(&["/m/aéx"]), &"ab".to_string()), None);
}

#[test]
fn narrowing_on_given_keys() {
    let keys = strings(&["abc", "ébc"]);
    assert!(!narrowing_holds(&keys, "a"));
    assert!(narrowing_holds(&strings(&["abc", "xyz"]), "ab"));
    assert!(!narrowing_holds(&strings(&["abc"]), ""));
    // the narrowing stops once nothing is left, so later cuts are never made
    assert!(narrowing_holds(&strings(&["zé"]), "aé"));
}

#[test]
fn selection_on_given_keys() {
    let names = strings(&["one", "two", "three"]);
    let keys = strings(&["abx", "ab", "abc"]);
    assert_eq!(select_matches(&names, &keys, "ab"), strings(&["one", "three"]));
    assert_eq!(select_matches(&names, &keys, "abc"), Vec::<String>::new());
}
