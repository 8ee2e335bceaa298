use musicman::frame::pretty_print;

fn strings(v: &[&str]) -> Vec<String> {
    v.iter().map(|x| x.to_string()).collect()
}

#[test]
fn frame_of_queue() {
    let f = pretty_print(&strings(&["ab", "c"]), &"Queue".to_string(), Some(1));
    assert_eq!(f.top, format!("╭Queue{}╮", "─".repeat(6)));
    assert_eq!(f.rows.len(), 2);
    assert_eq!(f.rows[0].mark, "  ");
    assert_eq!(f.rows[0].text, "ab   ");
    assert_eq!(f.rows[1].mark, "|>");
    assert_eq!(f.rows[1].text, "c    ");
    assert_eq!(f.bottom, format!("╰{}╯", "─".repeat(11)));
}

#[test]
fn frame_width_follows_longest_entry() {
    let f = pretty_print(&strings(&["a longer entry"]), &"T".to_string(), None);
    assert_eq!(f.top, format!("╭T{}╮", "─".repeat(19)));
    assert_eq!(f.rows[0].mark, "  ");
    assert_eq!(f.rows[0].text, "a longer entry");
    assert_eq!(f.bottom, format!("╰{}╯", "─".repeat(20)));
}

#[test]
fn frame_counts_bytes_but_pads_characters() {
    // "é" is two bytes: the column is 2 wide but "é" takes one character
    let f = pretty_print(&strings(&["é"]), &"".to_string(), Some(0));
    assert_eq!(f.rows[0].text, "é ");
    assert_eq!(f.rows[0].mark, "|>");
    assert_eq!(f.top, format!("╭{}╮", "─".repeat(8)));
}

#[test]
fn frame_matches_format_padding() {
    let data = strings(&["x", "yy"]);
    let f = pretty_print(&data, &"Title".to_string(), None);
    assert_eq!(f.top, format!("╭{:─<len$}╮", "Title", len = 11));
    assert_eq!(f.rows[1].text, format!("{:<5}", "yy"));
}
