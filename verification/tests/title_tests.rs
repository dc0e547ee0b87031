use dlrunner::title::extract_title_from_line;

#[test]
fn destination_with_bracket_tag_and_extension() {
    let r = extract_title_from_line("[download] Destination: /tmp/My Video [abc123].mp4");
    assert_eq!(r, Some("My Video".to_string()));
}

#[test]
fn destination_with_windows_path() {
    let r = extract_title_from_line("[download] Destination: C:\\videos\\Song Title.webm");
    assert_eq!(r, Some("Song Title".to_string()));
}

#[test]
fn info_line_without_destination_yields_none() {
    assert_eq!(extract_title_from_line("[info] something unrelated"), None);
}

#[test]
fn lines_without_marker_yield_none() {
    assert_eq!(extract_title_from_line(""), None);
    assert_eq!(extract_title_from_line("[download]  42.1% of 10MiB at 2MiB/s"), None);
    assert_eq!(extract_title_from_line("Destination:but no space"), None);
    assert_eq!(extract_title_from_line("destination: lower case"), None);
}

#[test]
fn no_directory_no_extension() {
    assert_eq!(
        extract_title_from_line("x Destination: plain"),
        Some("plain".to_string())
    );
}

#[test]
fn extension_only_is_stripped() {
    assert_eq!(
        extract_title_from_line("a Destination: /d/clip.mkv"),
        Some("clip".to_string())
    );
}

#[test]
fn only_last_bracket_group_is_stripped() {
    assert_eq!(
        extract_title_from_line("a Destination: /d/a [x] b [y123].mp4"),
        Some("a [x] b".to_string())
    );
}

#[test]
fn bracket_without_space_is_kept() {
    assert_eq!(
        extract_title_from_line("a Destination: /d/clip[id].mp4"),
        Some("clip[id]".to_string())
    );
}

#[test]
fn empty_bracket_group_is_kept() {
    assert_eq!(
        extract_title_from_line("a Destination: /d/clip [].mp4"),
        Some("clip []".to_string())
    );
}

#[test]
fn path_runs_to_end_of_line() {
    assert_eq!(
        extract_title_from_line("Destination: /a/one.mp4 Destination: /b/two.mp4"),
        Some("two".to_string())
    );
}

#[test]
fn empty_title_is_possible() {
    assert_eq!(
        extract_title_from_line("x Destination: /d/.hidden"),
        Some("".to_string())
    );
}

#[test]
fn mixed_separators_use_the_last() {
    assert_eq!(
        extract_title_from_line("x Destination: C:\\a/b\\c/name [q].webm"),
        Some("name".to_string())
    );
}

#[test]
fn non_ascii_title_survives() {
    assert_eq!(
        extract_title_from_line("[download] Destination: /tmp/日本語のタイトル [xyz].mp4"),
        Some("日本語のタイトル".to_string())
    );
}
