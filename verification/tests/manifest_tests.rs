use sniff::manifest::{album_from_text, from_album_source, str_eq, title_from_filename, Album};

fn album(title: &str, songs: &[(&str, &str)]) -> Album {
    Album {
        title: title.to_string(),
        songs: songs.iter().map(|(k, v)| (k.to_string(), v.to_string())).collect(),
    }
}

#[test]
fn parse_simple() {
    let entries = from_album_source("Intro=id1\nTrack2=id2\n");
    assert_eq!(
        entries,
        vec![("Intro".to_string(), "id1".to_string()), ("Track2".to_string(), "id2".to_string())]
    );
}

#[test]
fn parse_drops_lines_without_separator() {
    let entries = from_album_source("no separator here\nIntro=id1\nanother bad line\n");
    assert_eq!(entries, vec![("Intro".to_string(), "id1".to_string())]);
}

#[test]
fn parse_empty_text() {
    assert_eq!(from_album_source(""), vec![]);
}

#[test]
fn parse_without_trailing_newline() {
    let entries = from_album_source("Intro=id1\nTrack2=id2");
    assert_eq!(
        entries,
        vec![("Intro".to_string(), "id1".to_string()), ("Track2".to_string(), "id2".to_string())]
    );
}

#[test]
fn parse_splits_at_first_separator_only() {
    let entries = from_album_source("key=a=b\n");
    assert_eq!(entries, vec![("key".to_string(), "a=b".to_string())]);
}

#[test]
fn parse_preserves_whitespace() {
    let entries = from_album_source("  Intro = id1 \n");
    assert_eq!(entries, vec![("  Intro ".to_string(), " id1 ".to_string())]);
}

#[test]
fn parse_keeps_empty_key_and_value() {
    let entries = from_album_source("=\nk=\n=v\n");
    assert_eq!(
        entries,
        vec![
            ("".to_string(), "".to_string()),
            ("k".to_string(), "".to_string()),
            ("".to_string(), "v".to_string()),
        ]
    );
}

#[test]
fn render_simple() {
    let a = album("mix", &[("Intro", "id1"), ("Track2", "id2")]);
    assert_eq!(a.render(), "Intro=id1\nTrack2=id2\n");
}

#[test]
fn render_empty() {
    let a = album("mix", &[]);
    assert_eq!(a.render(), "");
}

#[test]
fn round_trip_parse_of_render() {
    let a = album("mix", &[("Intro", "id1"), ("Track2", "id2"), ("  odd key ", " v ")]);
    let parsed = from_album_source(&a.render());
    assert_eq!(parsed, a.songs);
}

#[test]
fn round_trip_with_separator_inside_value() {
    let a = album("mix", &[("key", "a=b")]);
    let parsed = from_album_source(&a.render());
    assert_eq!(parsed, a.songs);
}

#[test]
fn contains_finds_first_match() {
    let a = album("mix", &[("Intro", "id1"), ("Intro", "dead"), ("Track2", "id2")]);
    assert_eq!(a.contains("Intro"), Some("id1"));
    assert_eq!(a.contains("Track2"), Some("id2"));
    assert_eq!(a.contains("Outro"), None);
}

#[test]
fn same_ident_compares_titles() {
    let a = album("mix", &[]);
    let b = album("mix", &[("Intro", "id1")]);
    let c = album("other", &[]);
    assert!(a.same_ident(&b));
    assert!(!a.same_ident(&c));
}

#[test]
fn str_eq_on_slices() {
    assert!(str_eq("abc", "abc"));
    assert!(!str_eq("abc", "abd"));
    assert!(!str_eq("abc", "ab"));
    assert!(str_eq("", ""));
}

#[test]
fn title_from_filename_cuts_at_first_dot() {
    assert_eq!(title_from_filename("mix.album"), "mix");
    assert_eq!(title_from_filename("mix.tar.gz"), "mix");
    assert_eq!(title_from_filename("mix"), "mix");
    assert_eq!(title_from_filename(".album"), "");
}

#[test]
fn album_from_text_builds_manifest() {
    let a = album_from_text("mix".to_string(), "Intro=id1\n");
    assert_eq!(a.title, "mix");
    assert_eq!(a.songs, vec![("Intro".to_string(), "id1".to_string())]);
}
