use sniff::manifest::Album;
use sniff::strategy::{resolve_strategy, Strategy};

fn album(title: &str, songs: &[(&str, &str)]) -> Album {
    Album {
        title: title.to_string(),
        songs: songs.iter().map(|(k, v)| (k.to_string(), v.to_string())).collect(),
    }
}

#[test]
fn diff_of_identical_manifests_is_empty() {
    let a = album("mix", &[("Intro", "id1"), ("Track2", "id2")]);
    let b = album("mix", &[("Intro", "id1"), ("Track2", "id2")]);
    let plan = a.diff(&b);
    assert!(plan.additions.is_empty());
    assert!(plan.deletions.is_empty());
}

#[test]
fn diff_ignores_order_of_unchanged_entries() {
    let a = album("mix", &[("Intro", "id1"), ("Track2", "id2")]);
    let b = album("mix", &[("Track2", "id2"), ("Intro", "id1")]);
    let plan = a.diff(&b);
    assert!(plan.additions.is_empty());
    assert!(plan.deletions.is_empty());
}

#[test]
fn changed_value_is_deleted_and_re_added() {
    let desired = album("mix", &[("Intro", "id1"), ("Track2", "id2"), ("Outro", "id3")]);
    let baseline = album("mix", &[("Intro", "id1"), ("Track2", "idOLD")]);
    let plan = desired.diff(&baseline);
    assert_eq!(
        plan.additions,
        vec![("Track2".to_string(), "id2".to_string()), ("Outro".to_string(), "id3".to_string())]
    );
    assert_eq!(plan.deletions, vec!["Track2".to_string()]);
}

#[test]
fn emptied_manifest_deletes_everything() {
    let desired = album("mix", &[]);
    let baseline = album("mix", &[("Solo", "idX")]);
    let plan = desired.diff(&baseline);
    assert!(plan.additions.is_empty());
    assert_eq!(plan.deletions, vec!["Solo".to_string()]);
}

#[test]
fn additions_and_deletions_follow_source_order() {
    let desired = album("mix", &[("a", "1"), ("b", "2"), ("c", "3")]);
    let baseline = album("mix", &[("z", "9"), ("b", "old"), ("y", "8")]);
    let plan = desired.diff(&baseline);
    assert_eq!(
        plan.additions,
        vec![
            ("a".to_string(), "1".to_string()),
            ("b".to_string(), "2".to_string()),
            ("c".to_string(), "3".to_string()),
        ]
    );
    assert_eq!(plan.deletions, vec!["z".to_string(), "b".to_string(), "y".to_string()]);
}

#[test]
fn conflicting_duplicate_keys_are_churned() {
    // Lookup is first-match: the second record under a shared key is dead for
    // lookup, so diffing such a manifest against itself re-adds and deletes it.
    let a = album("mix", &[("Intro", "id1"), ("Intro", "id2")]);
    let b = album("mix", &[("Intro", "id1"), ("Intro", "id2")]);
    let plan = a.diff(&b);
    assert_eq!(plan.additions, vec![("Intro".to_string(), "id2".to_string())]);
    assert_eq!(plan.deletions, vec!["Intro".to_string()]);
}

#[test]
fn agreeing_duplicate_keys_are_kept() {
    let a = album("mix", &[("Intro", "id1"), ("Intro", "id1")]);
    let b = album("mix", &[("Intro", "id1"), ("Intro", "id1")]);
    let plan = a.diff(&b);
    assert!(plan.additions.is_empty());
    assert!(plan.deletions.is_empty());
}

#[test]
fn resolve_strategy_without_folder_is_new() {
    let strategy = resolve_strategy(false, None);
    assert!(matches!(strategy, Strategy::New));
}

#[test]
fn resolve_strategy_with_unreadable_record_is_new() {
    let strategy = resolve_strategy(true, None);
    assert!(matches!(strategy, Strategy::New));
}

#[test]
fn resolve_strategy_with_prior_record_rebuilds() {
    let baseline = album("mix", &[("Intro", "id1")]);
    let strategy = resolve_strategy(true, Some(baseline));
    match strategy {
        Strategy::Rebuild(b) => {
            assert_eq!(b.title, "mix");
            assert_eq!(b.songs, vec![("Intro".to_string(), "id1".to_string())]);
        }
        Strategy::New => panic!("expected a rebuild against the prior record"),
    }
}
