use sniff::executor::{make_plan, Action, Executor};
use sniff::manifest::{album_from_text, Album};
use sniff::strategy::{resolve_strategy, Strategy};

fn album(title: &str, songs: &[(&str, &str)]) -> Album {
    Album {
        title: title.to_string(),
        songs: songs.iter().map(|(k, v)| (k.to_string(), v.to_string())).collect(),
    }
}

/// Drives a run to completion. `fails` names the keys whose fetch is to be
/// reported as failed. Returns (deletions performed, fetches attempted,
/// committed record text).
fn drive(ex: &mut Executor, fails: &[&str]) -> (Vec<String>, Vec<(String, String)>, String) {
    let mut deleted = Vec::new();
    let mut fetched = Vec::new();
    let mut record = None;
    loop {
        match ex.next_action() {
            Action::Delete { key } => {
                deleted.push(key);
                ex.note_deleted();
            }
            Action::Fetch { key, ident } => {
                let ok = !fails.contains(&key.as_str());
                fetched.push((key, ident));
                ex.note_fetched(ok);
            }
            Action::WriteRecord { text } => {
                record = Some(text);
                ex.note_recorded();
            }
            Action::Done => break,
        }
    }
    (deleted, fetched, record.expect("a run commits its record exactly once"))
}

#[test]
fn new_folder_plans_every_addition_and_no_deletion() {
    let desired = album("mix", &[("Intro", "id1"), ("Track2", "id2")]);
    let strategy = resolve_strategy(false, None);
    assert!(matches!(strategy, Strategy::New));
    let plan = make_plan(&desired, &strategy);
    assert_eq!(
        plan.additions,
        vec![("Intro".to_string(), "id1".to_string()), ("Track2".to_string(), "id2".to_string())]
    );
    assert!(plan.deletions.is_empty());
}

#[test]
fn run_deletes_before_fetching_and_commits_last() {
    let desired = album("mix", &[("Intro", "id1"), ("Track2", "id2"), ("Outro", "id3")]);
    let baseline = album("mix", &[("Intro", "id1"), ("Track2", "idOLD")]);
    let strategy = resolve_strategy(true, Some(baseline));
    let mut ex = Executor::new(&desired, &strategy);
    let (deleted, fetched, record) = drive(&mut ex, &[]);
    assert_eq!(deleted, vec!["Track2".to_string()]);
    assert_eq!(
        fetched,
        vec![("Track2".to_string(), "id2".to_string()), ("Outro".to_string(), "id3".to_string())]
    );
    assert_eq!(record, "Intro=id1\nTrack2=id2\nOutro=id3\n");
    assert!(ex.failures().is_empty());
}

#[test]
fn failed_fetch_is_noted_and_run_completes() {
    let desired = album("mix", &[("Intro", "id1"), ("Track2", "id2"), ("Outro", "id3")]);
    let strategy = resolve_strategy(false, None);
    let mut ex = Executor::new(&desired, &strategy);
    let (deleted, fetched, record) = drive(&mut ex, &["Track2"]);
    assert!(deleted.is_empty());
    // the failure does not stop the remaining additions
    assert_eq!(fetched.len(), 3);
    assert_eq!(ex.failures(), &vec!["Track2".to_string()]);
    // the failed key is committed to the record as if present
    assert_eq!(record, "Intro=id1\nTrack2=id2\nOutro=id3\n");
}

#[test]
fn replaying_against_the_committed_record_is_a_no_op() {
    let desired = album("mix", &[("Intro", "id1"), ("Track2", "id2")]);
    let first = resolve_strategy(false, None);
    let mut ex = Executor::new(&desired, &first);
    let (_, _, record) = drive(&mut ex, &[]);
    // the committed record is the next run's baseline
    let baseline = album_from_text("mix".to_string(), &record);
    let second = resolve_strategy(true, Some(baseline));
    let plan = make_plan(&desired, &second);
    assert!(plan.additions.is_empty());
    assert!(plan.deletions.is_empty());
}
