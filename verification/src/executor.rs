//! The plan executor: the state machine that turns a plan into ordered
//! filesystem effects — deletions first, then fetches, then the one commit of
//! the new state record — while a failed fetch is noted and the run goes on.
//!
//! The executor itself performs no effect: it hands out the next action to
//! take, and is told what happened. The caller owns the filesystem and the
//! fetch collaborator.

use vstd::prelude::*;

use crate::manifest::{spec_render, Album, Entry};
use crate::reconcile::{spec_additions, spec_deletions, Plan};
use crate::strategy::Strategy;

verus! {

/// Derives the plan a strategy implies: a new folder takes every desired
/// record and deletes nothing; a rebuild takes the diff against the baseline.
pub fn make_plan(album: &Album, strategy: &Strategy) -> (plan: Plan)
    ensures
        match strategy {
            Strategy::New => plan@.additions == album@.songs && plan@.deletions == Seq::<
                Seq<char>,
            >::empty(),
            Strategy::Rebuild(baseline) => plan@.additions == spec_additions(
                album@.songs,
                baseline@.songs,
            ) && plan@.deletions == spec_deletions(album@.songs, baseline@.songs),
        },
{
    match strategy {
        Strategy::New => {
            let ghost sv = album@.songs;
            let mut additions: Vec<Entry> = Vec::new();
            let mut i: usize = 0;
            proof {
                assert(additions.deep_view() =~= sv.take(0));
            }
            while i < album.songs.len()
                invariant
                    i <= album.songs.len(),
                    sv == album@.songs,
                    sv.len() == album.songs.len(),
                    additions.deep_view() == sv.take(i as int),
                decreases album.songs.len() - i,
            {
                let ghost before = additions.deep_view();
                additions.push((album.songs[i].0.clone(), album.songs[i].1.clone()));
                proof {
                    assert(sv[i as int] == (album.songs@[i as int].0@, album.songs@[i as int].1@));
                    assert(additions.deep_view() =~= before.push(sv[i as int]));
                    assert(sv.take(i as int + 1) =~= before.push(sv[i as int]));
                }
                i += 1;
            }
            proof {
                assert(sv.take(sv.len() as int) =~= sv);
            }
            let deletions: Vec<String> = Vec::new();
            proof {
                assert(deletions.deep_view() =~= Seq::<Seq<char>>::empty());
            }
            Plan { additions, deletions }
        },
        Strategy::Rebuild(baseline) => album.diff(baseline),
    }
}

/// The next effect a run must perform.
pub enum Action {
    /// Remove the track file stored under `key`.
    Delete { key: String },
    /// Ask the fetch collaborator to materialize `ident` at the path derived
    /// from `key`.
    Fetch { key: String, ident: String },
    /// Overwrite the folder's state record with `text`, exactly once, after
    /// the whole plan was attempted.
    WriteRecord { text: String },
    /// The run is complete.
    Done,
}

/// The mathematical shape of a run: the plan, the record text fixed at the
/// start, the progress counters, and the keys whose fetch failed.
pub struct ExecutorView {
    pub additions: Seq<(Seq<char>, Seq<char>)>,
    pub deletions: Seq<Seq<char>>,
    pub record: Seq<char>,
    pub deleted: int,
    pub fetched: int,
    pub recorded: bool,
    pub failures: Seq<Seq<char>>,
}

/// One reconciliation run mid-flight: which plan items have been attempted,
/// which fetches failed, and whether the state record has been committed.
pub struct Executor {
    plan: Plan,
    record: String,
    deleted: usize,
    fetched: usize,
    recorded: bool,
    failures: Vec<String>,
}

impl View for Executor {
    type V = ExecutorView;

    closed spec fn view(&self) -> ExecutorView {
        ExecutorView {
            additions: self.plan@.additions,
            deletions: self.plan@.deletions,
            record: self.record@,
            deleted: self.deleted as int,
            fetched: self.fetched as int,
            recorded: self.recorded,
            failures: self.failures.deep_view(),
        }
    }
}

impl Executor {
    /// The run's standing invariant: progress stays within the plan, no fetch
    /// starts before the deletions are done, and the record is committed only
    /// after the whole plan was attempted.
    pub open spec fn wf(&self) -> bool {
        &&& 0 <= self@.deleted <= self@.deletions.len()
        &&& 0 <= self@.fetched <= self@.additions.len()
        &&& self@.fetched > 0 ==> self@.deleted == self@.deletions.len()
        &&& self@.recorded ==> self@.deleted == self@.deletions.len() && self@.fetched
            == self@.additions.len()
        &&& self@.failures.len() <= self@.fetched
    }

    /// Starts a run: derives the plan from the strategy and fixes the record
    /// text that the run will commit — the rendered desired manifest, whatever
    /// the fetches later report.
    pub fn new(album: &Album, strategy: &Strategy) -> (e: Executor)
        ensures
            e.wf(),
            match strategy {
                Strategy::New => e@.additions == album@.songs && e@.deletions == Seq::<
                    Seq<char>,
                >::empty(),
                Strategy::Rebuild(baseline) => e@.additions == spec_additions(
                    album@.songs,
                    baseline@.songs,
                ) && e@.deletions == spec_deletions(album@.songs, baseline@.songs),
            },
            e@.record == spec_render(album@.songs),
            e@.deleted == 0,
            e@.fetched == 0,
            !e@.recorded,
            e@.failures == Seq::<Seq<char>>::empty(),
    {
        let plan = make_plan(album, strategy);
        let record = album.render();
        let failures: Vec<String> = Vec::new();
        proof {
            assert(failures.deep_view() =~= Seq::<Seq<char>>::empty());
        }
        Executor { plan, record, deleted: 0, fetched: 0, recorded: false, failures }
    }

    /// What the run must do next: the deletions first, in plan order, then the
    /// fetches in plan order, then the one commit of the state record.
    pub fn next_action(&self) -> (action: Action)
        requires
            self.wf(),
        ensures
            match action {
                Action::Delete { key } => self@.deleted < self@.deletions.len() && key@
                    == self@.deletions[self@.deleted],
                Action::Fetch { key, ident } => self@.deleted == self@.deletions.len()
                    && self@.fetched < self@.additions.len() && key@
                    == self@.additions[self@.fetched].0 && ident@
                    == self@.additions[self@.fetched].1,
                Action::WriteRecord { text } => self@.deleted == self@.deletions.len()
                    && self@.fetched == self@.additions.len() && !self@.recorded && text@
                    == self@.record,
                Action::Done => self@.deleted == self@.deletions.len() && self@.fetched
                    == self@.additions.len() && self@.recorded,
            },
    {
        if self.deleted < self.plan.deletions.len() {
            proof {
                assert(self@.deletions[self@.deleted] == self.plan.deletions@[self.deleted as int]@);
            }
            Action::Delete { key: self.plan.deletions[self.deleted].clone() }
        } else if self.fetched < self.plan.additions.len() {
            proof {
                assert(self@.additions[self@.fetched] == (
                    self.plan.additions@[self.fetched as int].0@,
                    self.plan.additions@[self.fetched as int].1@,
                ));
            }
            Action::Fetch {
                key: self.plan.additions[self.fetched].0.clone(),
                ident: self.plan.additions[self.fetched].1.clone(),
            }
        } else if !self.recorded {
            Action::WriteRecord { text: self.record.clone() }
        } else {
            Action::Done
        }
    }

    /// Notes that the pending deletion was carried out (or that its target was
    /// already absent, which a caller may treat the same way).
    pub fn note_deleted(&mut self)
        requires
            old(self).wf(),
            old(self)@.deleted < old(self)@.deletions.len(),
        ensures
            final(self).wf(),
            final(self)@ == (ExecutorView { deleted: old(self)@.deleted + 1, ..old(self)@ }),
    {
        proof {
            broadcast use vstd::std_specs::vec::axiom_spec_len;

            assert(self.deleted < vstd::std_specs::vec::spec_vec_len(&self.plan.deletions));
        }
        self.deleted += 1;
    }

    /// Notes the fetch collaborator's verdict on the pending addition: a
    /// failure is kept, by key, and the run goes on — it is not retried and
    /// does not stop the remaining additions.
    pub fn note_fetched(&mut self, ok: bool)
        requires
            old(self).wf(),
            old(self)@.deleted == old(self)@.deletions.len(),
            old(self)@.fetched < old(self)@.additions.len(),
        ensures
            final(self).wf(),
            final(self)@.fetched == old(self)@.fetched + 1,
            final(self)@.failures == if ok {
                old(self)@.failures
            } else {
                old(self)@.failures.push(old(self)@.additions[old(self)@.fetched].0)
            },
            final(self)@.additions == old(self)@.additions,
            final(self)@.deletions == old(self)@.deletions,
            final(self)@.record == old(self)@.record,
            final(self)@.deleted == old(self)@.deleted,
            final(self)@.recorded == old(self)@.recorded,
    {
        if !ok {
            let ghost before = self.failures.deep_view();
            proof {
                assert(self@.additions[self@.fetched] == (
                    self.plan.additions@[self.fetched as int].0@,
                    self.plan.additions@[self.fetched as int].1@,
                ));
            }
            self.failures.push(self.plan.additions[self.fetched].0.clone());
            proof {
                assert(self.failures.deep_view() =~= before.push(
                    self.plan.additions@[self.fetched as int].0@,
                ));
            }
        }
        proof {
            broadcast use vstd::std_specs::vec::axiom_spec_len;

            assert(self.fetched < vstd::std_specs::vec::spec_vec_len(&self.plan.additions));
        }
        self.fetched += 1;
    }

    /// Notes that the state record was committed.
    pub fn note_recorded(&mut self)
        requires
            old(self).wf(),
            old(self)@.deleted == old(self)@.deletions.len(),
            old(self)@.fetched == old(self)@.additions.len(),
            !old(self)@.recorded,
        ensures
            final(self).wf(),
            final(self)@ == (ExecutorView { recorded: true, ..old(self)@ }),
    {
        self.recorded = true;
    }

    /// The keys whose fetch has failed so far, in plan order. After the run
    /// completes, these stand in the committed record like any other key, with
    /// no file behind them; the next run's diff picks them up again only if
    /// the record is corrected by hand, per the current degrade-on-failure
    /// policy.
    pub fn failures(&self) -> (keys: &Vec<String>)
        ensures
            keys.deep_view() == self@.failures,
    {
        &self.failures
    }
}

} // verus!
