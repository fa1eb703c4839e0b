//! The reconciler: the two-manifest diff that computes the plan — which
//! records to add and which keys to delete so that the folder named by the
//! desired manifest comes to match it.

use vstd::prelude::*;

use crate::manifest::{
    entries_wf, lemma_parse_render, spec_lookup, spec_parse, spec_render, str_eq, Album, Entry,
};

verus! {

/// The work one reconciliation run must do: records to add and keys to
/// delete. Computed from exactly two manifests, consumed by one run.
pub struct Plan {
    pub additions: Vec<Entry>,
    pub deletions: Vec<String>,
}

/// The mathematical shape of a plan.
pub struct PlanView {
    pub additions: Seq<(Seq<char>, Seq<char>)>,
    pub deletions: Seq<Seq<char>>,
}

impl View for Plan {
    type V = PlanView;

    open spec fn view(&self) -> PlanView {
        PlanView { additions: self.additions.deep_view(), deletions: self.deletions.deep_view() }
    }
}

/// The records of `desired` that `observed` does not already record: key
/// absent, or present under a different identifier. Order follows `desired`.
pub open spec fn spec_additions(
    desired: Seq<(Seq<char>, Seq<char>)>,
    observed: Seq<(Seq<char>, Seq<char>)>,
) -> Seq<(Seq<char>, Seq<char>)>
    decreases desired.len(),
{
    if desired.len() == 0 {
        Seq::empty()
    } else {
        let rest = spec_additions(desired.drop_first(), observed);
        if spec_lookup(observed, desired[0].0) == Some(desired[0].1) {
            rest
        } else {
            seq![desired[0]] + rest
        }
    }
}

/// The keys of `observed` whose record `desired` no longer carries: key gone,
/// or kept under a different identifier (a replacement: the key then also
/// stands in the additions). Order follows `observed`.
pub open spec fn spec_deletions(
    desired: Seq<(Seq<char>, Seq<char>)>,
    observed: Seq<(Seq<char>, Seq<char>)>,
) -> Seq<Seq<char>>
    decreases observed.len(),
{
    if observed.len() == 0 {
        Seq::empty()
    } else {
        let rest = spec_deletions(desired, observed.drop_first());
        if spec_lookup(desired, observed[0].0) == Some(observed[0].1) {
            rest
        } else {
            seq![observed[0].0] + rest
        }
    }
}

impl Album {
    /// Diffs this manifest (the desired state) against `oth` (the observed
    /// baseline): what to add in desired order, what to delete in observed
    /// order.
    pub fn diff(&self, oth: &Album) -> (plan: Plan)
        ensures
            plan@.additions == spec_additions(self@.songs, oth@.songs),
            plan@.deletions == spec_deletions(self@.songs, oth@.songs),
    {
        let ghost d = self@.songs;
        let ghost o = oth@.songs;
        let mut additions: Vec<Entry> = Vec::new();
        let mut deletions: Vec<String> = Vec::new();
        let mut i: usize = 0;
        proof {
            assert(d.skip(0) =~= d);
            assert(additions.deep_view() + spec_additions(d, o) =~= spec_additions(d, o));
        }
        while i < self.songs.len()
            invariant
                i <= self.songs.len(),
                d == self@.songs,
                o == oth@.songs,
                d.len() == self.songs.len(),
                spec_additions(d, o) == additions.deep_view() + spec_additions(
                    d.skip(i as int),
                    o,
                ),
            decreases self.songs.len() - i,
        {
            proof {
                assert(d.skip(i as int)[0] == d[i as int]);
                assert(d[i as int] == (self.songs@[i as int].0@, self.songs@[i as int].1@));
                assert(d.skip(i as int).drop_first() =~= d.skip(i as int + 1));
            }
            let hit = match oth.contains(self.songs[i].0.as_str()) {
                Some(v2) => str_eq(v2, self.songs[i].1.as_str()),
                None => false,
            };
            proof {
                assert(hit == (spec_lookup(o, d[i as int].0) == Some(d[i as int].1)));
            }
            if !hit {
                let ghost before = additions.deep_view();
                additions.push((self.songs[i].0.clone(), self.songs[i].1.clone()));
                proof {
                    assert(additions.deep_view() =~= before.push(d[i as int]));
                    assert(additions.deep_view() + spec_additions(d.skip(i as int + 1), o) =~= before
                        + spec_additions(d.skip(i as int), o));
                }
            }
            i += 1;
        }
        proof {
            assert(d.skip(d.len() as int) =~= Seq::<(Seq<char>, Seq<char>)>::empty());
            assert(additions.deep_view() + Seq::<(Seq<char>, Seq<char>)>::empty()
                =~= additions.deep_view());
        }
        let mut j: usize = 0;
        proof {
            assert(o.skip(0) =~= o);
            assert(deletions.deep_view() + spec_deletions(d, o) =~= spec_deletions(d, o));
        }
        while j < oth.songs.len()
            invariant
                j <= oth.songs.len(),
                d == self@.songs,
                o == oth@.songs,
                o.len() == oth.songs.len(),
                additions.deep_view() == spec_additions(d, o),
                spec_deletions(d, o) == deletions.deep_view() + spec_deletions(
                    d,
                    o.skip(j as int),
                ),
            decreases oth.songs.len() - j,
        {
            proof {
                assert(o.skip(j as int)[0] == o[j as int]);
                assert(o[j as int] == (oth.songs@[j as int].0@, oth.songs@[j as int].1@));
                assert(o.skip(j as int).drop_first() =~= o.skip(j as int + 1));
            }
            let hit = match self.contains(oth.songs[j].0.as_str()) {
                Some(v2) => str_eq(v2, oth.songs[j].1.as_str()),
                None => false,
            };
            proof {
                assert(hit == (spec_lookup(d, o[j as int].0) == Some(o[j as int].1)));
            }
            if !hit {
                let ghost before = deletions.deep_view();
                deletions.push(oth.songs[j].0.clone());
                proof {
                    assert(deletions.deep_view() =~= before.push(o[j as int].0));
                    assert(deletions.deep_view() + spec_deletions(d, o.skip(j as int + 1)) =~= before
                        + spec_deletions(d, o.skip(j as int)));
                }
            }
            j += 1;
        }
        proof {
            assert(o.skip(o.len() as int) =~= Seq::<(Seq<char>, Seq<char>)>::empty());
            assert(deletions.deep_view() + Seq::<Seq<char>>::empty() =~= deletions.deep_view());
        }
        Plan { additions, deletions }
    }
}

/// No two records share a key.
pub open spec fn keys_unique(s: Seq<(Seq<char>, Seq<char>)>) -> bool {
    forall|i: int, j: int| 0 <= i < j < s.len() ==> (#[trigger] s[i]).0 != (#[trigger] s[j]).0
}

/// Every record agrees with the manifest's own first-match lookup of its key:
/// duplicate keys, where present, all carry the same identifier.
pub open spec fn first_match_consistent(s: Seq<(Seq<char>, Seq<char>)>) -> bool {
    forall|i: int| 0 <= i < s.len() ==> spec_lookup(s, (#[trigger] s[i]).0) == Some(s[i].1)
}

/// Lookup of a key returns the identifier of its first record.
pub proof fn lemma_lookup_at(s: Seq<(Seq<char>, Seq<char>)>, i: int)
    requires
        0 <= i < s.len(),
        forall|j: int| 0 <= j < i ==> (#[trigger] s[j]).0 != s[i].0,
    ensures
        spec_lookup(s, s[i].0) == Some(s[i].1),
    decreases s.len(),
{
    if i == 0 {
    } else {
        assert(s[0].0 != s[i].0);
        assert forall|j: int| 0 <= j < i - 1 implies (#[trigger] s.drop_first()[j]).0 != s.drop_first()[
            i - 1
        ].0 by {
            assert(s.drop_first()[j] == s[j + 1]);
        }
        lemma_lookup_at(s.drop_first(), i - 1);
    }
}

/// Unique keys are a special case of first-match consistency.
pub proof fn lemma_unique_keys_consistent(s: Seq<(Seq<char>, Seq<char>)>)
    requires
        keys_unique(s),
    ensures
        first_match_consistent(s),
{
    assert forall|i: int| 0 <= i < s.len() implies spec_lookup(s, (#[trigger] s[i]).0) == Some(
        s[i].1,
    ) by {
        lemma_lookup_at(s, i);
    }
}

proof fn lemma_additions_empty(
    desired: Seq<(Seq<char>, Seq<char>)>,
    observed: Seq<(Seq<char>, Seq<char>)>,
)
    requires
        forall|i: int| 0 <= i < desired.len() ==> spec_lookup(observed, (#[trigger] desired[i]).0)
            == Some(desired[i].1),
    ensures
        spec_additions(desired, observed) == Seq::<(Seq<char>, Seq<char>)>::empty(),
    decreases desired.len(),
{
    if desired.len() != 0 {
        assert forall|i: int| 0 <= i < desired.drop_first().len() implies spec_lookup(
            observed,
            (#[trigger] desired.drop_first()[i]).0,
        ) == Some(desired.drop_first()[i].1) by {
            assert(desired.drop_first()[i] == desired[i + 1]);
        }
        lemma_additions_empty(desired.drop_first(), observed);
    }
}

proof fn lemma_deletions_empty(
    desired: Seq<(Seq<char>, Seq<char>)>,
    observed: Seq<(Seq<char>, Seq<char>)>,
)
    requires
        forall|i: int| 0 <= i < observed.len() ==> spec_lookup(desired, (#[trigger] observed[i]).0)
            == Some(observed[i].1),
    ensures
        spec_deletions(desired, observed) == Seq::<Seq<char>>::empty(),
    decreases observed.len(),
{
    if observed.len() != 0 {
        assert forall|i: int| 0 <= i < observed.drop_first().len() implies spec_lookup(
            desired,
            (#[trigger] observed.drop_first()[i]).0,
        ) == Some(observed.drop_first()[i].1) by {
            assert(observed.drop_first()[i] == observed[i + 1]);
        }
        lemma_deletions_empty(desired, observed.drop_first());
    }
}

/// Reflexivity: a manifest diffed against itself yields an empty plan. This
/// asks first-match consistency of the manifest: a pair of records that share
/// a key but disagree on the identifier would be both re-added and deleted.
pub proof fn lemma_diff_self_empty(s: Seq<(Seq<char>, Seq<char>)>)
    requires
        first_match_consistent(s),
    ensures
        spec_additions(s, s) == Seq::<(Seq<char>, Seq<char>)>::empty(),
        spec_deletions(s, s) == Seq::<Seq<char>>::empty(),
{
    lemma_additions_empty(s, s);
    lemma_deletions_empty(s, s);
}

/// Additions are sound: every planned addition is a record of `desired` whose
/// identifier `observed` does not record under that key (absent or changed).
pub proof fn lemma_additions_sound(
    desired: Seq<(Seq<char>, Seq<char>)>,
    observed: Seq<(Seq<char>, Seq<char>)>,
    i: int,
)
    requires
        0 <= i < spec_additions(desired, observed).len(),
    ensures
        desired.contains(spec_additions(desired, observed)[i]),
        spec_lookup(observed, spec_additions(desired, observed)[i].0) != Some(
            spec_additions(desired, observed)[i].1,
        ),
    decreases desired.len(),
{
    let a = spec_additions(desired, observed);
    let rest = spec_additions(desired.drop_first(), observed);
    if spec_lookup(observed, desired[0].0) == Some(desired[0].1) {
        lemma_additions_sound(desired.drop_first(), observed, i);
        let x = rest[i];
        let j = choose|j: int| 0 <= j < desired.drop_first().len() && desired.drop_first()[j] == x;
        assert(desired[j + 1] == x);
    } else {
        if i == 0 {
            assert(a[0] == desired[0]);
            assert(desired[0] == desired[0]);
        } else {
            lemma_additions_sound(desired.drop_first(), observed, i - 1);
            assert(a[i] == rest[i - 1]);
            let x = rest[i - 1];
            let j = choose|j: int|
                0 <= j < desired.drop_first().len() && desired.drop_first()[j] == x;
            assert(desired[j + 1] == x);
        }
    }
}

/// Deletions are sound: every planned deletion is the key of a record of
/// `observed` whose identifier `desired` does not record under that key.
pub proof fn lemma_deletions_sound(
    desired: Seq<(Seq<char>, Seq<char>)>,
    observed: Seq<(Seq<char>, Seq<char>)>,
    i: int,
)
    requires
        0 <= i < spec_deletions(desired, observed).len(),
    ensures
        exists|j: int|
            0 <= j < observed.len() && (#[trigger] observed[j]).0 == spec_deletions(
                desired,
                observed,
            )[i] && spec_lookup(desired, observed[j].0) != Some(observed[j].1),
    decreases observed.len(),
{
    let del = spec_deletions(desired, observed);
    let rest = spec_deletions(desired, observed.drop_first());
    if spec_lookup(desired, observed[0].0) == Some(observed[0].1) {
        lemma_deletions_sound(desired, observed.drop_first(), i);
        let j = choose|j: int|
            0 <= j < observed.drop_first().len() && (#[trigger] observed.drop_first()[j]).0
                == rest[i] && spec_lookup(desired, observed.drop_first()[j].0) != Some(
                observed.drop_first()[j].1,
            );
        assert(observed[j + 1] == observed.drop_first()[j]);
        assert(observed[j + 1].0 == del[i] && spec_lookup(desired, observed[j + 1].0) != Some(
            observed[j + 1].1,
        ));
    } else {
        if i == 0 {
            assert(del[0] == observed[0].0);
            assert(observed[0].0 == del[i] && spec_lookup(desired, observed[0].0) != Some(
                observed[0].1,
            ));
        } else {
            lemma_deletions_sound(desired, observed.drop_first(), i - 1);
            assert(del[i] == rest[i - 1]);
            let j = choose|j: int|
                0 <= j < observed.drop_first().len() && (#[trigger] observed.drop_first()[j]).0
                    == rest[i - 1] && spec_lookup(desired, observed.drop_first()[j].0) != Some(
                    observed.drop_first()[j].1,
                );
            assert(observed[j + 1] == observed.drop_first()[j]);
            assert(observed[j + 1].0 == del[i] && spec_lookup(desired, observed[j + 1].0) != Some(
                observed[j + 1].1,
            ));
        }
    }
}

/// Idempotent replay: after a run commits the rendered desired manifest as the
/// folder's record, re-parsing that record and diffing the same manifest
/// against it yields an empty plan.
pub proof fn lemma_replay_empty(desired: Seq<(Seq<char>, Seq<char>)>)
    requires
        entries_wf(desired),
        first_match_consistent(desired),
    ensures
        spec_additions(desired, spec_parse(spec_render(desired))) == Seq::<
            (Seq<char>, Seq<char>),
        >::empty(),
        spec_deletions(desired, spec_parse(spec_render(desired))) == Seq::<Seq<char>>::empty(),
{
    lemma_parse_render(desired);
    lemma_additions_empty(desired, desired);
    lemma_deletions_empty(desired, desired);
}

} // verus!
