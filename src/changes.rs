//! Detecting which groups of the roster changed between two snapshots.
use vstd::prelude::*;

use crate::snapshot::{find_group, group_digest, snapshot_digest, Id, Snapshot, SnapshotView};
use crate::text::string_views;

verus! {

/// Whether group `name` differs between two snapshots: present in one only,
/// or present in both with different identities.
pub open spec fn group_changed(prev: SnapshotView, new: SnapshotView, name: Seq<char>) -> bool {
    match (find_group(prev.groups, name), find_group(new.groups, name)) {
        (None, None) => false,
        (Some(i), Some(j)) => group_digest(prev.groups[i].lectures) != group_digest(
            new.groups[j].lectures,
        ),
        _ => true,
    }
}

/// The roster names whose groups changed, in roster order.
pub open spec fn changed_in(roster: Seq<Seq<char>>, prev: SnapshotView, new: SnapshotView) -> Seq<
    Seq<char>,
>
    decreases roster.len(),
{
    if roster.len() == 0 {
        roster
    } else if group_changed(prev, new, roster.last()) {
        changed_in(roster.drop_last(), prev, new).push(roster.last())
    } else {
        changed_in(roster.drop_last(), prev, new)
    }
}

/// The groups to report after a poll: none when the new snapshot is missing
/// or has the identity of the previous one, every roster name on the first
/// observation, else the roster names whose groups changed.
pub open spec fn changes_between(
    prev: Option<SnapshotView>,
    new: Option<SnapshotView>,
    roster: Seq<Seq<char>>,
) -> Seq<Seq<char>> {
    match (prev, new) {
        (Some(p), Some(n)) => if snapshot_digest(p.groups) == snapshot_digest(n.groups) {
            Seq::empty()
        } else {
            changed_in(roster, p, n)
        },
        (None, Some(_)) => roster,
        _ => Seq::empty(),
    }
}

pub open spec fn snapshot_opt_view(s: Option<&Snapshot>) -> Option<SnapshotView> {
    match s {
        Some(x) => Some(x@),
        None => None,
    }
}

fn group_changed_exec(prev: &Snapshot, new: &Snapshot, name: &str) -> (r: bool)
    requires
        prev.wf(),
        new.wf(),
    ensures
        r == group_changed(prev@, new@, name@),
{
    match (prev.group(name), new.group(name)) {
        (None, None) => false,
        (Some(a), Some(b)) => a.id() != b.id(),
        _ => true,
    }
}

fn copy_names(roster: &[String]) -> (r: Vec<String>)
    ensures
        string_views(r@) == string_views(roster@),
{
    let mut out: Vec<String> = Vec::new();
    let mut i: usize = 0;
    while i < roster.len()
        invariant
            i <= roster.len(),
            string_views(out@) == string_views(roster@).take(i as int),
        decreases roster.len() - i,
    {
        let ghost before = string_views(out@);
        let c = roster[i].clone();
        assert(c@ == roster@[i as int]@);
        out.push(c);
        assert(string_views(out@) =~= before.push(roster@[i as int]@));
        i = i + 1;
        assert(string_views(out@) =~= string_views(roster@).take(i as int));
    }
    assert(string_views(roster@).take(i as int) =~= string_views(roster@));
    out
}

/// The roster groups that changed from `prev` to `new`.
pub fn changes(prev: Option<&Snapshot>, new: Option<&Snapshot>, roster: &[String]) -> (r: Vec<
    String,
>)
    requires
        prev matches Some(p) ==> p.wf(),
        new matches Some(n) ==> n.wf(),
    ensures
        string_views(r@) == changes_between(
            snapshot_opt_view(prev),
            snapshot_opt_view(new),
            string_views(roster@),
        ),
{
    match (prev, new) {
        (Some(p), Some(n)) => {
            if p.id() == n.id() {
                let r: Vec<String> = Vec::new();
                assert(string_views(r@) =~= Seq::<Seq<char>>::empty());
                return r;
            }
            let ghost ro = string_views(roster@);
            let mut out: Vec<String> = Vec::new();
            let mut i: usize = 0;
            assert(ro.take(0) =~= Seq::<Seq<char>>::empty());
            assert(string_views(out@) =~= changed_in(ro.take(0), p@, n@));
            while i < roster.len()
                invariant
                    i <= roster.len(),
                    ro == string_views(roster@),
                    p.wf(),
                    n.wf(),
                    string_views(out@) == changed_in(ro.take(i as int), p@, n@),
                decreases roster.len() - i,
            {
                assert(ro.take(i + 1).drop_last() =~= ro.take(i as int));
                assert(ro.take(i + 1).last() == roster@[i as int]@);
                if group_changed_exec(p, n, roster[i].as_str()) {
                    let ghost before = string_views(out@);
                    out.push(roster[i].clone());
                    assert(string_views(out@) =~= before.push(roster@[i as int]@));
                }
                i = i + 1;
            }
            assert(ro.take(i as int) =~= ro);
            out
        },
        (None, Some(_)) => copy_names(roster),
        _ => {
            let r: Vec<String> = Vec::new();
            assert(string_views(r@) =~= Seq::<Seq<char>>::empty());
            r
        },
    }
}

/// Change detection between an earlier and a later observation.
pub trait SnapshotChanges: Sized {
    /// Whether the observation can be compared.
    spec fn comparable(&self) -> bool;

    /// The roster names reported when going from `self` to `rhs`.
    spec fn spec_changes(&self, rhs: Self, roster: Seq<Seq<char>>) -> Seq<Seq<char>>;

    fn changes(&self, rhs: Self, roster: &[String]) -> (r: Vec<String>)
        requires
            self.comparable(),
            rhs.comparable(),
        ensures
            string_views(r@) == self.spec_changes(rhs, string_views(roster@)),
    ;
}

impl<'a> SnapshotChanges for Option<&'a Snapshot> {
    open spec fn comparable(&self) -> bool {
        match *self {
            Some(s) => s.wf(),
            None => true,
        }
    }

    open spec fn spec_changes(&self, rhs: Self, roster: Seq<Seq<char>>) -> Seq<Seq<char>> {
        changes_between(snapshot_opt_view(*self), snapshot_opt_view(rhs), roster)
    }

    fn changes(&self, rhs: Self, roster: &[String]) -> (r: Vec<String>) {
        changes(*self, rhs, roster)
    }
}

/// Comparing a snapshot with itself reports nothing; the first observation
/// reports the whole roster; a missing new snapshot (a failed fetch) reports
/// nothing.
pub proof fn lemma_change_rules(s: SnapshotView, prev: Option<SnapshotView>, roster: Seq<Seq<char>>)
    ensures
        changes_between(Some(s), Some(s), roster) == Seq::<Seq<char>>::empty(),
        changes_between(None, Some(s), roster) == roster,
        changes_between(prev, None, roster) == Seq::<Seq<char>>::empty(),
{
}

/// A roster name is reported exactly when its group changed; in particular a
/// group present in both snapshots with the same lectures is never reported.
pub proof fn lemma_changed_in_exact(roster: Seq<Seq<char>>, prev: SnapshotView, new: SnapshotView, name: Seq<char>)
    ensures
        changed_in(roster, prev, new).contains(name) <==> roster.contains(name) && group_changed(
            prev,
            new,
            name,
        ),
        (find_group(prev.groups, name) matches Some(i) && find_group(new.groups, name) matches Some(j)
            && prev.groups[i].lectures == new.groups[j].lectures) ==> !changed_in(roster, prev, new).contains(name),
    decreases roster.len(),
{
    if roster.len() > 0 {
        let d = roster.drop_last();
        lemma_changed_in_exact(d, prev, new, name);
        let c = changed_in(roster, prev, new);
        let cd = changed_in(d, prev, new);
        if group_changed(prev, new, roster.last()) {
            assert(c == cd.push(roster.last()));
            if c.contains(name) && name != roster.last() {
                let k = choose|k: int| 0 <= k < c.len() && c[k] == name;
                assert(cd[k] == name);
            }
            if cd.contains(name) {
                let k = choose|k: int| 0 <= k < cd.len() && cd[k] == name;
                assert(c[k] == name);
            }
            assert(c[c.len() - 1] == roster.last());
        }
        if roster.contains(name) && name != roster.last() {
            let k = choose|k: int| 0 <= k < roster.len() && roster[k] == name;
            assert(d[k] == name);
        }
        if d.contains(name) {
            let k = choose|k: int| 0 <= k < d.len() && d[k] == name;
            assert(roster[k] == name);
        }
        assert(roster[roster.len() - 1] == roster.last());
    }
}

} // verus!
