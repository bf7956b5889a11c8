//! Grouping of scanned files by fingerprint, and the filter that keeps the
//! groups of duplicates.

use crate::fingerprint::{fingerprint, sha256_hex};
use vstd::prelude::*;

verus! {

/// A file met during a scan: its path and the fingerprint of its content.
pub type FileRecord = (Seq<char>, Seq<char>);

/// A group as a value: a fingerprint and the paths that produced it, in the
/// order they were met.
pub type GroupModel = (Seq<char>, Seq<Seq<char>>);

/// The paths of the records whose fingerprint is `fp`, in the order of the records.
pub open spec fn paths_with(records: Seq<FileRecord>, fp: Seq<char>) -> Seq<Seq<char>>
    decreases records.len(),
{
    if records.len() == 0 {
        Seq::empty()
    } else {
        let earlier = paths_with(records.drop_last(), fp);
        if records.last().1 == fp {
            earlier.push(records.last().0)
        } else {
            earlier
        }
    }
}

/// The distinct fingerprints of the records, in the order of their first occurrence.
pub open spec fn first_seen(records: Seq<FileRecord>) -> Seq<Seq<char>>
    decreases records.len(),
{
    if records.len() == 0 {
        Seq::empty()
    } else {
        let earlier = first_seen(records.drop_last());
        if earlier.contains(records.last().1) {
            earlier
        } else {
            earlier.push(records.last().1)
        }
    }
}

/// One group per distinct fingerprint, in order of first occurrence, each
/// holding every path with that fingerprint in encounter order.
pub open spec fn grouped(records: Seq<FileRecord>) -> Seq<GroupModel> {
    first_seen(records).map_values(|fp: Seq<char>| (fp, paths_with(records, fp)))
}

/// Whether a group has two or more members.
pub open spec fn is_duplicate(g: GroupModel) -> bool {
    g.1.len() >= 2
}

/// The groups of `groups` with two or more members, in their order.
pub open spec fn keep_duplicates(groups: Seq<GroupModel>) -> Seq<GroupModel> {
    groups.filter(|g: GroupModel| is_duplicate(g))
}

/// The groups of `grouped(records)` with two or more members.
pub open spec fn duplicates(records: Seq<FileRecord>) -> Seq<GroupModel> {
    keep_duplicates(grouped(records))
}

/// A fingerprint with the paths of the files that produced it.
pub struct DuplicateGroup {
    pub fingerprint: String,
    pub paths: Vec<String>,
}

impl View for DuplicateGroup {
    type V = GroupModel;

    open spec fn view(&self) -> GroupModel {
        (self.fingerprint@, self.paths@.map_values(|p: String| p@))
    }
}

/// The values of a sequence of groups.
pub open spec fn models(groups: Seq<DuplicateGroup>) -> Seq<GroupModel> {
    groups.map_values(|g: DuplicateGroup| g@)
}

/// Facts on `first_seen`: it has no repeats, holds exactly the fingerprints
/// of the records, and a fingerprint outside it has no paths.
pub proof fn lemma_first_seen(records: Seq<FileRecord>)
    ensures
        first_seen(records).no_duplicates(),
        forall|fp: Seq<char>|
            #![trigger first_seen(records).contains(fp)]
            first_seen(records).contains(fp) <==> exists|i: int|
                0 <= i < records.len() && records[i].1 == fp,
        forall|fp: Seq<char>|
            #![trigger paths_with(records, fp)]
            !first_seen(records).contains(fp) ==> paths_with(records, fp) == Seq::<Seq<char>>::empty(),
    decreases records.len(),
{
    if records.len() > 0 {
        let earlier = records.drop_last();
        let last = records.last();
        let fs0 = first_seen(earlier);
        let fs = first_seen(records);
        lemma_first_seen(earlier);
        assert(forall|k: int| 0 <= k < fs0.len() ==> fs[k] == fs0[k]);
        assert forall|fp: Seq<char>| fs0.contains(fp) implies #[trigger] fs.contains(fp) by {
            let k = choose|k: int| 0 <= k < fs0.len() && fs0[k] == fp;
            assert(fs[k] == fp);
        }
        assert forall|fp: Seq<char>| #[trigger] fs.contains(fp) implies fs0.contains(fp) || fp == last.1 by {
            let k = choose|k: int| 0 <= k < fs.len() && fs[k] == fp;
            if k < fs0.len() {
                assert(fs0[k] == fp);
            }
        }
        assert(fs.contains(last.1)) by {
            if !fs0.contains(last.1) {
                assert(fs[fs.len() - 1] == last.1);
            }
        }
        assert forall|fp: Seq<char>|
            #![trigger first_seen(records).contains(fp)]
            first_seen(records).contains(fp) <==> exists|i: int|
                0 <= i < records.len() && records[i].1 == fp by {
            if first_seen(records).contains(fp) {
                if fs0.contains(fp) {
                    let i = choose|i: int| 0 <= i < earlier.len() && earlier[i].1 == fp;
                    assert(records[i] == earlier[i]);
                } else {
                    assert(records[records.len() - 1].1 == fp);
                }
            }
            if exists|i: int| 0 <= i < records.len() && records[i].1 == fp {
                let i = choose|i: int| 0 <= i < records.len() && records[i].1 == fp;
                if i < records.len() - 1 {
                    assert(earlier[i] == records[i]);
                    assert(fs0.contains(fp));
                }
            }
        }
        assert forall|fp: Seq<char>|
            !first_seen(records).contains(fp) implies #[trigger] paths_with(records, fp)
                == Seq::<Seq<char>>::empty() by {
            assert(!fs0.contains(fp));
            assert(paths_with(earlier, fp) == Seq::<Seq<char>>::empty());
        }
    }
}

/// Accumulates the files of a scan, one at a time, into groups keyed by fingerprint.
pub struct DuplicateFinder {
    groups: Vec<DuplicateGroup>,
    records: Ghost<Seq<FileRecord>>,
}

impl View for DuplicateFinder {
    type V = Seq<FileRecord>;

    /// The files added so far, in the order they were added.
    closed spec fn view(&self) -> Seq<FileRecord> {
        self.records@
    }
}

impl DuplicateFinder {
    /// The groups held are exactly `grouped` of the files added.
    pub closed spec fn wf(&self) -> bool {
        models(self.groups@) == grouped(self.records@)
    }

    /// A finder to which no file has been added.
    pub fn new() -> (r: DuplicateFinder)
        ensures
            r.wf(),
            r@ == Seq::<FileRecord>::empty(),
    {
        let r = DuplicateFinder { groups: Vec::new(), records: Ghost(Seq::empty()) };
        assert(models(r.groups@) =~= grouped(r.records@));
        r
    }

    /// Adds a file whose fingerprint is already known.
    pub fn add_fingerprint(&mut self, path: String, fingerprint: String)
        requires
            old(self).wf(),
        ensures
            final(self).wf(),
            final(self)@ == old(self)@.push((path@, fingerprint@)),
    {
        let ghost before = self.records@;
        let ghost after = before.push((path@, fingerprint@));
        proof {
            lemma_first_seen(before);
            assert(after.drop_last() =~= before);
        }
        let n = self.groups.len();
        let mut j: usize = 0;
        while j < n
            invariant
                n == self.groups.len(),
                j <= n,
                models(self.groups@) == grouped(before),
                forall|k: int| 0 <= k < j ==> self.groups@[k].fingerprint@ != fingerprint@,
            ensures
                j < n ==> self.groups@[j as int].fingerprint@ == fingerprint@,
            decreases n - j,
        {
            if self.groups[j].fingerprint == fingerprint {
                break;
            }
            j = j + 1;
        }
        let ghost old_groups = self.groups@;
        assert(models(old_groups).len() == n);
        assert(grouped(before).len() == first_seen(before).len());
        if j < n {
            assert(models(old_groups)[j as int] == grouped(before)[j as int]);
            self.groups[j].paths.push(path);
            proof {
                let fs = first_seen(before);
                assert(fs[j as int] == fingerprint@);
                assert(first_seen(after) == fs);
                assert forall|k: int| 0 <= k < fs.len() implies
                    #[trigger] models(self.groups@)[k] == grouped(after)[k] by {
                    assert(models(old_groups)[k] == grouped(before)[k]);
                    if k != j {
                        assert(self.groups@[k] == old_groups[k]);
                        assert(fs[k] != fs[j as int]);
                    } else {
                        assert(self.groups@[k].paths@.map_values(|p: String| p@) =~=
                            old_groups[k].paths@.map_values(|p: String| p@).push(path@));
                    }
                }
                assert(models(self.groups@) =~= grouped(after));
            }
        } else {
            let ghost fs = first_seen(before);
            proof {
                if fs.contains(fingerprint@) {
                    let k = choose|k: int| 0 <= k < fs.len() && fs[k] == fingerprint@;
                    assert(models(old_groups)[k] == grouped(before)[k]);
                }
                assert(first_seen(after) == fs.push(fingerprint@));
            }
            let mut paths: Vec<String> = Vec::new();
            paths.push(path);
            self.groups.push(DuplicateGroup { fingerprint, paths });
            proof {
                assert forall|k: int| 0 <= k < fs.len() + 1 implies
                    #[trigger] models(self.groups@)[k] == grouped(after)[k] by {
                    if k < fs.len() {
                        assert(models(old_groups)[k] == grouped(before)[k]);
                        assert(self.groups@[k] == old_groups[k]);
                    } else {
                        assert(paths_with(before, fs.push(fingerprint@)[k]) =~= Seq::<Seq<char>>::empty());
                        assert(self.groups@[k].paths@.map_values(|p: String| p@) =~= seq![path@]);
                    }
                }
                assert(models(self.groups@) =~= grouped(after));
            }
        }
        self.records = Ghost(after);
    }

    /// Adds a file given its path and its content.
    pub fn add_file(&mut self, path: String, content: &[u8])
        requires
            old(self).wf(),
        ensures
            final(self).wf(),
            final(self)@ == old(self)@.push((path@, sha256_hex(content@))),
    {
        let fp = fingerprint(content);
        self.add_fingerprint(path, fp);
    }

    /// The groups of duplicates among the files added: one per fingerprint
    /// shared by two or more of them.
    pub fn into_duplicates(self) -> (r: Vec<DuplicateGroup>)
        requires
            self.wf(),
        ensures
            models(r@) == duplicates(self@),
    {
        retain_duplicates(self.groups)
    }
}

/// Keeps the groups with two or more members, in their order.
pub fn retain_duplicates(groups: Vec<DuplicateGroup>) -> (r: Vec<DuplicateGroup>)
    ensures
        models(r@) == keep_duplicates(models(groups@)),
{
    let ghost all = models(groups@);
    let mut groups = groups;
    let mut kept: Vec<DuplicateGroup> = Vec::new();
    let n = groups.len();
    let mut i: usize = 0;
    while i < n
        invariant
            n == groups.len(),
            i <= n,
            all.len() == n,
            forall|k: int| i <= k < n ==> #[trigger] groups@[k]@ == all[k],
            models(kept@) == keep_duplicates(all.take(i as int)),
        decreases n - i,
    {
        let mut g = DuplicateGroup { fingerprint: String::new(), paths: Vec::new() };
        std::mem::swap(&mut g, &mut groups[i]);
        assert(g@ == all[i as int]);
        proof {
            reveal(Seq::filter);
            assert(all.take(i + 1).drop_last() =~= all.take(i as int));
            assert(all.take(i + 1).last() == all[i as int]);
            assert(g@.1.len() == g.paths@.len());
        }
        if g.paths.len() >= 2 {
            let ghost before = kept@;
            kept.push(g);
            assert(models(kept@) =~= models(before).push(all[i as int]));
        } else {
            assert(!is_duplicate(all[i as int]));
        }
        i = i + 1;
    }
    assert(all.take(n as int) =~= all);
    kept
}

} // verus!
