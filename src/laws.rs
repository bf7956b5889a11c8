//! What holds of the groups of duplicates found among scanned files.

use crate::fingerprint::sha256_hex;
use crate::report::report_text;
use crate::grouping::{
    duplicates, first_seen, grouped, is_duplicate, keep_duplicates, paths_with, FileRecord,
    GroupModel,
};
use vstd::prelude::*;

verus! {

/// How `paths_with` reflects the records: which paths it lists, and when it
/// has at least one or at least two of them.
proof fn lemma_paths_with(records: Seq<FileRecord>, fp: Seq<char>)
    ensures
        forall|p: Seq<char>|
            #[trigger] paths_with(records, fp).contains(p) <==> exists|i: int|
                0 <= i < records.len() && records[i] == (p, fp),
        paths_with(records, fp).len() >= 1 <==> exists|i: int|
            0 <= i < records.len() && records[i].1 == fp,
        paths_with(records, fp).len() >= 2 <==> exists|i: int, j: int|
            0 <= i < records.len() && 0 <= j < records.len() && i != j && records[i].1 == fp
                && records[j].1 == fp,
    decreases records.len(),
{
    if records.len() > 0 {
        let e = records.drop_last();
        let n = records.len();
        lemma_paths_with(e, fp);
        let pe = paths_with(e, fp);
        let pr = paths_with(records, fp);
        assert(forall|i: int| 0 <= i < e.len() ==> records[i] == e[i]);
        assert forall|p: Seq<char>|
            #[trigger] pr.contains(p) <==> exists|i: int|
                0 <= i < records.len() && records[i] == (p, fp) by {
            if pr.contains(p) {
                let k = choose|k: int| 0 <= k < pr.len() && pr[k] == p;
                if k < pe.len() {
                    assert(pe[k] == p);
                    assert(pe.contains(p));
                    let i = choose|i: int| 0 <= i < e.len() && e[i] == (p, fp);
                    assert(records[i] == (p, fp));
                } else {
                    assert(records[n - 1] == (p, fp));
                }
            }
            if exists|i: int| 0 <= i < records.len() && records[i] == (p, fp) {
                let i = choose|i: int| 0 <= i < records.len() && records[i] == (p, fp);
                if i < n - 1 {
                    assert(e[i] == (p, fp));
                    assert(pe.contains(p));
                    let k = choose|k: int| 0 <= k < pe.len() && pe[k] == p;
                    assert(pr[k] == p);
                } else {
                    assert(pr[pr.len() - 1] == p);
                }
            }
        }
        if exists|i: int| 0 <= i < records.len() && records[i].1 == fp {
            let i = choose|i: int| 0 <= i < records.len() && records[i].1 == fp;
            if i < n - 1 {
                assert(e[i].1 == fp);
            }
        }
        if pr.len() >= 1 && records[n - 1].1 != fp {
            let i = choose|i: int| 0 <= i < e.len() && e[i].1 == fp;
            assert(records[i].1 == fp);
        }
        if pr.len() >= 2 {
            if records[n - 1].1 != fp {
                let (i, j) = choose|i: int, j: int|
                    0 <= i < e.len() && 0 <= j < e.len() && i != j && e[i].1 == fp && e[j].1 == fp;
                assert(records[i].1 == fp && records[j].1 == fp);
            } else {
                let i = choose|i: int| 0 <= i < e.len() && e[i].1 == fp;
                assert(records[i].1 == fp && records[n - 1].1 == fp);
            }
        }
        if exists|i: int, j: int|
            0 <= i < records.len() && 0 <= j < records.len() && i != j && records[i].1 == fp
                && records[j].1 == fp {
            let (i, j) = choose|i: int, j: int|
                0 <= i < records.len() && 0 <= j < records.len() && i != j && records[i].1 == fp
                    && records[j].1 == fp;
            if i < n - 1 && j < n - 1 {
                assert(e[i].1 == fp && e[j].1 == fp);
            } else if i < n - 1 {
                assert(e[i].1 == fp);
            } else {
                assert(e[j].1 == fp);
            }
        }
    }
}

/// The groups kept by `keep_duplicates` are those of its argument with two
/// or more members.
proof fn lemma_keep_duplicates(groups: Seq<GroupModel>)
    ensures
        forall|g: GroupModel|
            #[trigger] keep_duplicates(groups).contains(g) <==> groups.contains(g) && is_duplicate(g),
        groups.no_duplicates() ==> keep_duplicates(groups).no_duplicates(),
    decreases groups.len(),
{
    reveal(Seq::filter);
    if groups.len() > 0 {
        let e = groups.drop_last();
        lemma_keep_duplicates(e);
        let ke = keep_duplicates(e);
        let kg = keep_duplicates(groups);
        assert forall|g: GroupModel|
            #[trigger] kg.contains(g) <==> groups.contains(g) && is_duplicate(g) by {
            if kg.contains(g) {
                let k = choose|k: int| 0 <= k < kg.len() && kg[k] == g;
                if k < ke.len() {
                    assert(ke[k] == g);
                    assert(ke.contains(g));
                    let i = choose|i: int| 0 <= i < e.len() && e[i] == g;
                    assert(groups[i] == g);
                } else {
                    assert(groups[groups.len() - 1] == g);
                }
            }
            if groups.contains(g) && is_duplicate(g) {
                let i = choose|i: int| 0 <= i < groups.len() && groups[i] == g;
                if i < groups.len() - 1 {
                    assert(e[i] == g);
                    assert(ke.contains(g));
                    let k = choose|k: int| 0 <= k < ke.len() && ke[k] == g;
                    assert(kg[k] == g);
                } else {
                    assert(kg[kg.len() - 1] == g);
                }
            }
        }
        if groups.no_duplicates() {
            assert(e.no_duplicates());
            let x = groups.last();
            if is_duplicate(x) {
                assert(!e.contains(x));
                assert(!ke.contains(x));
                assert(kg =~= ke.push(x));
                assert forall|i: int, j: int| 0 <= i < j < kg.len() implies kg[i] != kg[j] by {
                    if j == kg.len() - 1 {
                        assert(ke[i] == kg[i]);
                    } else {
                        assert(ke[i] == kg[i] && ke[j] == kg[j]);
                    }
                }
            }
        }
    }
}

/// The groups of duplicates, as the members of the result.
proof fn lemma_duplicates_contain(records: Seq<FileRecord>)
    ensures
        forall|g: GroupModel|
            #[trigger] duplicates(records).contains(g) <==> g.1 == paths_with(records, g.0)
                && g.1.len() >= 2,
{
    let fs = first_seen(records);
    crate::grouping::lemma_first_seen(records);
    lemma_keep_duplicates(grouped(records));
    assert forall|g: GroupModel|
        #[trigger] duplicates(records).contains(g) <==> g.1 == paths_with(records, g.0)
            && g.1.len() >= 2 by {
        if grouped(records).contains(g) {
            let k = choose|k: int| 0 <= k < grouped(records).len() && grouped(records)[k] == g;
            assert(g == (fs[k], paths_with(records, fs[k])));
        }
        if g.1 == paths_with(records, g.0) && g.1.len() >= 2 {
            assert(fs.contains(g.0));
            let k = choose|k: int| 0 <= k < fs.len() && fs[k] == g.0;
            assert(grouped(records)[k] == g);
        }
    }
}

/// The records of files given by path and content, in the same order.
pub open spec fn scanned(files: Seq<(Seq<char>, Seq<u8>)>) -> Seq<FileRecord> {
    files.map_values(|f: (Seq<char>, Seq<u8>)| (f.0, sha256_hex(f.1)))
}

/// Whether `groups` holds a group with fingerprint `fp` that lists `path`.
pub open spec fn listed(groups: Seq<GroupModel>, path: Seq<char>, fp: Seq<char>) -> bool {
    exists|k: int| 0 <= k < groups.len() && groups[k].0 == fp && #[trigger] groups[k].1.contains(path)
}

/// Whether `path` was met with fingerprint `fp` and another record has `fp` too.
pub open spec fn shares_fingerprint(records: Seq<FileRecord>, path: Seq<char>, fp: Seq<char>) -> bool {
    exists|i: int, j: int|
        0 <= i < records.len() && 0 <= j < records.len() && i != j && #[trigger] records[i] == (
        path,
        fp,
        ) && #[trigger] records[j].1 == fp
}

/// Whether no two files carry the same path.
pub open spec fn distinct_paths(files: Seq<(Seq<char>, Seq<u8>)>) -> bool {
    forall|i: int, j: int|
        0 <= i < files.len() && 0 <= j < files.len() && i != j ==> files[i].0 != files[j].0
}

/// Every group found lists exactly the paths met with its fingerprint, in
/// encounter order, and has at least two of them; no two groups share a
/// fingerprint.
pub proof fn law_groups_are_exact(records: Seq<FileRecord>)
    ensures
        forall|k: int|
            0 <= k < duplicates(records).len() ==> #[trigger] duplicates(records)[k].1
                == paths_with(records, duplicates(records)[k].0) && duplicates(
                records,
            )[k].1.len() >= 2,
        forall|k: int, l: int|
            0 <= k < l < duplicates(records).len() ==> #[trigger] duplicates(records)[k].0
                != #[trigger] duplicates(records)[l].0,
{
    lemma_duplicates_contain(records);
    crate::grouping::lemma_first_seen(records);
    let fs = first_seen(records);
    let gs = grouped(records);
    assert forall|i: int, j: int| 0 <= i < j < gs.len() implies gs[i] != gs[j] by {
        assert(fs[i] != fs[j]);
    }
    lemma_keep_duplicates(gs);
    let d = duplicates(records);
    assert forall|k: int| 0 <= k < d.len() implies #[trigger] d[k].1 == paths_with(
        records,
        d[k].0,
    ) && d[k].1.len() >= 2 by {
        assert(d.contains(d[k]));
    }
    assert forall|k: int, l: int| 0 <= k < l < d.len() implies #[trigger] d[k].0
        != #[trigger] d[l].0 by {
        assert(d.contains(d[k]) && d.contains(d[l]));
    }
}

/// A path is listed under a fingerprint exactly when it was met with that
/// fingerprint and at least one other file was met with it too.
pub proof fn law_listed_iff_shared(records: Seq<FileRecord>, path: Seq<char>, fp: Seq<char>)
    ensures
        listed(duplicates(records), path, fp) <==> shares_fingerprint(records, path, fp),
{
    lemma_duplicates_contain(records);
    lemma_paths_with(records, fp);
    let d = duplicates(records);
    let ps = paths_with(records, fp);
    if listed(d, path, fp) {
        let k = choose|k: int| 0 <= k < d.len() && d[k].0 == fp && #[trigger] d[k].1.contains(path);
        assert(d.contains(d[k]));
        assert(ps.contains(path));
        let m = choose|m: int| 0 <= m < records.len() && records[m] == (path, fp);
        let (i, j) = choose|i: int, j: int|
            0 <= i < records.len() && 0 <= j < records.len() && i != j && records[i].1 == fp
                && records[j].1 == fp;
        if i != m {
            assert(records[m] == (path, fp) && records[i].1 == fp);
        } else {
            assert(records[m] == (path, fp) && records[j].1 == fp);
        }
    }
    if shares_fingerprint(records, path, fp) {
        let (i, j) = choose|i: int, j: int|
            0 <= i < records.len() && 0 <= j < records.len() && i != j && #[trigger] records[i] == (
            path,
            fp,
            ) && #[trigger] records[j].1 == fp;
        assert(records[i].1 == fp);
        assert(ps.contains(path));
        assert(d.contains((fp, ps)));
        let k = choose|k: int| 0 <= k < d.len() && d[k] == (fp, ps);
        assert(d[k].1.contains(path));
    }
}

/// Two files with the same content are listed in the same group.
pub proof fn law_same_content_same_group(files: Seq<(Seq<char>, Seq<u8>)>, i: int, j: int)
    requires
        0 <= i < files.len(),
        0 <= j < files.len(),
        i != j,
        files[i].1 == files[j].1,
    ensures
        exists|k: int|
            0 <= k < duplicates(scanned(files)).len() && #[trigger] duplicates(
                scanned(files),
            )[k].1.contains(files[i].0) && duplicates(scanned(files))[k].1.contains(files[j].0),
{
    let records = scanned(files);
    let fp = sha256_hex(files[i].1);
    let d = duplicates(records);
    assert(records[i] == (files[i].0, fp) && records[j].1 == fp);
    assert(shares_fingerprint(records, files[i].0, fp));
    law_listed_iff_shared(records, files[i].0, fp);
    law_groups_are_exact(records);
    lemma_paths_with(records, fp);
    let k = choose|k: int| 0 <= k < d.len() && d[k].0 == fp && #[trigger] d[k].1.contains(files[i].0);
    assert(records[j] == (files[j].0, fp));
    assert(paths_with(records, fp).contains(files[j].0));
    assert(d[k].1.contains(files[i].0) && d[k].1.contains(files[j].0));
}

/// Two files whose fingerprints differ are never listed in the same group.
pub proof fn law_different_fingerprints_apart(files: Seq<(Seq<char>, Seq<u8>)>, i: int, j: int)
    requires
        distinct_paths(files),
        0 <= i < files.len(),
        0 <= j < files.len(),
        sha256_hex(files[i].1) != sha256_hex(files[j].1),
    ensures
        forall|k: int|
            0 <= k < duplicates(scanned(files)).len() ==> !(#[trigger] duplicates(
                scanned(files),
            )[k].1.contains(files[i].0) && duplicates(scanned(files))[k].1.contains(files[j].0)),
{
    let records = scanned(files);
    let d = duplicates(records);
    law_groups_are_exact(records);
    assert forall|k: int| 0 <= k < d.len() implies !(#[trigger] d[k].1.contains(files[i].0)
        && d[k].1.contains(files[j].0)) by {
        lemma_paths_with(records, d[k].0);
        if d[k].1.contains(files[i].0) && d[k].1.contains(files[j].0) {
            let m = choose|m: int| 0 <= m < records.len() && records[m] == (files[i].0, d[k].0);
            let l = choose|l: int| 0 <= l < records.len() && records[l] == (files[j].0, d[k].0);
            assert(records[m].0 == files[m].0 && records[l].0 == files[l].0);
            assert(m == i && l == j);
        }
    }
}

/// A file whose fingerprint no other file has is listed in no group.
pub proof fn law_unique_content_absent(files: Seq<(Seq<char>, Seq<u8>)>, i: int)
    requires
        distinct_paths(files),
        0 <= i < files.len(),
        forall|j: int|
            0 <= j < files.len() && j != i ==> sha256_hex(#[trigger] files[j].1) != sha256_hex(
                files[i].1,
            ),
    ensures
        forall|k: int|
            0 <= k < duplicates(scanned(files)).len() ==> !(#[trigger] duplicates(
                scanned(files),
            )[k].1.contains(files[i].0)),
{
    let records = scanned(files);
    let d = duplicates(records);
    law_groups_are_exact(records);
    assert forall|k: int| 0 <= k < d.len() implies !(#[trigger] d[k].1.contains(files[i].0)) by {
        lemma_paths_with(records, d[k].0);
        if d[k].1.contains(files[i].0) {
            let m = choose|m: int| 0 <= m < records.len() && records[m] == (files[i].0, d[k].0);
            assert(records[m].0 == files[m].0);
            assert(m == i);
            let (a, b) = choose|a: int, b: int|
                0 <= a < records.len() && 0 <= b < records.len() && a != b && records[a].1
                    == d[k].0 && records[b].1 == d[k].0;
            assert(records[a].1 == sha256_hex(files[a].1));
            assert(records[b].1 == sha256_hex(files[b].1));
            if a != i {
                assert(sha256_hex(files[a].1) != sha256_hex(files[i].1));
            } else {
                assert(sha256_hex(files[b].1) != sha256_hex(files[i].1));
            }
        }
    }
}

/// A scan of no files finds no groups, and its report is the message that
/// no duplicates were found.
pub proof fn law_empty_scan()
    ensures
        duplicates(Seq::<FileRecord>::empty()) == Seq::<GroupModel>::empty(),
        report_text(duplicates(Seq::<FileRecord>::empty())) == "No duplicates found.\n"@,
{
    reveal(Seq::filter);
    assert(grouped(Seq::<FileRecord>::empty()) =~= Seq::<GroupModel>::empty());
}

/// Whether `b` holds the records of `a` reordered: `b[k]` is `a[perm[k]]`,
/// and `perm` is a one-to-one map of the indices onto themselves.
pub open spec fn is_reordering(a: Seq<FileRecord>, b: Seq<FileRecord>, perm: Seq<int>) -> bool {
    &&& a.len() == b.len()
    &&& perm.len() == b.len()
    &&& forall|k: int| 0 <= k < b.len() ==> 0 <= #[trigger] perm[k] < a.len() && b[k] == a[perm[k]]
    &&& forall|k: int, l: int| 0 <= k < l < b.len() ==> #[trigger] perm[k] != #[trigger] perm[l]
    &&& forall|i: int| 0 <= i < a.len() ==> #[trigger] perm.contains(i)
}

/// Which paths are listed under which fingerprint does not depend on the
/// order in which the files were met.
pub proof fn law_order_free(a: Seq<FileRecord>, b: Seq<FileRecord>, perm: Seq<int>)
    requires
        is_reordering(a, b, perm),
    ensures
        forall|path: Seq<char>, fp: Seq<char>|
            #[trigger] listed(duplicates(a), path, fp) <==> #[trigger] listed(duplicates(b), path, fp),
{
    assert forall|path: Seq<char>, fp: Seq<char>|
        #[trigger] listed(duplicates(a), path, fp) <==> #[trigger] listed(duplicates(b), path, fp) by {
        law_listed_iff_shared(a, path, fp);
        law_listed_iff_shared(b, path, fp);
        if shares_fingerprint(b, path, fp) {
            let (i, j) = choose|i: int, j: int|
                0 <= i < b.len() && 0 <= j < b.len() && i != j && #[trigger] b[i] == (path, fp)
                    && #[trigger] b[j].1 == fp;
            assert(perm[i] != perm[j]);
            assert(a[perm[i]] == (path, fp) && a[perm[j]].1 == fp);
        }
        if shares_fingerprint(a, path, fp) {
            let (i, j) = choose|i: int, j: int|
                0 <= i < a.len() && 0 <= j < a.len() && i != j && #[trigger] a[i] == (path, fp)
                    && #[trigger] a[j].1 == fp;
            assert(perm.contains(i) && perm.contains(j));
            let ki = choose|k: int| 0 <= k < perm.len() && perm[k] == i;
            let kj = choose|k: int| 0 <= k < perm.len() && perm[k] == j;
            assert(b[ki] == (path, fp) && b[kj].1 == fp);
        }
    }
}

} // verus!
