//! The skip filter: which catalog entries still need fetching.
//!
//! A work item is enqueued exactly when no file exists at its artifact
//! path and its artifact path is not in the forbidden set. The filter is
//! pure and runs once before the workers start; the shell supplies, for
//! each catalog entry in order, whether a file already exists at its path.

use vstd::prelude::*;
use crate::index::{CrateVersions, Index};
use crate::item::{artifact_path_spec, WorkItem};
use crate::ledger::{lemma_ledger_round_trip, split_lines, ForbiddenSet};
use crate::run::{all_wf, unique_keys, WorkQueue};

verus! {

/// The work items of one package, in catalog order.
pub open spec fn flat_of_crate(cv: CrateVersions) -> Seq<WorkItem> {
    Seq::new(
        cv.versions@.len(),
        |i: int|
            WorkItem {
                name: cv.name,
                version: cv.versions@[i].version,
                cksum: cv.versions@[i].data.cksum,
            },
    )
}

/// Every catalog entry as a work item, package by package.
pub open spec fn flat_items(crates: Seq<CrateVersions>) -> Seq<WorkItem>
    decreases crates.len(),
{
    if crates.len() == 0 {
        Seq::empty()
    } else {
        flat_items(crates.drop_last()) + flat_of_crate(crates.last())
    }
}

/// A well-formed catalog flattens to well-formed items with pairwise
/// distinct `(name, version)` keys, each item naming one of the catalog's
/// packages.
pub proof fn lemma_flat_items_wf(crates: Seq<CrateVersions>)
    requires
        forall|i: int| 0 <= i < crates.len() ==> (#[trigger] crates[i]).wf(),
        forall|i: int, j: int| 0 <= i < j < crates.len() ==> crates[i].name@ != crates[j].name@,
    ensures
        unique_keys(flat_items(crates)),
        all_wf(flat_items(crates)),
        forall|k: int|
            0 <= k < flat_items(crates).len() ==> exists|c: int|
                0 <= c < crates.len() && (#[trigger] flat_items(crates)[k]).name@ == crates[c].name@,
    decreases crates.len(),
{
    if crates.len() > 0 {
        let prefix = crates.drop_last();
        let last = crates.last();
        let f = flat_items(crates);
        let fp = flat_items(prefix);
        let fl = flat_of_crate(last);
        lemma_flat_items_wf(prefix);
        assert forall|k: int| 0 <= k < f.len() implies exists|c: int|
            0 <= c < crates.len() && (#[trigger] f[k]).name@ == crates[c].name@ by {
            if k < fp.len() {
                assert(f[k] == fp[k]);
                let c = choose|c: int| 0 <= c < prefix.len() && fp[k].name@ == prefix[c].name@;
                assert(crates[c] == prefix[c]);
                assert(0 <= c < crates.len() && f[k].name@ == crates[c].name@);
            } else {
                assert(f[k] == fl[k - fp.len()]);
                assert(f[k].name@ == last.name@);
                assert(crates[crates.len() - 1] == last);
            }
        }
        assert forall|i: int| 0 <= i < f.len() implies (#[trigger] f[i]).wf() by {
            if i < fp.len() {
                assert(f[i] == fp[i]);
            } else {
                assert(f[i] == fl[i - fp.len()]);
                assert(last.wf());
            }
        }
        assert forall|i: int, j: int| 0 <= i < j < f.len() implies f[i].key() != f[j].key() by {
            if j < fp.len() {
                assert(f[i] == fp[i]);
                assert(f[j] == fp[j]);
            } else if i >= fp.len() {
                assert(f[i] == fl[i - fp.len()]);
                assert(f[j] == fl[j - fp.len()]);
                assert(last.wf());
                assert(last.versions@[i - fp.len()].version@ != last.versions@[j
                    - fp.len()].version@);
            } else {
                assert(f[i] == fp[i]);
                assert(f[j] == fl[j - fp.len()]);
                let c = choose|c: int| 0 <= c < prefix.len() && fp[i].name@ == prefix[c].name@;
                assert(crates[c] == prefix[c]);
                assert(crates[c].name@ != last.name@);
            }
        }
    }
}

/// Every catalog entry as a work item; the filter and the tests pick from
/// this list.
pub fn all_items(index: &Index) -> (r: Vec<WorkItem>)
    ensures
        r@ == flat_items(index.crates@),
        index.wf() ==> unique_keys(r@) && all_wf(r@),
{
    proof {
        if index.wf() {
            lemma_flat_items_wf(index.crates@);
        }
    }
    let mut out: Vec<WorkItem> = Vec::new();
    let nc = index.crates.len();
    let mut ci: usize = 0;
    proof {
        assert(out@ =~= flat_items(index.crates@.subrange(0, 0)));
    }
    while ci < nc
        invariant
            ci <= nc,
            nc == index.crates@.len(),
            out@ == flat_items(index.crates@.subrange(0, ci as int)),
        decreases nc - ci,
    {
        let cv = &index.crates[ci];
        let nv = cv.versions.len();
        let mut vi: usize = 0;
        while vi < nv
            invariant
                vi <= nv,
                ci < nc,
                nc == index.crates@.len(),
                nv == cv.versions@.len(),
                cv == &index.crates@[ci as int],
                out@ == flat_items(index.crates@.subrange(0, ci as int)) + flat_of_crate(
                    *cv,
                ).take(vi as int),
            decreases nv - vi,
        {
            let item = WorkItem {
                name: cv.name.clone(),
                version: cv.versions[vi].version.clone(),
                cksum: cv.versions[vi].data.cksum.clone(),
            };
            proof {
                assert(item == flat_of_crate(*cv)[vi as int]);
                assert(flat_of_crate(*cv).take(vi as int + 1) =~= flat_of_crate(*cv).take(
                    vi as int,
                ).push(item));
            }
            out.push(item);
            proof {
                assert(out@ =~= flat_items(index.crates@.subrange(0, ci as int)) + flat_of_crate(
                    *cv,
                ).take(vi as int + 1));
            }
            vi = vi + 1;
        }
        proof {
            let pre = index.crates@.subrange(0, ci as int + 1);
            assert(pre.drop_last() =~= index.crates@.subrange(0, ci as int));
            assert(pre.last() == index.crates@[ci as int]);
            assert(flat_of_crate(*cv).take(nv as int) =~= flat_of_crate(*cv));
            assert(out@ =~= flat_items(pre));
        }
        ci = ci + 1;
    }
    proof {
        assert(index.crates@.subrange(0, nc as int) =~= index.crates@);
    }
    out
}

/// Whether the skip filter keeps an item: nothing on disk at its artifact
/// path, and its artifact path never recorded as forbidden.
pub open spec fn selected(item: WorkItem, present: bool, forb: Seq<Seq<char>>) -> bool {
    !present && !forb.contains(artifact_path_spec(item.name@, item.version@))
}

/// The items the skip filter keeps, in order.
pub open spec fn filter_spec(items: Seq<WorkItem>, present: Seq<bool>, forb: Seq<Seq<char>>) -> Seq<
    WorkItem,
>
    recommends
        present.len() == items.len(),
    decreases items.len(),
{
    if items.len() == 0 {
        Seq::empty()
    } else {
        let rest = filter_spec(items.drop_last(), present.drop_last(), forb);
        if selected(items.last(), present.last(), forb) {
            rest.push(items.last())
        } else {
            rest
        }
    }
}

/// Build the run's initial queue: keep exactly the items with no artifact
/// on disk (`present` answers that, entry by entry) and no forbidden path.
pub fn build_queue(items: &Vec<WorkItem>, present: &Vec<bool>, forb: &ForbiddenSet) -> (q:
    WorkQueue)
    requires
        present@.len() == items@.len(),
    ensures
        q@ == filter_spec(items@, present@, forb@),
        unique_keys(items@) && all_wf(items@) ==> q.wf(),
{
    proof {
        if unique_keys(items@) && all_wf(items@) {
            lemma_filter_preserves_wf(items@, present@, forb@);
        }
    }
    let n = items.len();
    let mut out: Vec<WorkItem> = Vec::new();
    let mut i: usize = 0;
    proof {
        assert(items@.subrange(0, 0) =~= Seq::<WorkItem>::empty());
        assert(present@.subrange(0, 0) =~= Seq::<bool>::empty());
        assert(out@ =~= filter_spec(items@.subrange(0, 0), present@.subrange(0, 0), forb@));
    }
    while i < n
        invariant
            i <= n,
            n == items@.len(),
            present@.len() == items@.len(),
            out@ == filter_spec(items@.subrange(0, i as int), present@.subrange(0, i as int), forb@),
        decreases n - i,
    {
        let path = items[i].path();
        let keep = !present[i] && !forb.contains(path.as_str());
        proof {
            assert(keep == selected(items@[i as int], present@[i as int], forb@));
            assert(items@.subrange(0, i as int + 1).drop_last() =~= items@.subrange(0, i as int));
            assert(present@.subrange(0, i as int + 1).drop_last() =~= present@.subrange(
                0,
                i as int,
            ));
            assert(items@.subrange(0, i as int + 1).last() == items@[i as int]);
            assert(present@.subrange(0, i as int + 1).last() == present@[i as int]);
        }
        if keep {
            let it = &items[i];
            let item = WorkItem {
                name: it.name.clone(),
                version: it.version.clone(),
                cksum: it.cksum.clone(),
            };
            proof {
                assert(item == items@[i as int]);
            }
            out.push(item);
        }
        i = i + 1;
    }
    proof {
        assert(items@.subrange(0, n as int) =~= items@);
        assert(present@.subrange(0, n as int) =~= present@);
    }
    WorkQueue::new(out)
}

/// The filter keeps items well formed and their keys pairwise distinct, so
/// a queue built over a well-formed catalog is well formed.
pub proof fn lemma_filter_preserves_wf(
    items: Seq<WorkItem>,
    present: Seq<bool>,
    forb: Seq<Seq<char>>,
)
    requires
        present.len() == items.len(),
        unique_keys(items),
        all_wf(items),
    ensures
        unique_keys(filter_spec(items, present, forb)),
        all_wf(filter_spec(items, present, forb)),
    decreases items.len(),
{
    let f = filter_spec(items, present, forb);
    if items.len() > 0 {
        let ip = items.drop_last();
        let pp = present.drop_last();
        assert forall|i: int, j: int| 0 <= i < j < ip.len() implies ip[i].key() != ip[j].key() by {
            assert(ip[i] == items[i]);
            assert(ip[j] == items[j]);
        }
        assert forall|i: int| 0 <= i < ip.len() implies ip[i].wf() by {
            assert(ip[i] == items[i]);
        }
        lemma_filter_preserves_wf(ip, pp, forb);
        let rest = filter_spec(ip, pp, forb);
        if selected(items.last(), present.last(), forb) {
            assert forall|i: int, j: int| 0 <= i < j < f.len() implies f[i].key() != f[j].key() by {
                if j < rest.len() {
                    assert(f[i] == rest[i]);
                    assert(f[j] == rest[j]);
                } else {
                    assert(f[i] == rest[i]);
                    assert(f[j] == items.last());
                    lemma_filter_membership(ip, pp, forb, i);
                    let w = choose|w: int|
                        0 <= w < ip.len() && ip[w] == rest[i] && selected(ip[w], pp[w], forb);
                    assert(items[w] == ip[w]);
                    assert(items[w].key() != items[items.len() - 1].key());
                }
            }
            assert forall|i: int| 0 <= i < f.len() implies f[i].wf() by {
                if i < rest.len() {
                    assert(f[i] == rest[i]);
                } else {
                    assert(f[i] == items.last());
                    assert(items[items.len() - 1] == items.last());
                }
            }
        }
    }
}

/// Everything the filter keeps comes from the catalog, had no artifact on
/// disk, and has no forbidden path.
pub proof fn lemma_filter_membership(
    items: Seq<WorkItem>,
    present: Seq<bool>,
    forb: Seq<Seq<char>>,
    k: int,
)
    requires
        present.len() == items.len(),
        0 <= k < filter_spec(items, present, forb).len(),
    ensures
        exists|j: int|
            0 <= j < items.len() && items[j] == filter_spec(items, present, forb)[k] && selected(
                items[j],
                present[j],
                forb,
            ),
    decreases items.len(),
{
    let f = filter_spec(items, present, forb);
    if items.len() > 0 {
        let rest = filter_spec(items.drop_last(), present.drop_last(), forb);
        if k < rest.len() {
            lemma_filter_membership(items.drop_last(), present.drop_last(), forb, k);
            let j = choose|j: int|
                0 <= j < items.drop_last().len() && items.drop_last()[j] == rest[k] && selected(
                    items.drop_last()[j],
                    present.drop_last()[j],
                    forb,
                );
            assert(items[j] == items.drop_last()[j]);
            assert(present[j] == present.drop_last()[j]);
            assert(f[k] == rest[k]);
        } else {
            assert(selected(items.last(), present.last(), forb));
            assert(f[k] == items.last());
            assert(items[items.len() - 1] == items.last());
        }
    }
}

/// An item whose artifact already exists at its final path is excluded by
/// the skip filter, whatever the ledger holds.
pub proof fn lemma_filter_excludes_present(
    items: Seq<WorkItem>,
    present: Seq<bool>,
    forb: Seq<Seq<char>>,
    i: int,
)
    requires
        present.len() == items.len(),
        unique_keys(items),
        0 <= i < items.len(),
        present[i],
    ensures
        !filter_spec(items, present, forb).contains(items[i]),
{
    let f = filter_spec(items, present, forb);
    if exists|k: int| 0 <= k < f.len() && f[k] == items[i] {
        let k = choose|k: int| 0 <= k < f.len() && f[k] == items[i];
        lemma_filter_membership(items, present, forb, k);
        let j = choose|j: int|
            0 <= j < items.len() && items[j] == f[k] && selected(items[j], present[j], forb);
        if i != j {
            assert(items[i].key() != items[j].key());
        }
        assert(false);
    }
}

/// An item whose artifact path is already in the forbidden set is excluded
/// by the skip filter, even when the catalog still lists it: nothing the
/// filter keeps has a forbidden path.
pub proof fn lemma_filter_excludes_forbidden(
    items: Seq<WorkItem>,
    present: Seq<bool>,
    forb: Seq<Seq<char>>,
)
    requires
        present.len() == items.len(),
    ensures
        forall|k: int|
            0 <= k < filter_spec(items, present, forb).len() ==> !forb.contains(
                artifact_path_spec(
                    (#[trigger] filter_spec(items, present, forb)[k]).name@,
                    filter_spec(items, present, forb)[k].version@,
                ),
            ),
{
    let f = filter_spec(items, present, forb);
    assert forall|k: int| 0 <= k < f.len() implies !forb.contains(
        artifact_path_spec((#[trigger] f[k]).name@, f[k].version@),
    ) by {
        lemma_filter_membership(items, present, forb, k);
    }
}

/// Once a run appends a denied artifact path to the ledger, the next run
/// — loading the grown ledger text — keeps no item with that path: the
/// denial is honored without any further network activity.
pub proof fn lemma_denied_path_skipped_next_run(
    text: Seq<char>,
    p: Seq<char>,
    items: Seq<WorkItem>,
    present: Seq<bool>,
)
    requires
        text.len() == 0 || text[text.len() - 1] == '\n',
        forall|i: int| 0 <= i < p.len() ==> p[i] != '\n' && p[i] != '\r',
        present.len() == items.len(),
    ensures
        forall|k: int|
            0 <= k < filter_spec(items, present, split_lines(text + p + "\n"@)).len()
                ==> artifact_path_spec(
                (#[trigger] filter_spec(items, present, split_lines(text + p + "\n"@))[k]).name@,
                filter_spec(items, present, split_lines(text + p + "\n"@))[k].version@,
            ) != p,
{
    lemma_ledger_round_trip(text, p);
    let forb = split_lines(text + p + "\n"@);
    assert(forb == split_lines(text).push(p));
    assert(forb[forb.len() - 1] == p);
    assert(forb.contains(p));
    lemma_filter_excludes_forbidden(items, present, forb);
}

} // verus!
