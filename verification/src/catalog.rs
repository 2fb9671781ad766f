//! The catalog: the assets found under one root directory, in listing order.

use crate::error::Error;
use crate::wallpaper::{Wallpaper, WallpaperView};
use vstd::prelude::*;

verus! {

/// The assets among the outcomes of a scan, in the order of the scan. Each
/// entry of a root directory has one outcome: its asset, or nothing.
pub open spec fn catalog_of(found: Seq<Option<WallpaperView>>) -> Seq<WallpaperView>
    decreases found.len(),
{
    if found.len() == 0 {
        Seq::empty()
    } else {
        let before = catalog_of(found.drop_last());
        match found.last() {
            Some(asset) => before.push(asset),
            None => before,
        }
    }
}

/// Whether a root can be scanned: it must exist, and be a directory.
pub open spec fn root_checked(exists: bool, is_dir: bool) -> Result<(), Error> {
    if !exists {
        Err(Error::PathNotFound)
    } else if !is_dir {
        Err(Error::NotADirectory)
    } else {
        Ok(())
    }
}

/// What `Wallpaper::build` made of one entry, as contracts see it.
pub open spec fn outcome_view(outcome: Result<Option<Wallpaper>, Error>) -> Result<
    Option<WallpaperView>,
    Error,
> {
    match outcome {
        Ok(asset) => Ok(asset.deep_view()),
        Err(e) => Err(e),
    }
}

/// The outcomes of a scan as contracts see them.
pub open spec fn outcomes_view(found: Seq<Result<Option<Wallpaper>, Error>>) -> Seq<
    Result<Option<WallpaperView>, Error>,
> {
    found.map_values(|outcome: Result<Option<Wallpaper>, Error>| outcome_view(outcome))
}

/// The first failure among the outcomes of a scan, in the order of the
/// scan.
pub open spec fn first_failure(found: Seq<Result<Option<WallpaperView>, Error>>) -> Option<Error>
    decreases found.len(),
{
    if found.len() == 0 {
        None
    } else {
        match first_failure(found.drop_last()) {
            Some(e) => Some(e),
            None => match found.last() {
                Err(e) => Some(e),
                Ok(_) => None,
            },
        }
    }
}

/// What each entry yielded: its asset, or nothing.
pub open spec fn yields(found: Seq<Result<Option<WallpaperView>, Error>>) -> Seq<
    Option<WallpaperView>,
> {
    found.map_values(
        |outcome: Result<Option<WallpaperView>, Error>|
            match outcome {
                Ok(asset) => asset,
                Err(_) => None,
            },
    )
}

/// The catalog of a root, given what was observed of the root and what
/// became of each of its entries: the failure of the root, else the first
/// failure of an entry, else the assets in the order of the scan.
pub open spec fn loaded(
    exists: bool,
    is_dir: bool,
    found: Seq<Result<Option<WallpaperView>, Error>>,
) -> Result<Seq<WallpaperView>, Error> {
    match root_checked(exists, is_dir) {
        Err(e) => Err(e),
        Ok(_) => match first_failure(found) {
            Some(e) => Err(e),
            None => Ok(catalog_of(yields(found))),
        },
    }
}

/// How many assets the first `n` outcomes of a scan hold.
pub open spec fn assets_before(found: Seq<Option<WallpaperView>>, n: int) -> nat {
    catalog_of(found.take(n)).len()
}

/// The catalog of the first `n` outcomes is the start of the whole catalog.
pub proof fn lemma_catalog_of_prefix(found: Seq<Option<WallpaperView>>, n: int)
    requires
        0 <= n <= found.len(),
    ensures
        assets_before(found, n) <= catalog_of(found).len(),
        catalog_of(found.take(n)) == catalog_of(found).take(assets_before(found, n) as int),
    decreases found.len(),
{
    if n == found.len() {
        assert(found.take(n) =~= found);
        assert(catalog_of(found).take(catalog_of(found).len() as int) =~= catalog_of(found));
    } else {
        let shorter = found.drop_last();
        assert(found.take(n) =~= shorter.take(n));
        lemma_catalog_of_prefix(shorter, n);
        let k = assets_before(found, n) as int;
        assert(catalog_of(shorter).take(k) =~= catalog_of(found).take(k));
    }
}

/// The catalog holds exactly the assets: as many as there are outcomes with
/// an asset, so that the entries that yielded nothing make up the rest of the
/// scan.
pub proof fn lemma_catalog_counts_assets(found: Seq<Option<WallpaperView>>)
    ensures
        catalog_of(found).len() == found.filter(|o: Option<WallpaperView>| o is Some).len(),
        catalog_of(found).len() + found.filter(|o: Option<WallpaperView>| o is None).len()
            == found.len(),
    decreases found.len(),
{
    reveal(Seq::filter);
    if found.len() > 0 {
        lemma_catalog_counts_assets(found.drop_last());
    }
}

/// The catalog keeps the order of the scan: the asset of entry `i` stands in
/// the catalog at the position that counts the assets of the entries before
/// it, and an asset of a later entry stands behind it.
pub proof fn lemma_catalog_keeps_order(found: Seq<Option<WallpaperView>>, i: int, j: int)
    requires
        0 <= i < found.len(),
        found[i] is Some,
        i < j <= found.len(),
    ensures
        assets_before(found, i) < catalog_of(found).len(),
        catalog_of(found)[assets_before(found, i) as int] == found[i]->0,
        assets_before(found, i) < assets_before(found, j),
{
    let upto = found.take(i + 1);
    assert(upto.drop_last() =~= found.take(i));
    assert(upto.last() == found[i]);
    assert(catalog_of(upto) == catalog_of(found.take(i)).push(found[i]->0));
    lemma_catalog_of_prefix(found, i + 1);
    let k = assets_before(found, i) as int;
    assert(catalog_of(found).take(k + 1)[k] == catalog_of(upto)[k]);
    let wider = found.take(j);
    assert(wider.take(i + 1) =~= upto);
    lemma_catalog_of_prefix(wider, i + 1);
}

/// Nothing else is in the catalog: each of its assets is the asset of some
/// entry of the scan, and stands at the position that entry gives it.
pub proof fn lemma_catalog_has_source(found: Seq<Option<WallpaperView>>, k: int)
    requires
        0 <= k < catalog_of(found).len(),
    ensures
        exists|i: int|
            0 <= i < found.len() && found[i] == Some(catalog_of(found)[k]) && #[trigger] assets_before(
                found,
                i,
            ) == k,
    decreases found.len(),
{
    let shorter = found.drop_last();
    let last = found.len() - 1;
    assert(found.take(last) =~= shorter);
    if found.last() is Some && k == catalog_of(shorter).len() {
        assert(assets_before(found, last) == k);
    } else {
        lemma_catalog_has_source(shorter, k);
        let i = choose|i: int|
            0 <= i < shorter.len() && shorter[i] == Some(catalog_of(shorter)[k])
                && #[trigger] assets_before(shorter, i) == k;
        assert(found.take(i) =~= shorter.take(i));
        assert(assets_before(found, i) == k);
    }
}

/// Leaving out an entry that yields nothing leaves the catalog as it is.
pub proof fn lemma_nothing_leaves_no_trace(found: Seq<Option<WallpaperView>>, i: int)
    requires
        0 <= i < found.len(),
        found[i] is None,
    ensures
        catalog_of(found) == catalog_of(found.remove(i)),
    decreases found.len(),
{
    let last = found.len() - 1;
    if i == last {
        assert(found.remove(i) =~= found.drop_last());
    } else {
        lemma_nothing_leaves_no_trace(found.drop_last(), i);
        assert(found.remove(i).drop_last() =~= found.drop_last().remove(i));
        assert(found.remove(i).last() == found.last());
    }
}

/// The first failure is the failure of the first entry that failed; there
/// is none exactly when no entry failed.
pub proof fn lemma_first_failure(found: Seq<Result<Option<WallpaperView>, Error>>)
    ensures
        match first_failure(found) {
            Some(e) => exists|i: int|
                0 <= i < found.len() && #[trigger] found[i] == Err::<Option<WallpaperView>, Error>(
                    e,
                ) && forall|j: int| 0 <= j < i ==> #[trigger] found[j] is Ok,
            None => forall|i: int| 0 <= i < found.len() ==> #[trigger] found[i] is Ok,
        },
    decreases found.len(),
{
    if found.len() > 0 {
        let shorter = found.drop_last();
        lemma_first_failure(shorter);
        match first_failure(shorter) {
            Some(e) => {
                let i = choose|i: int|
                    0 <= i < shorter.len() && #[trigger] shorter[i] == Err::<
                        Option<WallpaperView>,
                        Error,
                    >(e) && forall|j: int| 0 <= j < i ==> #[trigger] shorter[j] is Ok;
                assert(found[i] == Err::<Option<WallpaperView>, Error>(e));
                assert forall|j: int| 0 <= j < i implies #[trigger] found[j] is Ok by {
                    assert(shorter[j] is Ok);
                }
            },
            None => {
                assert forall|j: int| 0 <= j < shorter.len() implies #[trigger] found[j] is Ok by {
                    assert(shorter[j] is Ok);
                }
                if found.last() is Err {
                    assert(found[found.len() - 1] == Err::<Option<WallpaperView>, Error>(
                        found.last()->Err_0,
                    ));
                }
            },
        }
    }
}

/// A failure among the first `n` outcomes is the failure of the scan.
proof fn lemma_failure_stays(found: Seq<Result<Option<WallpaperView>, Error>>, n: int)
    requires
        0 <= n <= found.len(),
        first_failure(found.take(n)) is Some,
    ensures
        first_failure(found) == first_failure(found.take(n)),
    decreases found.len(),
{
    if n == found.len() {
        assert(found.take(n) =~= found);
    } else {
        assert(found.drop_last().take(n) =~= found.take(n));
        lemma_failure_stays(found.drop_last(), n);
    }
}

/// An entry that yields nothing does not end the scan and leaves no trace
/// in what the scan gives: the result is the one that the other entries
/// give.
pub proof fn lemma_skipped_entry_leaves_no_trace(
    found: Seq<Result<Option<WallpaperView>, Error>>,
    i: int,
)
    requires
        0 <= i < found.len(),
        found[i] == Ok::<Option<WallpaperView>, Error>(None),
    ensures
        loaded(true, true, found) == loaded(true, true, found.remove(i)),
{
    lemma_same_failure_without(found, i);
    assert(yields(found.remove(i)) =~= yields(found).remove(i));
    lemma_nothing_leaves_no_trace(yields(found), i);
}

/// Leaving out an entry that did not fail leaves the first failure as it is.
proof fn lemma_same_failure_without(found: Seq<Result<Option<WallpaperView>, Error>>, i: int)
    requires
        0 <= i < found.len(),
        found[i] is Ok,
    ensures
        first_failure(found.remove(i)) == first_failure(found),
    decreases found.len(),
{
    let last = found.len() - 1;
    if i == last {
        assert(found.remove(i) =~= found.drop_last());
    } else {
        lemma_same_failure_without(found.drop_last(), i);
        assert(found.remove(i).drop_last() =~= found.drop_last().remove(i));
        assert(found.remove(i).last() == found.last());
    }
}

/// Accepts a root directory or says why it cannot be scanned.
pub fn check_root(exists: bool, is_dir: bool) -> (r: Result<(), Error>)
    ensures
        r == root_checked(exists, is_dir),
{
    if !exists {
        Err(Error::PathNotFound)
    } else if !is_dir {
        Err(Error::NotADirectory)
    } else {
        Ok(())
    }
}

/// Builds the catalog of a root directory. `exists` and `is_dir` say what the
/// root path is on disk; `found` holds, for each entry of the root in listing
/// order, what `Wallpaper::build` made of it. A manifest that could not be
/// read fails the whole scan. Entries that yielded nothing are left out, and
/// an empty catalog is no failure.
pub fn load_wallpaper(
    exists: bool,
    is_dir: bool,
    found: Vec<Result<Option<Wallpaper>, Error>>,
) -> (r: Result<Vec<Wallpaper>, Error>)
    ensures
        match r {
            Ok(catalog) => loaded(exists, is_dir, outcomes_view(found@)) == Ok::<
                Seq<WallpaperView>,
                Error,
            >(catalog.deep_view()),
            Err(e) => loaded(exists, is_dir, outcomes_view(found@)) == Err::<
                Seq<WallpaperView>,
                Error,
            >(e),
        },
{
    match check_root(exists, is_dir) {
        Err(e) => {
            return Err(e);
        },
        Ok(_) => {},
    }
    let ghost all = outcomes_view(found@);
    let mut wallpapers: Vec<Wallpaper> = Vec::new();
    for outcome in it: found
        invariant
            root_checked(exists, is_dir) is Ok,
            all == outcomes_view(found@),
            it.seq().len() == all.len(),
            forall|i: int| 0 <= i < all.len() ==> outcome_view(#[trigger] it.seq()[i]) == all[i],
            first_failure(all.take(it.index() as int)) is None,
            wallpapers.deep_view() == catalog_of(yields(all.take(it.index() as int))),
    {
        proof {
            let n = it.index() as int;
            assert(all.take(n + 1).drop_last() =~= all.take(n));
            assert(all.take(n + 1).last() == all[n]);
            assert(outcome_view(outcome) == all[n]);
            assert(yields(all.take(n + 1)).drop_last() =~= yields(all.take(n)));
        }
        let ghost before = wallpapers.deep_view();
        match outcome {
            Err(e) => {
                proof {
                    let n = it.index() as int;
                    assert(first_failure(all.take(n + 1)) == Some(e));
                    lemma_failure_stays(all, n + 1);
                }
                return Err(e);
            },
            Ok(Some(wallpaper)) => {
                wallpapers.push(wallpaper);
                assert(wallpapers.deep_view() =~= before.push(wallpaper@));
            },
            Ok(None) => {},
        }
    }
    proof {
        assert(all.take(all.len() as int) =~= all);
    }
    Ok(wallpapers)
}

} // verus!
