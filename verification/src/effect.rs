//! What a plan does to the directory it stages, told of a model of that
//! directory. The model knows the entries of one directory by their paths. It
//! is what the contracts of the plans are read against: the library itself
//! never carries a plan out.

use crate::error::Error;
use crate::farm::{
    generated, lemma_linked_are_stageable, lemma_offends_in_prefix, lemma_stageable_len,
    link_name, link_of, link_path, linked, offends, planned, stageable, stageable_len, staging,
    staging_error, ActionView,
};
use crate::path::{
    file_name_of, is_file_name, joined, lemma_file_name_is_file_name,
    lemma_joined_keeps_file_name, lemma_joined_tells_apart,
};
use crate::player::{played, rotation, staging_dir_of};
use crate::wallpaper::WallpaperView;
use vstd::prelude::*;

verus! {

/// What stands at a path of the directory.
pub enum Node {
    /// A symbolic link, with the path it points at.
    Link(Seq<char>),
    /// Anything else: a file, a directory.
    Other,
}

/// The directory: absent, or present with its entries by path.
pub enum Dir {
    Absent,
    Present(Map<Seq<char>, Node>),
}

/// Whether `path` names an entry of the directory `dir`: a file name
/// adjoined to it.
pub open spec fn lies_in(path: Seq<char>, dir: Seq<char>) -> bool {
    exists|name: Seq<char>| is_file_name(name) && path == #[trigger] joined(dir, name)
}

/// The directory at `dir` after `action`, or `None` where the action fails.
/// Removing needs the directory to be there; creating is content with one
/// that is there; linking needs the directory, and fails on a path that is
/// taken. Commands, and actions on other directories, leave this one alone.
pub open spec fn performed(action: ActionView, dir: Seq<char>, state: Dir) -> Option<Dir> {
    match action {
        ActionView::Run { .. } => Some(state),
        ActionView::Launch { .. } => Some(state),
        ActionView::RemoveDirAll(path) => if path != dir {
            Some(state)
        } else {
            match state {
                Dir::Absent => None,
                Dir::Present(_) => Some(Dir::Absent),
            }
        },
        ActionView::CreateDirAll(path) => if path != dir {
            Some(state)
        } else {
            match state {
                Dir::Absent => Some(Dir::Present(Map::empty())),
                Dir::Present(_) => Some(state),
            }
        },
        ActionView::Symlink { target, link } => if !lies_in(link, dir) {
            Some(state)
        } else {
            match state {
                Dir::Absent => None,
                Dir::Present(entries) => if entries.dom().contains(link) {
                    None
                } else {
                    Some(Dir::Present(entries.insert(link, Node::Link(target))))
                },
            }
        },
    }
}

/// The directory at `dir` after the actions of `plan`, carried out in order
/// up to the first that fails; `None` if one fails.
pub open spec fn ran(plan: Seq<ActionView>, dir: Seq<char>, state: Dir) -> Option<Dir>
    decreases plan.len(),
{
    if plan.len() == 0 {
        Some(state)
    } else {
        match ran(plan.drop_last(), dir, state) {
            Some(reached) => performed(plan.last(), dir, reached),
            None => None,
        }
    }
}

/// The farm of `catalog` in `dir`: for each asset a link to its video, at the
/// path that the file name of the video gives it.
pub open spec fn farm(catalog: Seq<WallpaperView>, dir: Seq<char>) -> Map<Seq<char>, Node>
    decreases catalog.len(),
{
    if catalog.len() == 0 {
        Map::empty()
    } else {
        farm(catalog.drop_last(), dir).insert(
            link_path(catalog.last(), dir),
            Node::Link(catalog.last().file),
        )
    }
}

/// A catalog whose assets can all be linked stays so without its last asset.
proof fn lemma_shorter_can_be_staged(catalog: Seq<WallpaperView>)
    requires
        catalog.len() > 0,
        stageable(catalog, catalog.len() as int),
    ensures
        stageable(catalog.drop_last(), catalog.len() - 1),
{
    let shorter = catalog.drop_last();
    let last = catalog.len() - 1;
    assert(shorter =~= catalog.take(last));
    assert forall|k: int| 0 <= k < last implies !#[trigger] offends(shorter, k) by {
        lemma_offends_in_prefix(catalog, last, k);
        assert(!offends(catalog, k));
    }
}

/// Where all assets can be linked, two assets have two link paths.
proof fn lemma_link_paths_differ(catalog: Seq<WallpaperView>, dir: Seq<char>, i: int, j: int)
    requires
        stageable(catalog, catalog.len() as int),
        0 <= i < j < catalog.len(),
    ensures
        link_path(catalog[i], dir) != link_path(catalog[j], dir),
{
    assert(!offends(catalog, i));
    assert(!offends(catalog, j));
    assert(link_name(catalog[i]) != link_name(catalog[j]));
    lemma_file_name_is_file_name(catalog[i].file);
    lemma_file_name_is_file_name(catalog[j].file);
    if link_path(catalog[i], dir) == link_path(catalog[j], dir) {
        lemma_joined_tells_apart(dir, link_name(catalog[i])->0, link_name(catalog[j])->0);
    }
}

/// The paths of the farm are the link paths of the assets, and no others.
proof fn lemma_farm_paths(catalog: Seq<WallpaperView>, dir: Seq<char>)
    ensures
        farm(catalog, dir).dom().finite(),
        forall|path: Seq<char>|
            farm(catalog, dir).dom().contains(path) <==> exists|i: int|
                0 <= i < catalog.len() && path == #[trigger] link_path(catalog[i], dir),
    decreases catalog.len(),
{
    if catalog.len() > 0 {
        let shorter = catalog.drop_last();
        let last = catalog.len() - 1;
        lemma_farm_paths(shorter, dir);
        assert forall|path: Seq<char>|
            farm(catalog, dir).dom().contains(path) <==> exists|i: int|
                0 <= i < catalog.len() && path == #[trigger] link_path(catalog[i], dir) by {
            if farm(catalog, dir).dom().contains(path) {
                if path == link_path(catalog.last(), dir) {
                    assert(path == link_path(catalog[last], dir));
                } else {
                    assert(farm(shorter, dir).dom().contains(path));
                    let i = choose|i: int|
                        0 <= i < shorter.len() && path == #[trigger] link_path(shorter[i], dir);
                    assert(path == link_path(catalog[i], dir));
                }
            }
            if exists|i: int|
                0 <= i < catalog.len() && path == #[trigger] link_path(catalog[i], dir) {
                let i = choose|i: int|
                    0 <= i < catalog.len() && path == #[trigger] link_path(catalog[i], dir);
                if i < last {
                    assert(path == link_path(shorter[i], dir));
                }
            }
        }
    }
}

/// Where all assets can be linked, the link path of the last asset is free
/// in the farm of those before it.
proof fn lemma_last_link_is_free(catalog: Seq<WallpaperView>, dir: Seq<char>)
    requires
        catalog.len() > 0,
        stageable(catalog, catalog.len() as int),
    ensures
        !farm(catalog.drop_last(), dir).dom().contains(link_path(catalog.last(), dir)),
{
    let shorter = catalog.drop_last();
    let new_path = link_path(catalog.last(), dir);
    lemma_farm_paths(shorter, dir);
    if farm(shorter, dir).dom().contains(new_path) {
        let i = choose|i: int|
            0 <= i < shorter.len() && new_path == #[trigger] link_path(shorter[i], dir);
        lemma_link_paths_differ(catalog, dir, i, catalog.len() - 1);
    }
}

/// The farm of a catalog whose assets can all be linked holds exactly one
/// link per asset: as many entries as the catalog has assets, and for each
/// asset a link to its video at its link path.
pub proof fn lemma_farm_holds_one_link_per_asset(catalog: Seq<WallpaperView>, dir: Seq<char>)
    requires
        stageable(catalog, catalog.len() as int),
    ensures
        farm(catalog, dir).dom().finite(),
        farm(catalog, dir).dom().len() == catalog.len(),
        forall|i: int|
            0 <= i < catalog.len() ==> farm(catalog, dir).contains_pair(
                #[trigger] link_path(catalog[i], dir),
                Node::Link(catalog[i].file),
            ),
        forall|path: Seq<char>|
            farm(catalog, dir).dom().contains(path) ==> exists|i: int|
                0 <= i < catalog.len() && path == #[trigger] link_path(catalog[i], dir),
    decreases catalog.len(),
{
    lemma_farm_paths(catalog, dir);
    if catalog.len() > 0 {
        let shorter = catalog.drop_last();
        let last = catalog.len() - 1;
        lemma_shorter_can_be_staged(catalog);
        lemma_farm_holds_one_link_per_asset(shorter, dir);
        lemma_last_link_is_free(catalog, dir);
        assert forall|i: int| 0 <= i < catalog.len() implies farm(catalog, dir).contains_pair(
            #[trigger] link_path(catalog[i], dir),
            Node::Link(catalog[i].file),
        ) by {
            if i < last {
                lemma_link_paths_differ(catalog, dir, i, last);
                assert(farm(shorter, dir).contains_pair(
                    link_path(shorter[i], dir),
                    Node::Link(shorter[i].file),
                ));
            }
        }
    }
}

/// A link is named by the video it points at: the file name of the link is
/// the file name of the video.
pub proof fn lemma_link_is_named_by_its_video(asset: WallpaperView, dir: Seq<char>)
    requires
        link_name(asset) is Some,
    ensures
        file_name_of(link_path(asset, dir)) == file_name_of(asset.file),
{
    lemma_file_name_is_file_name(asset.file);
    lemma_joined_keeps_file_name(dir, link_name(asset)->0);
}

/// The staging of a catalog whose assets can all be linked runs through
/// and leaves the farm of the catalog.
proof fn lemma_staging_runs_through(catalog: Seq<WallpaperView>, dir: Seq<char>, before: Dir)
    requires
        stageable(catalog, catalog.len() as int),
    ensures
        ran(staging(catalog, dir, before is Present), dir, before) == Some(
            Dir::Present(farm(catalog, dir)),
        ),
    decreases catalog.len(),
{
    let exists = before is Present;
    let plan = staging(catalog, dir, exists);
    if catalog.len() == 0 {
        reveal_with_fuel(ran, 3);
        if exists {
            assert(plan.drop_last() =~= seq![ActionView::RemoveDirAll(dir)]);
            assert(plan.drop_last().drop_last() =~= Seq::<ActionView>::empty());
        } else {
            assert(plan.drop_last() =~= Seq::<ActionView>::empty());
        }
    } else {
        let shorter = catalog.drop_last();
        lemma_shorter_can_be_staged(catalog);
        lemma_staging_runs_through(shorter, dir, before);
        assert(plan.drop_last() =~= staging(shorter, dir, exists));
        assert(plan.last() == link_of(catalog.last(), dir));
        lemma_last_link_is_free(catalog, dir);
        let new_path = link_path(catalog.last(), dir);
        assert(lies_in(new_path, dir)) by {
            assert(!offends(catalog, catalog.len() - 1));
            lemma_file_name_is_file_name(catalog.last().file);
            assert(new_path == joined(dir, link_name(catalog.last())->0));
        }
    }
}

/// Staging replaces what was there. Whatever the directory held before,
/// also files that have nothing to do with the catalog, the actions that
/// `generate_wallpapers` gives run through, and leave the directory with a
/// link for each asset that is linked and with nothing else. Where all
/// assets are linked, that is the farm of the catalog.
pub proof fn lemma_staging_replaces_contents(
    catalog: Seq<WallpaperView>,
    dir: Seq<char>,
    before: Dir,
)
    ensures
        ran(planned(generated(catalog, dir, before is Present)), dir, before) == Some(
            Dir::Present(farm(linked(catalog), dir)),
        ),
        generated(catalog, dir, before is Present) is Ok ==> linked(catalog) == catalog,
{
    lemma_linked_are_stageable(catalog);
    lemma_staging_runs_through(linked(catalog), dir, before);
    if staging_error(catalog) is None {
        lemma_stageable_len(catalog);
        assert(linked(catalog) =~= catalog);
    }
}

/// Staging is idempotent in content: staging the same catalog a second
/// time, against the directory that the first run left, leaves the same
/// directory. Nothing of the first run leaks into the second.
pub proof fn lemma_staging_twice(catalog: Seq<WallpaperView>, dir: Seq<char>, before: Dir)
    ensures
        ran(planned(generated(catalog, dir, before is Present)), dir, before) matches Some(once)
            && ran(planned(generated(catalog, dir, once is Present)), dir, once) == Some(once),
{
    lemma_staging_replaces_contents(catalog, dir, before);
    lemma_staging_replaces_contents(catalog, dir, Dir::Present(farm(linked(catalog), dir)));
}

/// Two assets whose videos share a file name are not both staged, and
/// neither takes the place of the other: staging fails, at the second of
/// them at the latest. Where it fails at the second for the name it shares,
/// the failure is `NameCollision`, and the link of the first stands in the
/// directory, pointing at the video of the first.
pub proof fn lemma_collision_keeps_first_link(
    catalog: Seq<WallpaperView>,
    dir: Seq<char>,
    before: Dir,
    i: int,
    j: int,
)
    requires
        0 <= i < j < catalog.len(),
        link_name(catalog[i]) == link_name(catalog[j]),
    ensures
        generated(catalog, dir, before is Present) matches Err(failed) && {
            &&& stageable_len(catalog) <= j
            &&& ran(failed.actions, dir, before) == Some(Dir::Present(farm(linked(catalog), dir)))
            &&& stageable_len(catalog) == j ==> {
                &&& failed.error == Error::NameCollision
                &&& farm(linked(catalog), dir).contains_pair(
                    link_path(catalog[i], dir),
                    Node::Link(catalog[i].file),
                )
            }
        },
{
    lemma_stageable_len(catalog);
    assert(offends(catalog, j));
    if stageable_len(catalog) > j {
        assert(!offends(catalog, j));
    }
    lemma_staging_replaces_contents(catalog, dir, before);
    if stageable_len(catalog) == j {
        assert(!offends(catalog, i));
        lemma_linked_are_stageable(catalog);
        lemma_farm_holds_one_link_per_asset(linked(catalog), dir);
        assert(linked(catalog)[i] == catalog[i]);
        assert(farm(linked(catalog), dir).contains_pair(
            link_path(linked(catalog)[i], dir),
            Node::Link(linked(catalog)[i].file),
        ));
    }
}

/// Commands at the end of a plan do not change what the plan does to the
/// directory.
proof fn lemma_rotation_changes_nothing(
    steps: Seq<ActionView>,
    dir: Seq<char>,
    before: Dir,
    played_at: Seq<char>,
    mute: bool,
)
    ensures
        ran(steps + rotation(played_at, mute), dir, before) == ran(steps, dir, before),
{
    let turn = rotation(played_at, mute);
    let whole = steps + turn;
    assert(whole.drop_last() =~= steps + seq![turn[0]]);
    assert(whole.drop_last().drop_last() =~= steps);
    assert(whole.last() == turn[1]);
    assert(whole.drop_last().last() == turn[0]);
    reveal_with_fuel(ran, 3);
}

/// If the farm in `here` has an entry under `name`, the farm in `there` has
/// the same entry under that name.
proof fn lemma_same_name_same_link(
    catalog: Seq<WallpaperView>,
    here: Seq<char>,
    there: Seq<char>,
    name: Seq<char>,
)
    requires
        stageable(catalog, catalog.len() as int),
        is_file_name(name),
        farm(catalog, here).dom().contains(joined(here, name)),
    ensures
        farm(catalog, there).dom().contains(joined(there, name)),
        farm(catalog, there)[joined(there, name)] == farm(catalog, here)[joined(here, name)],
{
    lemma_farm_holds_one_link_per_asset(catalog, here);
    lemma_farm_holds_one_link_per_asset(catalog, there);
    let i = choose|i: int|
        0 <= i < catalog.len() && joined(here, name) == #[trigger] link_path(catalog[i], here);
    assert(!offends(catalog, i));
    lemma_file_name_is_file_name(catalog[i].file);
    lemma_joined_tells_apart(here, name, link_name(catalog[i])->0);
    assert(joined(there, name) == link_path(catalog[i], there));
}

/// Exporting and playing stage the same farm. Given one catalog, and a root
/// that has a parent to stage beside, both succeed or both fail, and for
/// the same reason. Either way the actions of both run through, and the
/// two directories hold the same links under the same names, whatever
/// either held before. Only the plan for playing holds commands, and only
/// where it succeeds.
pub proof fn lemma_export_matches_play(
    catalog: Seq<WallpaperView>,
    output_path: Seq<char>,
    load_path: Seq<char>,
    mute: bool,
    exported_before: Dir,
    played_before: Dir,
)
    requires
        staging_dir_of(load_path) is Some,
    ensures
        ({
            let stage_dir = staging_dir_of(load_path)->0;
            let export = generated(catalog, output_path, exported_before is Present);
            let play = played(load_path, catalog, mute, played_before is Present);
            let exported = farm(linked(catalog), output_path);
            let staged = farm(linked(catalog), stage_dir);
            &&& export is Ok <==> play is Ok
            &&& export matches Err(failed) ==> play matches Err(other) && other.error
                == failed.error
            &&& ran(planned(export), output_path, exported_before) == Some(
                Dir::Present(exported),
            )
            &&& ran(planned(play), stage_dir, played_before) == Some(Dir::Present(staged))
            &&& forall|name: Seq<char>|
                #![trigger joined(output_path, name)]
                #![trigger joined(stage_dir, name)]
                is_file_name(name) ==> {
                    let at_export = joined(output_path, name);
                    let at_stage = joined(stage_dir, name);
                    &&& exported.dom().contains(at_export) == staged.dom().contains(at_stage)
                    &&& exported.dom().contains(at_export) ==> exported[at_export]
                        == staged[at_stage]
                }
            &&& forall|k: int|
                0 <= k < planned(export).len() ==> !(#[trigger] planned(export)[k] is Run) && !(
                planned(export)[k] is Launch)
        }),
{
    let stage_dir = staging_dir_of(load_path)->0;
    let kept = linked(catalog);
    lemma_linked_are_stageable(catalog);
    lemma_staging_replaces_contents(catalog, output_path, exported_before);
    lemma_staging_replaces_contents(catalog, stage_dir, played_before);
    let staged_plan = generated(catalog, stage_dir, played_before is Present);
    if staged_plan is Ok {
        lemma_rotation_changes_nothing(
            planned(staged_plan),
            stage_dir,
            played_before,
            stage_dir,
            mute,
        );
    }
    assert forall|name: Seq<char>|
        #![trigger joined(output_path, name)]
        #![trigger joined(stage_dir, name)]
        is_file_name(name) implies {
        let exported = farm(kept, output_path);
        let staged = farm(kept, stage_dir);
        let at_export = joined(output_path, name);
        let at_stage = joined(stage_dir, name);
        &&& exported.dom().contains(at_export) == staged.dom().contains(at_stage)
        &&& exported.dom().contains(at_export) ==> exported[at_export] == staged[at_stage]
    } by {
        if farm(kept, output_path).dom().contains(joined(output_path, name)) {
            lemma_same_name_same_link(kept, output_path, stage_dir, name);
        }
        if farm(kept, stage_dir).dom().contains(joined(stage_dir, name)) {
            lemma_same_name_same_link(kept, stage_dir, output_path, name);
        }
    }
}

} // verus!
