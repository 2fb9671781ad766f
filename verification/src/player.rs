//! Handing the farm to the player: the farm is staged beside the root
//! directory, any player that runs is stopped, and a new player is started
//! on the farm.

use crate::error::Error;
use crate::farm::{generate_wallpapers, generated, Action, ActionView, Failed, FailedView};
use crate::path::{
    file_name_of, is_file_name, join, joined, lemma_joined_keeps_file_name,
    lemma_joined_to_parent_is_sibling, parent, parent_of,
};
use crate::wallpaper::{Wallpaper, WallpaperView};
use vstd::prelude::*;

verus! {

/// The action that stops every running player, by name. That none runs is
/// no failure.
pub open spec fn kill_action() -> ActionView {
    ActionView::Run { program: "pkill"@, args: seq!["mpvpaper"@] }
}

/// The options of the player: a shuffled, looping playlist, without sound
/// if `mute` is set.
pub open spec fn play_options(mute: bool) -> Seq<char> {
    (if mute {
        "no-audio"@
    } else {
        Seq::<char>::empty()
    }) + " --loop-playlist shuffle"@
}

/// The action that starts the player on every output, with the directory
/// `dir` as its source. The directory is an argument of its own: whatever
/// characters its path holds, the player gets exactly that path.
pub open spec fn launch_action(dir: Seq<char>, mute: bool) -> ActionView {
    ActionView::Launch {
        program: "mpvpaper"@,
        args: seq!["*"@, "-o"@, play_options(mute), dir],
    }
}

/// One rotation of the player on the farm at `dir`: stop the players that
/// run, then start a new one.
pub open spec fn rotation(dir: Seq<char>, mute: bool) -> Seq<ActionView> {
    seq![kill_action(), launch_action(dir, mute)]
}

/// The name of the staging directory.
pub open spec fn staging_name() -> Seq<char> {
    "wallpaper_temp"@
}

/// Where the farm is staged for playing: in a directory of a fixed name
/// beside the root directory. A root without a parent has no such place.
pub open spec fn staging_dir_of(load_path: Seq<char>) -> Option<Seq<char>> {
    match parent_of(load_path) {
        Some(beside) => Some(joined(beside, staging_name())),
        None => None,
    }
}

/// What `play_wallpapers` returns: the staging of the catalog beside the
/// root followed by a rotation of the player, or the failure of the staging
/// with what it did, or, for a root without a parent, a failure with
/// nothing done.
pub open spec fn played(
    load_path: Seq<char>,
    catalog: Seq<WallpaperView>,
    mute: bool,
    exists: bool,
) -> Result<Seq<ActionView>, FailedView> {
    match staging_dir_of(load_path) {
        None => Err(
            FailedView { actions: Seq::<ActionView>::empty(), error: Error::NoStagingDirectory },
        ),
        Some(dir) => match generated(catalog, dir, exists) {
            Ok(steps) => Ok(steps + rotation(dir, mute)),
            Err(failed) => Err(failed),
        },
    }
}

/// The farm is staged beside the root: the staging directory carries the
/// fixed name, and its parent is the parent of the root.
pub proof fn lemma_staging_dir_is_beside_root(load_path: Seq<char>)
    ensures
        staging_dir_of(load_path) matches Some(dir) ==> {
            &&& file_name_of(dir) == Some(staging_name())
            &&& parent_of(dir) == parent_of(load_path)
        },
{
    reveal_strlit("wallpaper_temp");
    assert(is_file_name(staging_name())) by {
        assert(staging_name().len() == 14);
    }
    if parent_of(load_path) is Some {
        lemma_joined_keeps_file_name(parent_of(load_path)->0, staging_name());
        lemma_joined_to_parent_is_sibling(load_path, staging_name());
    }
}

/// The player is handed the directory and nothing but the directory: it is
/// the last argument of the launch, as it stands, and the launch is the
/// last action of a rotation, behind the stop.
pub proof fn lemma_player_gets_the_directory(dir: Seq<char>, mute: bool)
    ensures
        rotation(dir, mute).len() == 2,
        rotation(dir, mute)[0] == kill_action(),
        rotation(dir, mute)[1] matches ActionView::Launch { program, args } && args.len() == 4
            && args.last() == dir,
{
}

/// One rotation of the player on the farm at `playlist_dir`: the action
/// that stops the players that run, then the action that starts a new one.
pub fn play_playlist(playlist_dir: &str, mutep: bool) -> (r: Vec<Action>)
    ensures
        r.deep_view() == rotation(playlist_dir@, mutep),
{
    let mut kill_args: Vec<String> = Vec::new();
    kill_args.push(String::from_str("mpvpaper"));
    assert(kill_args.deep_view() =~= seq!["mpvpaper"@]);
    let kill: Action = Action::Run { program: String::from_str("pkill"), args: kill_args };
    let mut options: String = String::new();
    if mutep {
        options.append("no-audio");
    }
    options.append(" --loop-playlist shuffle");
    assert(options@ =~= play_options(mutep));
    let mut args: Vec<String> = Vec::new();
    args.push(String::from_str("*"));
    args.push(String::from_str("-o"));
    args.push(options);
    args.push(String::from_str(playlist_dir));
    assert(args.deep_view() =~= seq!["*"@, "-o"@, play_options(mutep), playlist_dir@]);
    let launch: Action = Action::Launch { program: String::from_str("mpvpaper"), args };
    let mut plan: Vec<Action> = Vec::new();
    plan.push(kill);
    plan.push(launch);
    assert(plan.deep_view() =~= rotation(playlist_dir@, mutep));
    plan
}

/// Where `play_wallpapers` stages the farm of the root at `load_path`.
pub fn staging_dir(load_path: &str) -> (r: Option<String>)
    ensures
        r.deep_view() == staging_dir_of(load_path@),
{
    match parent(load_path) {
        Some(beside) => Some(join(beside.as_str(), "wallpaper_temp")),
        None => None,
    }
}

/// Plans the playing of the catalog of the root at `load_path`. `exists`
/// says whether anything is at `staging_dir(load_path)` now. The plan
/// stages the farm there, then stops the players that run and starts a new
/// one on the farm. A staging that fails comes back as it failed, and no
/// player is touched. A root without a parent is a failure with nothing
/// done.
pub fn play_wallpapers(load_path: &str, wallpapers: &Vec<Wallpaper>, mutep: bool, exists: bool) -> (r:
    Result<Vec<Action>, Failed>)
    ensures
        match r {
            Ok(plan) => played(load_path@, wallpapers.deep_view(), mutep, exists) == Ok::<
                Seq<ActionView>,
                FailedView,
            >(plan.deep_view()),
            Err(failed) => played(load_path@, wallpapers.deep_view(), mutep, exists) == Err::<
                Seq<ActionView>,
                FailedView,
            >(failed@),
        },
{
    let dir: String = match staging_dir(load_path) {
        Some(dir) => dir,
        None => {
            let failed = Failed { actions: Vec::new(), error: Error::NoStagingDirectory };
            assert(failed@.actions =~= Seq::<ActionView>::empty());
            return Err(failed);
        },
    };
    let mut plan: Vec<Action> = match generate_wallpapers(wallpapers, dir.as_str(), exists) {
        Ok(steps) => steps,
        Err(failed) => {
            return Err(failed);
        },
    };
    let ghost staged = plan.deep_view();
    let mut turn: Vec<Action> = play_playlist(dir.as_str(), mutep);
    plan.append(&mut turn);
    assert(plan.deep_view() =~= staged + rotation(dir@, mutep));
    Ok(plan)
}

} // verus!
