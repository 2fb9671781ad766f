//! The symlink farm: a directory that holds one link per asset of a catalog,
//! each named by the file name of the video it points at.
//!
//! The farm is laid out as a plan, a list of actions for the caller to carry
//! out in order, stopping at the first that fails. Carried out in full, the
//! plan leaves the directory with the links of the catalog and nothing else.
//! A catalog with an asset that cannot be linked is staged up to that asset:
//! what was linked before it stays, and the failure is reported.

use crate::error::Error;
use crate::path::{file_name, file_name_of, join, joined};
use crate::wallpaper::{built, Wallpaper, WallpaperView};
use vstd::prelude::*;

verus! {

/// One thing for the caller to do.
#[derive(Debug, PartialEq, Eq)]
pub enum Action {
    /// Run a program with these arguments and wait for it to end. How it
    /// ends does not matter; failing to start it does. No shell reads the
    /// arguments: each reaches the program as it stands here.
    Run { program: String, args: Vec<String> },
    /// Start a program with these arguments and leave it running: it is
    /// neither waited for nor watched. No shell reads the arguments.
    Launch { program: String, args: Vec<String> },
    /// Remove the directory at this path with all that it holds.
    RemoveDirAll(String),
    /// Create the directory at this path, and its parents as needed.
    CreateDirAll(String),
    /// Create a symbolic link at `link` that points at `target`.
    Symlink { target: String, link: String },
}

/// An action as contracts see it.
pub enum ActionView {
    Run { program: Seq<char>, args: Seq<Seq<char>> },
    Launch { program: Seq<char>, args: Seq<Seq<char>> },
    RemoveDirAll(Seq<char>),
    CreateDirAll(Seq<char>),
    Symlink { target: Seq<char>, link: Seq<char> },
}

impl View for Action {
    type V = ActionView;

    open spec fn view(&self) -> ActionView {
        match self {
            Action::Run { program, args } => ActionView::Run {
                program: program@,
                args: args.deep_view(),
            },
            Action::Launch { program, args } => ActionView::Launch {
                program: program@,
                args: args.deep_view(),
            },
            Action::RemoveDirAll(path) => ActionView::RemoveDirAll(path@),
            Action::CreateDirAll(path) => ActionView::CreateDirAll(path@),
            Action::Symlink { target, link } => ActionView::Symlink {
                target: target@,
                link: link@,
            },
        }
    }
}

impl DeepView for Action {
    type V = ActionView;

    open spec fn deep_view(&self) -> ActionView {
        self@
    }
}

impl ActionView {
    /// The failure that an action stands for when it cannot be carried out:
    /// a command that does not start is a failure of process invocation,
    /// anything else a failure to change the file system.
    pub open spec fn failure_of(self) -> Error {
        match self {
            ActionView::Run { .. } => Error::ProcessInvocationError,
            ActionView::Launch { .. } => Error::ProcessInvocationError,
            _ => Error::FilesystemMutationError,
        }
    }
}

impl Action {
    /// What to report when this action could not be carried out.
    pub fn failure(&self) -> (r: Error)
        ensures
            r == self@.failure_of(),
    {
        match self {
            Action::Run { .. } => Error::ProcessInvocationError,
            Action::Launch { .. } => Error::ProcessInvocationError,
            _ => Error::FilesystemMutationError,
        }
    }
}

/// A plan that ends in failure: the actions to carry out, in order, and the
/// failure to report once they are done. What the actions did is not undone.
#[derive(Debug, PartialEq, Eq)]
pub struct Failed {
    pub actions: Vec<Action>,
    pub error: Error,
}

/// A failed plan as contracts see it.
pub struct FailedView {
    pub actions: Seq<ActionView>,
    pub error: Error,
}

impl View for Failed {
    type V = FailedView;

    open spec fn view(&self) -> FailedView {
        FailedView { actions: self.actions.deep_view(), error: self.error }
    }
}

/// The name of the link that stands for `asset`: the file name of its video.
pub open spec fn link_name(asset: WallpaperView) -> Option<Seq<char>> {
    file_name_of(asset.file)
}

/// Whether the asset at `k` cannot be linked once those before it are: it
/// has no link name, or an asset before it has the same.
pub open spec fn offends(catalog: Seq<WallpaperView>, k: int) -> bool {
    link_name(catalog[k]) is None || exists|j: int|
        0 <= j < k && #[trigger] link_name(catalog[j]) == link_name(catalog[k])
}

/// Whether the first `n` assets can all be linked.
pub open spec fn stageable(catalog: Seq<WallpaperView>, n: int) -> bool {
    forall|k: int| 0 <= k < n ==> !#[trigger] offends(catalog, k)
}

/// How many assets are linked: all of them, or those before the first that
/// cannot be linked.
pub open spec fn stageable_len(catalog: Seq<WallpaperView>) -> int
    decreases catalog.len(),
{
    if catalog.len() == 0 {
        0
    } else {
        let last = catalog.len() - 1;
        let before = stageable_len(catalog.drop_last());
        if before < last || offends(catalog, last) {
            before
        } else {
            catalog.len() as int
        }
    }
}

/// Why staging stops, if it stops: at the first asset that cannot be
/// linked, for want of a name or for a name that is taken.
pub open spec fn staging_error(catalog: Seq<WallpaperView>) -> Option<Error> {
    let n = stageable_len(catalog);
    if n >= catalog.len() {
        None
    } else if link_name(catalog[n]) is None {
        Some(Error::MissingFileName)
    } else {
        Some(Error::NameCollision)
    }
}

/// Where the link of `asset` stands in the directory `dir`.
pub open spec fn link_path(asset: WallpaperView, dir: Seq<char>) -> Seq<char> {
    joined(dir, link_name(asset)->0)
}

/// The action that links `asset` into the directory `dir`.
pub open spec fn link_of(asset: WallpaperView, dir: Seq<char>) -> ActionView {
    ActionView::Symlink { target: asset.file, link: link_path(asset, dir) }
}

/// One link per asset, in catalog order.
pub open spec fn links_of(catalog: Seq<WallpaperView>, dir: Seq<char>) -> Seq<ActionView> {
    Seq::new(catalog.len(), |i: int| link_of(catalog[i], dir))
}

/// The actions that leave `dir` as an empty directory: what is there is
/// destroyed, then the directory is made anew.
pub open spec fn clearing(dir: Seq<char>, exists: bool) -> Seq<ActionView> {
    if exists {
        seq![ActionView::RemoveDirAll(dir), ActionView::CreateDirAll(dir)]
    } else {
        seq![ActionView::CreateDirAll(dir)]
    }
}

/// The plan that stages `catalog` at `dir`: clear the directory, then link
/// every asset.
pub open spec fn staging(catalog: Seq<WallpaperView>, dir: Seq<char>, exists: bool) -> Seq<
    ActionView,
> {
    clearing(dir, exists) + links_of(catalog, dir)
}

/// What `generate_wallpapers` returns: the plan that stages the assets that
/// are linked, as a success if those are all, and else with the failure.
pub open spec fn generated(catalog: Seq<WallpaperView>, dir: Seq<char>, exists: bool) -> Result<
    Seq<ActionView>,
    FailedView,
> {
    let actions = staging(linked(catalog), dir, exists);
    match staging_error(catalog) {
        None => Ok(actions),
        Some(error) => Err(FailedView { actions, error }),
    }
}

/// The actions of a plan, whether it succeeds or ends in failure.
pub open spec fn planned(plan: Result<Seq<ActionView>, FailedView>) -> Seq<ActionView> {
    match plan {
        Ok(actions) => actions,
        Err(failed) => failed.actions,
    }
}

/// The assets of a catalog that are linked.
pub open spec fn linked(catalog: Seq<WallpaperView>) -> Seq<WallpaperView> {
    catalog.take(stageable_len(catalog))
}

/// Whether an asset offends depends on the assets up to it alone.
pub proof fn lemma_offends_in_prefix(catalog: Seq<WallpaperView>, n: int, k: int)
    requires
        0 <= k < n <= catalog.len(),
    ensures
        offends(catalog.take(n), k) == offends(catalog, k),
{
    let shorter = catalog.take(n);
    if offends(shorter, k) && link_name(shorter[k]) is Some {
        let j = choose|j: int|
            0 <= j < k && #[trigger] link_name(shorter[j]) == link_name(shorter[k]);
        assert(link_name(catalog[j]) == link_name(catalog[k]));
    }
    if offends(catalog, k) && link_name(catalog[k]) is Some {
        let j = choose|j: int|
            0 <= j < k && #[trigger] link_name(catalog[j]) == link_name(catalog[k]);
        assert(link_name(shorter[j]) == link_name(shorter[k]));
    }
}

/// The assets that are linked are those before the first that offends.
pub proof fn lemma_stageable_len(catalog: Seq<WallpaperView>)
    ensures
        0 <= stageable_len(catalog) <= catalog.len(),
        stageable(catalog, stageable_len(catalog)),
        stageable_len(catalog) < catalog.len() ==> offends(catalog, stageable_len(catalog)),
    decreases catalog.len(),
{
    if catalog.len() > 0 {
        let last = catalog.len() - 1;
        let shorter = catalog.drop_last();
        lemma_stageable_len(shorter);
        let before = stageable_len(shorter);
        assert(shorter =~= catalog.take(last));
        assert forall|k: int| 0 <= k < before implies !#[trigger] offends(catalog, k) by {
            lemma_offends_in_prefix(catalog, last, k);
        }
        if before < last {
            lemma_offends_in_prefix(catalog, last, before);
        }
    }
}

/// The first asset that offends decides how many are linked.
pub proof fn lemma_first_offender(catalog: Seq<WallpaperView>, n: int)
    requires
        0 <= n <= catalog.len(),
        stageable(catalog, n),
        n < catalog.len() ==> offends(catalog, n),
    ensures
        stageable_len(catalog) == n,
{
    lemma_stageable_len(catalog);
    let m = stageable_len(catalog);
    if m < n {
        assert(!offends(catalog, m));
    }
    if n < m {
        assert(!offends(catalog, n));
    }
}

/// The assets that are linked can be staged as a catalog of their own.
pub proof fn lemma_linked_are_stageable(catalog: Seq<WallpaperView>)
    ensures
        linked(catalog).len() == stageable_len(catalog),
        stageable(linked(catalog), linked(catalog).len() as int),
        staging_error(linked(catalog)) is None,
{
    lemma_stageable_len(catalog);
    let n = stageable_len(catalog);
    let kept = linked(catalog);
    assert forall|k: int| 0 <= k < n implies !#[trigger] offends(kept, k) by {
        lemma_offends_in_prefix(catalog, n, k);
        assert(!offends(catalog, k));
    }
    lemma_first_offender(kept, n);
}

/// What `Wallpaper::build` gives can always be linked: a video has an
/// extension, so it has a file name. An asset from `build` is never the
/// reason for `MissingFileName`.
pub proof fn lemma_built_asset_has_name(
    cwd: Seq<char>,
    dir: Seq<char>,
    manifest: WallpaperView,
    is_file: bool,
)
    ensures
        built(cwd, dir, manifest, is_file) matches Some(asset) ==> link_name(asset) is Some,
{
}

/// Whether `name` is among `names`.
fn is_taken(names: &Vec<String>, name: &String) -> (r: bool)
    ensures
        r == exists|j: int| 0 <= j < names.len() && #[trigger] names[j]@ == name@,
{
    let mut j: usize = 0;
    while j < names.len()
        invariant
            j <= names.len(),
            forall|k: int| 0 <= k < j ==> #[trigger] names[k]@ != name@,
        decreases names.len() - j,
    {
        if names[j] == *name {
            return true;
        }
        j += 1;
    }
    false
}

/// Lays out the farm of a catalog at `output_path`. `exists` says whether
/// anything is at that path now. The plan destroys what is there, makes the
/// directory anew, and links each asset under the file name of its video, in
/// catalog order. An asset without a file name, or with the file name of an
/// asset before it, cannot be linked: the plan then ends before its link,
/// and comes back as a failure, with `MissingFileName` or `NameCollision`.
/// The links before it are made and stay: no link is ever overwritten, and
/// no asset dropped in silence.
pub fn generate_wallpapers(wallpapers: &Vec<Wallpaper>, output_path: &str, exists: bool) -> (r:
    Result<Vec<Action>, Failed>)
    ensures
        match r {
            Ok(plan) => generated(wallpapers.deep_view(), output_path@, exists) == Ok::<
                Seq<ActionView>,
                FailedView,
            >(plan.deep_view()),
            Err(failed) => generated(wallpapers.deep_view(), output_path@, exists) == Err::<
                Seq<ActionView>,
                FailedView,
            >(failed@),
        },
{
    let ghost catalog = wallpapers.deep_view();
    let mut plan: Vec<Action> = Vec::new();
    if exists {
        plan.push(Action::RemoveDirAll(String::from_str(output_path)));
    }
    plan.push(Action::CreateDirAll(String::from_str(output_path)));
    assert(plan.deep_view() =~= clearing(output_path@, exists));
    let mut names: Vec<String> = Vec::new();
    let mut i: usize = 0;
    while i < wallpapers.len()
        invariant
            catalog == wallpapers.deep_view(),
            i <= wallpapers.len(),
            names.len() == i,
            forall|k: int| 0 <= k < i ==> link_name(#[trigger] catalog[k]) == Some(names[k]@),
            stageable(catalog, i as int),
            plan.deep_view() == staging(catalog.take(i as int), output_path@, exists),
        decreases wallpapers.len() - i,
    {
        assert(catalog[i as int].file == wallpapers[i as int].file@);
        let name: String = match file_name(wallpapers[i].file.as_str()) {
            Some(name) => name,
            None => {
                proof {
                    assert(offends(catalog, i as int));
                    lemma_first_offender(catalog, i as int);
                }
                return Err(Failed { actions: plan, error: Error::MissingFileName });
            },
        };
        if is_taken(&names, &name) {
            proof {
                let j = choose|j: int| 0 <= j < names.len() && #[trigger] names[j]@ == name@;
                assert(link_name(catalog[j]) == link_name(catalog[i as int]));
                assert(offends(catalog, i as int));
                lemma_first_offender(catalog, i as int);
            }
            return Err(Failed { actions: plan, error: Error::NameCollision });
        }
        assert(!offends(catalog, i as int)) by {
            if offends(catalog, i as int) {
                let j = choose|j: int|
                    0 <= j < i && #[trigger] link_name(catalog[j]) == link_name(
                        catalog[i as int],
                    );
                assert(names[j]@ == name@);
            }
        }
        let ghost before = plan.deep_view();
        let link: String = join(output_path, name.as_str());
        let target: String = wallpapers[i].file.clone();
        let step: Action = Action::Symlink { target, link };
        assert(step@ == link_of(catalog[i as int], output_path@));
        plan.push(step);
        names.push(name);
        assert(plan.deep_view() =~= before.push(step@));
        assert(staging(catalog.take(i + 1), output_path@, exists) =~= staging(
            catalog.take(i as int),
            output_path@,
            exists,
        ).push(step@));
        i += 1;
    }
    proof {
        lemma_first_offender(catalog, catalog.len() as int);
        assert(catalog.take(catalog.len() as int) =~= catalog);
    }
    Ok(plan)
}

} // verus!
