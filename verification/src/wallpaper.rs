//! One wallpaper: a video file and what its manifest says of it.

use crate::error::Error;
use crate::media::{is_movie, is_movie_file, is_video_extension};
use crate::path::{
    absolute, extension_of, file_name, file_name_of, is_absolute, join, joined,
    lemma_joined_is_rooted, lemma_joined_keeps_name_of_path,
};
use vstd::prelude::*;

verus! {

/// A wallpaper as its manifest describes it. In a manifest `file` and
/// `preview_img` are relative to the directory that holds the manifest; in
/// an asset, as `build` gives it, they are absolute and lie under that
/// directory.
#[derive(Debug, PartialEq, Eq)]
pub struct Wallpaper {
    /// Path of the video.
    pub file: String,
    /// Path of a still image that stands for the video.
    pub preview_img: String,
    /// Display name.
    pub title: String,
    /// A tag that is carried along and never read.
    pub wallpaper_type: String,
    /// Free text.
    pub description: Option<String>,
}

/// A wallpaper as contracts see it.
pub struct WallpaperView {
    pub file: Seq<char>,
    pub preview_img: Seq<char>,
    pub title: Seq<char>,
    pub wallpaper_type: Seq<char>,
    pub description: Option<Seq<char>>,
}

impl View for Wallpaper {
    type V = WallpaperView;

    open spec fn view(&self) -> WallpaperView {
        WallpaperView {
            file: self.file@,
            preview_img: self.preview_img@,
            title: self.title@,
            wallpaper_type: self.wallpaper_type@,
            description: match self.description {
                Some(text) => Some(text@),
                None => None,
            },
        }
    }
}

impl DeepView for Wallpaper {
    type V = WallpaperView;

    open spec fn deep_view(&self) -> WallpaperView {
        self@
    }
}

impl Clone for Wallpaper {
    fn clone(&self) -> (r: Wallpaper)
        ensures
            r@ == self@,
    {
        Wallpaper {
            file: self.file.clone(),
            preview_img: self.preview_img.clone(),
            title: self.title.clone(),
            wallpaper_type: self.wallpaper_type.clone(),
            description: match &self.description {
                Some(text) => Some(text.clone()),
                None => None,
            },
        }
    }
}

/// The name under which an asset directory keeps its manifest.
pub open spec fn manifest_name() -> Seq<char> {
    "project.json"@
}

/// Whether the directory entry at `entry` is a manifest, by its name.
pub open spec fn names_manifest(entry: Seq<char>) -> bool {
    file_name_of(entry) == Some(manifest_name())
}

/// What reading the manifest of an asset directory gave.
#[derive(Debug, PartialEq, Eq)]
pub enum Reading {
    /// The directory holds no manifest, or is no directory.
    Absent,
    /// The manifest is there but cannot be read as one.
    Malformed,
    /// The manifest, with its paths as they stand in it.
    Parsed(Wallpaper),
}

/// A reading as contracts see it.
pub enum ReadingView {
    Absent,
    Malformed,
    Parsed(WallpaperView),
}

impl View for Reading {
    type V = ReadingView;

    open spec fn view(&self) -> ReadingView {
        match self {
            Reading::Absent => ReadingView::Absent,
            Reading::Malformed => ReadingView::Malformed,
            Reading::Parsed(manifest) => ReadingView::Parsed(manifest@),
        }
    }
}

/// The asset directory as an absolute path: `dir` as it is if it is
/// absolute, else `dir` under the working directory `cwd`.
pub open spec fn asset_dir(cwd: Seq<char>, dir: Seq<char>) -> Seq<char> {
    joined(cwd, dir)
}

/// Whether a manifest can be resolved in the directory `base`: the
/// directory is absolute, and both paths of the manifest are relative, so
/// that neither leads out of the directory by its root.
pub open spec fn resolves(base: Seq<char>, manifest: WallpaperView) -> bool {
    is_absolute(base) && !is_absolute(manifest.file) && !is_absolute(manifest.preview_img)
}

/// Where the video of a manifest lies, if the manifest can be resolved.
pub open spec fn media_path_of(cwd: Seq<char>, dir: Seq<char>, manifest: WallpaperView) -> Option<
    Seq<char>,
> {
    if resolves(asset_dir(cwd, dir), manifest) {
        Some(joined(asset_dir(cwd, dir), manifest.file))
    } else {
        None
    }
}

/// A manifest with both of its paths resolved against the directory `base`.
pub open spec fn resolved(base: Seq<char>, manifest: WallpaperView) -> WallpaperView {
    WallpaperView {
        file: joined(base, manifest.file),
        preview_img: joined(base, manifest.preview_img),
        title: manifest.title,
        wallpaper_type: manifest.wallpaper_type,
        description: manifest.description,
    }
}

/// The asset that a manifest in `dir` stands for: the manifest resolved in
/// the absolute asset directory, if it can be resolved there and the file it
/// names is a video.
pub open spec fn built(
    cwd: Seq<char>,
    dir: Seq<char>,
    manifest: WallpaperView,
    is_file: bool,
) -> Option<WallpaperView> {
    let base = asset_dir(cwd, dir);
    if resolves(base, manifest) && is_movie(joined(base, manifest.file), is_file) {
        Some(resolved(base, manifest))
    } else {
        None
    }
}

/// What an asset directory yields: nothing without a manifest, a failure
/// for a manifest that cannot be read, and else what the manifest stands
/// for.
pub open spec fn loaded_asset(
    cwd: Seq<char>,
    dir: Seq<char>,
    reading: ReadingView,
    is_file: bool,
) -> Result<Option<WallpaperView>, Error> {
    match reading {
        ReadingView::Absent => Ok(None),
        ReadingView::Malformed => Err(Error::ManifestParseError),
        ReadingView::Parsed(manifest) => Ok(built(cwd, dir, manifest, is_file)),
    }
}

/// What to tell the operator of a manifest that yields no asset.
pub open spec fn skip_notice_of(cwd: Seq<char>, dir: Seq<char>, manifest: WallpaperView) -> Seq<
    char,
> {
    let base = asset_dir(cwd, dir);
    if !is_absolute(base) {
        base + " is not an absolute directory"@
    } else if is_absolute(manifest.file) {
        manifest.file + " lies outside the wallpaper directory"@
    } else if is_absolute(manifest.preview_img) {
        manifest.preview_img + " lies outside the wallpaper directory"@
    } else {
        joined(base, manifest.file) + " is not video, now only support video file wallpaper!"@
    }
}

/// Every asset has absolute paths that lie under its asset directory, and
/// says of itself what its manifest says.
pub proof fn lemma_built_paths_are_rooted(
    cwd: Seq<char>,
    dir: Seq<char>,
    manifest: WallpaperView,
    is_file: bool,
)
    ensures
        built(cwd, dir, manifest, is_file) matches Some(asset) ==> {
            &&& is_absolute(asset.file)
            &&& asset_dir(cwd, dir).is_prefix_of(asset.file)
            &&& is_absolute(asset.preview_img)
            &&& asset_dir(cwd, dir).is_prefix_of(asset.preview_img)
            &&& is_absolute(dir) ==> dir.is_prefix_of(asset.file) && dir.is_prefix_of(
                asset.preview_img,
            )
            &&& asset.title == manifest.title
            &&& asset.wallpaper_type == manifest.wallpaper_type
            &&& asset.description == manifest.description
        },
{
    let base = asset_dir(cwd, dir);
    if resolves(base, manifest) {
        lemma_joined_is_rooted(base, manifest.file);
        lemma_joined_is_rooted(base, manifest.preview_img);
    }
}

/// A manifest with relative paths that names a video which is there yields
/// an asset, whether the asset directory is given as an absolute path or
/// relative to an absolute working directory.
pub proof fn lemma_video_is_built(
    cwd: Seq<char>,
    dir: Seq<char>,
    manifest: WallpaperView,
    is_file: bool,
)
    requires
        is_absolute(cwd) || is_absolute(dir),
        !is_absolute(manifest.file),
        !is_absolute(manifest.preview_img),
        is_movie(manifest.file, is_file),
    ensures
        built(cwd, dir, manifest, is_file) is Some,
{
    if !is_absolute(dir) {
        lemma_joined_is_rooted(cwd, dir);
    }
    lemma_joined_keeps_name_of_path(asset_dir(cwd, dir), manifest.file);
}

/// A manifest that names a file without the extension of a video yields no
/// asset, whether or not the file is there.
pub proof fn lemma_other_files_are_skipped(
    cwd: Seq<char>,
    dir: Seq<char>,
    manifest: WallpaperView,
    is_file: bool,
)
    requires
        file_name_of(manifest.file) is Some,
        match extension_of(manifest.file) {
            Some(ext) => !is_video_extension(ext),
            None => true,
        },
    ensures
        built(cwd, dir, manifest, is_file) is None,
        loaded_asset(cwd, dir, ReadingView::Parsed(manifest), is_file) == Ok::<
            Option<WallpaperView>,
            Error,
        >(None),
{
    lemma_joined_keeps_name_of_path(asset_dir(cwd, dir), manifest.file);
}

/// A manifest with a path that starts at the root yields no asset: no path
/// of an asset leads out of its directory that way.
pub proof fn lemma_rooted_manifest_is_skipped(
    cwd: Seq<char>,
    dir: Seq<char>,
    manifest: WallpaperView,
    is_file: bool,
)
    requires
        is_absolute(manifest.file) || is_absolute(manifest.preview_img),
    ensures
        built(cwd, dir, manifest, is_file) is None,
{
}

impl Wallpaper {
    /// Picks the manifest among the entries of an asset directory, given in
    /// listing order by their paths: the first entry named `project.json`.
    /// Nothing is picked where the path that was listed is no directory.
    pub fn find_manifest(is_dir: bool, entries: &Vec<String>) -> (r: Option<usize>)
        ensures
            match r {
                Some(i) => {
                    &&& is_dir
                    &&& i < entries.len()
                    &&& names_manifest(entries[i as int]@)
                    &&& forall|j: int| 0 <= j < i ==> !names_manifest(entries[j]@)
                },
                None => !is_dir || forall|j: int|
                    0 <= j < entries.len() ==> !names_manifest(entries[j]@),
            },
    {
        if !is_dir {
            return None;
        }
        let wanted: String = String::from_str("project.json");
        let mut i: usize = 0;
        while i < entries.len()
            invariant
                is_dir,
                i <= entries.len(),
                wanted@ == manifest_name(),
                forall|j: int| 0 <= j < i ==> !names_manifest(entries[j]@),
            decreases entries.len() - i,
        {
            match file_name(entries[i].as_str()) {
                Some(name) => {
                    if name == wanted {
                        return Some(i);
                    }
                },
                None => {},
            }
            i += 1;
        }
        None
    }

    /// Where the video of `manifest` is to be looked for on disk: under the
    /// asset directory `dir_path`, itself taken under the working directory
    /// `cwd` if it is relative. There is no such place for a manifest that
    /// cannot be resolved.
    pub fn media_path(cwd: &str, dir_path: &str, manifest: &Wallpaper) -> (r: Option<String>)
        ensures
            r.deep_view() == media_path_of(cwd@, dir_path@, manifest@),
    {
        let base: String = join(cwd, dir_path);
        if !absolute(base.as_str()) || absolute(manifest.file.as_str()) || absolute(
            manifest.preview_img.as_str(),
        ) {
            return None;
        }
        Some(join(base.as_str(), manifest.file.as_str()))
    }

    /// Turns what was read in the asset directory `dir_path` into an asset.
    /// `cwd` is the absolute working directory, against which a relative
    /// `dir_path` is taken. `is_file` says whether the path that
    /// `media_path` gives is a regular file on disk. Both paths of the
    /// manifest are resolved against the absolute asset directory. A
    /// manifest that cannot be read is a failure. A directory without a
    /// manifest yields nothing, and so does a manifest with a path that
    /// starts at the root, or whose file is no video.
    pub fn build(cwd: &str, dir_path: &str, reading: Reading, is_file: bool) -> (r: Result<
        Option<Wallpaper>,
        Error,
    >)
        ensures
            match r {
                Ok(asset) => loaded_asset(cwd@, dir_path@, reading@, is_file) == Ok::<
                    Option<WallpaperView>,
                    Error,
                >(asset.deep_view()),
                Err(e) => loaded_asset(cwd@, dir_path@, reading@, is_file) == Err::<
                    Option<WallpaperView>,
                    Error,
                >(e),
            },
    {
        let manifest: Wallpaper = match reading {
            Reading::Absent => {
                return Ok(None);
            },
            Reading::Malformed => {
                return Err(Error::ManifestParseError);
            },
            Reading::Parsed(manifest) => manifest,
        };
        let file: String = match Wallpaper::media_path(cwd, dir_path, &manifest) {
            Some(file) => file,
            None => {
                return Ok(None);
            },
        };
        if !is_movie_file(file.as_str(), is_file) {
            return Ok(None);
        }
        let base: String = join(cwd, dir_path);
        let preview_img: String = join(base.as_str(), manifest.preview_img.as_str());
        Ok(
            Some(
                Wallpaper {
                    file,
                    preview_img,
                    title: manifest.title,
                    wallpaper_type: manifest.wallpaper_type,
                    description: manifest.description,
                },
            ),
        )
    }

    /// What to tell the operator of a manifest that yields no asset: which
    /// path was turned down, and why.
    pub fn skip_notice(cwd: &str, dir_path: &str, manifest: &Wallpaper) -> (r: String)
        ensures
            r@ == skip_notice_of(cwd@, dir_path@, manifest@),
    {
        let base: String = join(cwd, dir_path);
        if !absolute(base.as_str()) {
            base.concat(" is not an absolute directory")
        } else if absolute(manifest.file.as_str()) {
            manifest.file.clone().concat(" lies outside the wallpaper directory")
        } else if absolute(manifest.preview_img.as_str()) {
            manifest.preview_img.clone().concat(" lies outside the wallpaper directory")
        } else {
            join(base.as_str(), manifest.file.as_str()).concat(
                " is not video, now only support video file wallpaper!",
            )
        }
    }
}

} // verus!
