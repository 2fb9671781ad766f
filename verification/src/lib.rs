//! Discovery of video wallpapers laid out as directories on disk, and the
//! layout of the symlink farm that a wallpaper player consumes as a playlist.
//!
//! The library decides; it never touches the disk or a process. A caller
//! observes the file system, hands the observations over as plain values, and
//! carries out the actions that come back.
//!
//! - [`path`]: paths as text: joining, file names, extensions, parents.
//! - [`media`]: which files count as video.
//! - [`wallpaper`]: one asset and how a manifest becomes one.
//! - [`catalog`]: the assets of a root directory, in listing order.
//! - [`farm`]: the plan that stages a catalog as a directory of links.
//! - [`player`]: the plan that stages a farm and puts a new player on it.
//! - [`effect`]: what those plans do to a directory, and the laws they obey.
//! - [`error`]: why a run ends in failure.

pub mod catalog;
pub mod effect;
pub mod error;
pub mod farm;
pub mod media;
pub mod path;
pub mod player;
pub mod wallpaper;

pub use catalog::load_wallpaper;
pub use error::Error;
pub use farm::{generate_wallpapers, Action, Failed};
pub use media::is_movie_file;
pub use player::{play_playlist, play_wallpapers};
pub use wallpaper::{Reading, Wallpaper};
