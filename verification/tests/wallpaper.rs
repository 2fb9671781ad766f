use wallpaper_engine::{Error, Reading, Wallpaper};

fn manifest(file: &str, preview: &str) -> Wallpaper {
    Wallpaper {
        file: file.to_string(),
        preview_img: preview.to_string(),
        title: "Rain".to_string(),
        wallpaper_type: "video".to_string(),
        description: Some("Rain on a window".to_string()),
    }
}

fn parsed(file: &str, preview: &str) -> Reading {
    Reading::Parsed(manifest(file, preview))
}

fn entries(names: &[&str]) -> Vec<String> {
    names.iter().map(|n| n.to_string()).collect()
}

#[test]
fn the_manifest_is_the_first_entry_named_project_json() {
    let listing = entries(&["/w/a/clip.mp4", "/w/a/preview.jpg", "/w/a/project.json"]);
    assert_eq!(Wallpaper::find_manifest(true, &listing), Some(2));
    let listing = entries(&["/w/a/project.json", "/w/a/clip.mp4"]);
    assert_eq!(Wallpaper::find_manifest(true, &listing), Some(0));
    let listing = entries(&["/w/a/x", "/w/a/project.json", "/w/a/sub/../project.json/"]);
    assert_eq!(Wallpaper::find_manifest(true, &listing), Some(1));
}

#[test]
fn entries_may_be_given_by_name_alone() {
    let listing = entries(&["clip.mp4", "project.json"]);
    assert_eq!(Wallpaper::find_manifest(true, &listing), Some(1));
}

#[test]
fn a_directory_without_a_manifest_has_none() {
    assert_eq!(Wallpaper::find_manifest(true, &entries(&[])), None);
    let listing = entries(&["/w/a/clip.mp4", "/w/a/project.jsonx", "/w/a/Project.json"]);
    assert_eq!(Wallpaper::find_manifest(true, &listing), None);
    let listing = entries(&["/w/a/project.json/inner", "/w/a/xproject.json", "/w/a/.project.json"]);
    assert_eq!(Wallpaper::find_manifest(true, &listing), None);
}

#[test]
fn what_is_no_directory_has_no_manifest() {
    let listing = entries(&["/w/a/project.json"]);
    assert_eq!(Wallpaper::find_manifest(false, &listing), None);
    assert_eq!(Wallpaper::find_manifest(false, &entries(&[])), None);
}

#[test]
fn build_resolves_both_paths_against_the_directory() {
    let built = Wallpaper::build("/home/me", "/walls/a", parsed("clip.mp4", "preview.jpg"), true);
    let expected = Wallpaper {
        file: "/walls/a/clip.mp4".to_string(),
        preview_img: "/walls/a/preview.jpg".to_string(),
        title: "Rain".to_string(),
        wallpaper_type: "video".to_string(),
        description: Some("Rain on a window".to_string()),
    };
    assert_eq!(built, Ok(Some(expected)));
}

#[test]
fn build_keeps_what_the_manifest_says() {
    let mut raw = manifest("media/clip.mkv", "media/p.png");
    raw.description = None;
    raw.wallpaper_type = "scene".to_string();
    raw.title = String::new();
    let built = Wallpaper::build("/", "/walls/a/", Reading::Parsed(raw), true).unwrap().unwrap();
    assert_eq!(built.file, "/walls/a/media/clip.mkv");
    assert_eq!(built.preview_img, "/walls/a/media/p.png");
    assert_eq!(built.title, "");
    assert_eq!(built.wallpaper_type, "scene");
    assert_eq!(built.description, None);
}

#[test]
fn built_paths_are_absolute_and_lie_under_the_directory() {
    for dir in ["/walls/a", "/walls/a/", "/", "/w/./x"] {
        for file in ["clip.mp4", "sub/clip.MKV", "./clip.mp4"] {
            let reading = parsed(file, "p/preview.jpg");
            let built = Wallpaper::build("/home/me", dir, reading, true).unwrap().unwrap();
            assert!(built.file.starts_with('/'));
            assert!(built.file.starts_with(dir));
            assert!(built.file.ends_with(file));
            assert!(built.preview_img.starts_with('/'));
            assert!(built.preview_img.starts_with(dir));
            assert!(built.preview_img.ends_with("p/preview.jpg"));
        }
    }
}

#[test]
fn a_relative_directory_is_taken_under_the_working_directory() {
    let reading = parsed("clip.mp4", "preview.jpg");
    let built = Wallpaper::build("/home/me", "assets/A", reading, true).unwrap().unwrap();
    assert_eq!(built.file, "/home/me/assets/A/clip.mp4");
    assert_eq!(built.preview_img, "/home/me/assets/A/preview.jpg");
    let reading = parsed("clip.mp4", "preview.jpg");
    let built = Wallpaper::build("/home/me/", "", reading, true).unwrap().unwrap();
    assert_eq!(built.file, "/home/me/clip.mp4");
    assert_eq!(built.preview_img, "/home/me/preview.jpg");
    let reading = parsed("clip.mp4", "preview.jpg");
    let built = Wallpaper::build("/", "./A", reading, true).unwrap().unwrap();
    assert_eq!(built.file, "/./A/clip.mp4");
}

#[test]
fn without_an_absolute_directory_there_is_no_asset() {
    let reading = parsed("clip.mp4", "preview.jpg");
    assert_eq!(Wallpaper::build("home/me", "assets/A", reading, true), Ok(None));
    let reading = parsed("clip.mp4", "preview.jpg");
    assert_eq!(Wallpaper::build("", "", reading, true), Ok(None));
}

#[test]
fn a_path_that_starts_at_the_root_yields_no_asset() {
    let reading = parsed("/V/x.mp4", "preview.jpg");
    assert_eq!(Wallpaper::build("/", "/R/A", reading, true), Ok(None));
    let reading = parsed("clip.mp4", "/img/p.jpg");
    assert_eq!(Wallpaper::build("/", "/R/A", reading, true), Ok(None));
    let reading = parsed("/R/A/clip.mp4", "/R/A/p.jpg");
    assert_eq!(Wallpaper::build("/", "/R/A", reading, true), Ok(None));
}

#[test]
fn build_skips_a_manifest_whose_file_is_no_video() {
    for file in ["image.png", "clip", "", "clip.mp3"] {
        let reading = parsed(file, "preview.mp4");
        assert_eq!(Wallpaper::build("/", "/walls/b", reading, true), Ok(None), "{:?}", file);
    }
}

#[test]
fn build_skips_a_video_that_is_not_there() {
    let reading = parsed("clip.mp4", "preview.jpg");
    assert_eq!(Wallpaper::build("/", "/walls/a", reading, false), Ok(None));
}

#[test]
fn a_directory_without_a_manifest_yields_nothing() {
    assert_eq!(Wallpaper::build("/", "/walls/a", Reading::Absent, true), Ok(None));
    assert_eq!(Wallpaper::build("/", "/walls/a", Reading::Absent, false), Ok(None));
    assert_eq!(Wallpaper::build("", "walls", Reading::Absent, false), Ok(None));
}

#[test]
fn a_manifest_that_cannot_be_read_is_a_failure() {
    let failed = Err(Error::ManifestParseError);
    assert_eq!(Wallpaper::build("/", "/walls/a", Reading::Malformed, true), failed);
    assert_eq!(Wallpaper::build("/", "/walls/a", Reading::Malformed, false), failed);
    assert_eq!(Wallpaper::build("", "walls", Reading::Malformed, false), failed);
}

#[test]
fn the_media_path_lies_under_the_absolute_directory() {
    let raw = manifest("clip.mp4", "preview.jpg");
    assert_eq!(
        Wallpaper::media_path("/home/me", "/walls/a", &raw),
        Some("/walls/a/clip.mp4".to_string())
    );
    assert_eq!(
        Wallpaper::media_path("/home/me", "walls/a", &raw),
        Some("/home/me/walls/a/clip.mp4".to_string())
    );
    assert_eq!(Wallpaper::media_path("home/me", "walls/a", &raw), None);
    assert_eq!(Wallpaper::media_path("/", "/walls/a", &manifest("/clip.mp4", "p.jpg")), None);
    assert_eq!(Wallpaper::media_path("/", "/walls/a", &manifest("clip.mp4", "/p.jpg")), None);
    let other = manifest("image.png", "p.jpg");
    assert_eq!(
        Wallpaper::media_path("/", "/walls/b", &other),
        Some("/walls/b/image.png".to_string())
    );
}

#[test]
fn the_notice_names_the_path_and_the_reason() {
    assert_eq!(
        Wallpaper::skip_notice("/", "/walls/b", &manifest("image.png", "p.jpg")),
        "/walls/b/image.png is not video, now only support video file wallpaper!"
    );
    assert_eq!(
        Wallpaper::skip_notice("/home/me", "walls/b", &manifest("image.png", "p.jpg")),
        "/home/me/walls/b/image.png is not video, now only support video file wallpaper!"
    );
    assert_eq!(
        Wallpaper::skip_notice("/", "/walls/b", &manifest("/V/x.mp4", "p.jpg")),
        "/V/x.mp4 lies outside the wallpaper directory"
    );
    assert_eq!(
        Wallpaper::skip_notice("/", "/walls/b", &manifest("x.mp4", "/img/p.jpg")),
        "/img/p.jpg lies outside the wallpaper directory"
    );
    assert_eq!(
        Wallpaper::skip_notice("me", "walls/b", &manifest("x.mp4", "p.jpg")),
        "me/walls/b is not an absolute directory"
    );
}

#[test]
fn a_clone_is_equal_to_what_it_was_made_from() {
    let with = manifest("clip.mp4", "preview.jpg");
    assert_eq!(with.clone(), with);
    let mut without = manifest("a/b.mkv", "");
    without.description = None;
    let copy = without.clone();
    assert_eq!(copy, without);
    assert_eq!(copy.description, None);
    assert_eq!(copy.file, "a/b.mkv");
}
