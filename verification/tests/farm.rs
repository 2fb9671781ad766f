use wallpaper_engine::{generate_wallpapers, Action, Error, Failed, Wallpaper};

fn asset(file: &str) -> Wallpaper {
    Wallpaper {
        file: file.to_string(),
        preview_img: "/walls/preview.jpg".to_string(),
        title: "Rain".to_string(),
        wallpaper_type: "video".to_string(),
        description: None,
    }
}

fn link(target: &str, link: &str) -> Action {
    Action::Symlink { target: target.to_string(), link: link.to_string() }
}

fn remove(path: &str) -> Action {
    Action::RemoveDirAll(path.to_string())
}

fn create(path: &str) -> Action {
    Action::CreateDirAll(path.to_string())
}

#[test]
fn the_plan_clears_the_directory_and_links_each_asset() {
    let catalog = vec![asset("/walls/a/clip.mp4"), asset("/walls/b/rain.mkv")];
    let plan = generate_wallpapers(&catalog, "/tmp/farm", true).unwrap();
    let expected = vec![
        remove("/tmp/farm"),
        create("/tmp/farm"),
        link("/walls/a/clip.mp4", "/tmp/farm/clip.mp4"),
        link("/walls/b/rain.mkv", "/tmp/farm/rain.mkv"),
    ];
    assert_eq!(plan, expected);
}

#[test]
fn a_directory_that_is_not_there_is_not_removed() {
    let catalog = vec![asset("/walls/a/clip.mp4")];
    let plan = generate_wallpapers(&catalog, "/tmp/farm", false).unwrap();
    let expected = vec![create("/tmp/farm"), link("/walls/a/clip.mp4", "/tmp/farm/clip.mp4")];
    assert_eq!(plan, expected);
}

#[test]
fn an_empty_catalog_gives_an_empty_farm() {
    let plan = generate_wallpapers(&vec![], "/tmp/farm", false).unwrap();
    assert_eq!(plan, vec![create("/tmp/farm")]);
    let plan = generate_wallpapers(&vec![], "/tmp/farm", true).unwrap();
    assert_eq!(plan, vec![remove("/tmp/farm"), create("/tmp/farm")]);
}

#[test]
fn links_keep_the_order_of_the_catalog() {
    let catalog = vec![asset("/w/z.mp4"), asset("/w/a.mp4"), asset("/w/m.mp4")];
    let plan = generate_wallpapers(&catalog, "out", false).unwrap();
    let expected = vec![
        create("out"),
        link("/w/z.mp4", "out/z.mp4"),
        link("/w/a.mp4", "out/a.mp4"),
        link("/w/m.mp4", "out/m.mp4"),
    ];
    assert_eq!(plan, expected);
}

#[test]
fn the_link_is_named_by_the_final_component() {
    let catalog = vec![asset("/walls/a/clip.mp4/"), asset("rain.mkv"), asset("/w/x/./y.mp4/.")];
    let plan = generate_wallpapers(&catalog, "/farm/", false).unwrap();
    let expected = vec![
        create("/farm/"),
        link("/walls/a/clip.mp4/", "/farm/clip.mp4"),
        link("rain.mkv", "/farm/rain.mkv"),
        link("/w/x/./y.mp4/.", "/farm/y.mp4"),
    ];
    assert_eq!(plan, expected);
}

#[test]
fn a_collision_fails_behind_the_first_link() {
    let catalog = vec![asset("/R/A/clip.mp4"), asset("/R/B/clip.mp4")];
    let failed = generate_wallpapers(&catalog, "/T", true).unwrap_err();
    let expected = Failed {
        actions: vec![remove("/T"), create("/T"), link("/R/A/clip.mp4", "/T/clip.mp4")],
        error: Error::NameCollision,
    };
    assert_eq!(failed, expected);
    let failed = generate_wallpapers(&catalog, "/T", false).unwrap_err();
    let expected = Failed {
        actions: vec![create("/T"), link("/R/A/clip.mp4", "/T/clip.mp4")],
        error: Error::NameCollision,
    };
    assert_eq!(failed, expected);
}

#[test]
fn a_collision_stops_the_staging_where_it_stands() {
    let catalog = vec![
        asset("/walls/a/one.mp4"),
        asset("/walls/b/clip.mp4"),
        asset("/walls/c/two.mp4"),
        asset("/walls/d/clip.mp4"),
        asset("/walls/e/three.mp4"),
    ];
    let failed = generate_wallpapers(&catalog, "/T", true).unwrap_err();
    let expected = Failed {
        actions: vec![
            remove("/T"),
            create("/T"),
            link("/walls/a/one.mp4", "/T/one.mp4"),
            link("/walls/b/clip.mp4", "/T/clip.mp4"),
            link("/walls/c/two.mp4", "/T/two.mp4"),
        ],
        error: Error::NameCollision,
    };
    assert_eq!(failed, expected);
}

#[test]
fn the_same_asset_twice_is_a_collision() {
    let catalog = vec![asset("/walls/a/clip.mp4"), asset("/walls/a/clip.mp4")];
    let failed = generate_wallpapers(&catalog, "/T", false).unwrap_err();
    assert_eq!(failed.error, Error::NameCollision);
    assert_eq!(failed.actions, vec![create("/T"), link("/walls/a/clip.mp4", "/T/clip.mp4")]);
}

#[test]
fn names_that_differ_in_case_do_not_collide() {
    let catalog = vec![asset("/walls/a/clip.mp4"), asset("/walls/b/Clip.mp4")];
    let plan = generate_wallpapers(&catalog, "/f", false).unwrap();
    let expected = vec![
        create("/f"),
        link("/walls/a/clip.mp4", "/f/clip.mp4"),
        link("/walls/b/Clip.mp4", "/f/Clip.mp4"),
    ];
    assert_eq!(plan, expected);
}

#[test]
fn an_asset_without_a_file_name_stops_the_staging() {
    for file in ["/", "", "..", "/walls/a/..", ".", "//"] {
        let catalog = vec![asset("/walls/a/clip.mp4"), asset(file), asset("/walls/b/rain.mkv")];
        let failed = generate_wallpapers(&catalog, "/T", true).unwrap_err();
        let expected = Failed {
            actions: vec![remove("/T"), create("/T"), link("/walls/a/clip.mp4", "/T/clip.mp4")],
            error: Error::MissingFileName,
        };
        assert_eq!(failed, expected, "{:?}", file);
    }
}

#[test]
fn a_catalog_that_starts_with_a_nameless_asset_is_only_cleared() {
    let failed = generate_wallpapers(&vec![asset("/")], "/T", true).unwrap_err();
    let expected =
        Failed { actions: vec![remove("/T"), create("/T")], error: Error::MissingFileName };
    assert_eq!(failed, expected);
}

#[test]
fn the_first_asset_that_cannot_be_linked_decides_the_failure() {
    let catalog = vec![asset("/walls/a/clip.mp4"), asset("/walls/b/clip.mp4"), asset("/")];
    let failed = generate_wallpapers(&catalog, "/T", true).unwrap_err();
    assert_eq!(failed.error, Error::NameCollision);
    let catalog = vec![asset("/walls/a/clip.mp4"), asset("/"), asset("/walls/b/clip.mp4")];
    let failed = generate_wallpapers(&catalog, "/T", true).unwrap_err();
    assert_eq!(failed.error, Error::MissingFileName);
}

#[test]
fn the_same_request_gives_the_same_plan() {
    let catalog = vec![asset("/walls/a/clip.mp4"), asset("/walls/b/rain.mkv")];
    let first = generate_wallpapers(&catalog, "/tmp/farm", true);
    let second = generate_wallpapers(&catalog, "/tmp/farm", true);
    assert_eq!(first, second);
}

#[test]
fn a_failed_action_is_reported_by_its_kind() {
    let run = Action::Run { program: "pkill".to_string(), args: vec!["mpvpaper".to_string()] };
    let launch = Action::Launch { program: "mpvpaper".to_string(), args: vec![] };
    assert_eq!(run.failure(), Error::ProcessInvocationError);
    assert_eq!(launch.failure(), Error::ProcessInvocationError);
    assert_eq!(remove("/T").failure(), Error::FilesystemMutationError);
    assert_eq!(create("/T").failure(), Error::FilesystemMutationError);
    assert_eq!(link("/a/b.mp4", "/T/b.mp4").failure(), Error::FilesystemMutationError);
}
