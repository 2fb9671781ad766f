use std::path::Path;

use wallpaper_engine::path::{file_name, parent};
use wallpaper_engine::player::staging_dir;
use wallpaper_engine::{play_playlist, play_wallpapers, Action, Error, Failed, Wallpaper};

fn asset(file: &str) -> Wallpaper {
    Wallpaper {
        file: file.to_string(),
        preview_img: "/walls/preview.jpg".to_string(),
        title: "Rain".to_string(),
        wallpaper_type: "video".to_string(),
        description: None,
    }
}

fn kill() -> Action {
    Action::Run { program: "pkill".to_string(), args: vec!["mpvpaper".to_string()] }
}

fn launch(options: &str, dir: &str) -> Action {
    Action::Launch {
        program: "mpvpaper".to_string(),
        args: vec!["*".to_string(), "-o".to_string(), options.to_string(), dir.to_string()],
    }
}

#[test]
fn a_rotation_stops_the_players_and_starts_one_with_sound() {
    assert_eq!(
        play_playlist("/home/me/wallpaper_temp", false),
        vec![kill(), launch(" --loop-playlist shuffle", "/home/me/wallpaper_temp")]
    );
}

#[test]
fn a_rotation_stops_the_players_and_starts_one_muted() {
    assert_eq!(
        play_playlist("/home/me/wallpaper_temp", true),
        vec![kill(), launch("no-audio --loop-playlist shuffle", "/home/me/wallpaper_temp")]
    );
}

#[test]
fn the_player_gets_the_directory_as_it_stands() {
    for dir in ["", "my walls/é", "/R/it's; touch x/wallpaper_temp", "$(reboot)", "a'b'c", "-x"] {
        let plan = play_playlist(dir, true);
        assert_eq!(plan.len(), 2);
        assert_eq!(plan[0], kill());
        match &plan[1] {
            Action::Launch { program, args } => {
                assert_eq!(program, "mpvpaper");
                assert_eq!(args.len(), 4);
                assert_eq!(args[0], "*");
                assert_eq!(args[1], "-o");
                assert_eq!(args[2], "no-audio --loop-playlist shuffle");
                assert_eq!(args[3], dir);
            },
            other => panic!("{:?} is no launch", other),
        }
    }
}

#[test]
fn the_farm_is_staged_beside_the_root() {
    assert_eq!(staging_dir("/home/me/walls"), Some("/home/me/wallpaper_temp".to_string()));
    assert_eq!(staging_dir("/home/me/walls/"), Some("/home/me/wallpaper_temp".to_string()));
    assert_eq!(staging_dir("/walls"), Some("/wallpaper_temp".to_string()));
    assert_eq!(staging_dir("walls"), Some("wallpaper_temp".to_string()));
    assert_eq!(staging_dir("./walls"), Some("./wallpaper_temp".to_string()));
    assert_eq!(staging_dir("me/walls"), Some("me/wallpaper_temp".to_string()));
    assert_eq!(staging_dir("."), Some("wallpaper_temp".to_string()));
}

#[test]
fn a_root_without_a_parent_has_no_staging_directory() {
    assert_eq!(staging_dir("/"), None);
    assert_eq!(staging_dir(""), None);
    assert_eq!(staging_dir("//"), None);
}

#[test]
fn playing_stages_the_farm_and_then_turns_the_player() {
    let catalog = vec![asset("/home/me/walls/a/clip.mp4"), asset("/home/me/walls/b/rain.mkv")];
    let plan = play_wallpapers("/home/me/walls", &catalog, true, true).unwrap();
    let expected = vec![
        Action::RemoveDirAll("/home/me/wallpaper_temp".to_string()),
        Action::CreateDirAll("/home/me/wallpaper_temp".to_string()),
        Action::Symlink {
            target: "/home/me/walls/a/clip.mp4".to_string(),
            link: "/home/me/wallpaper_temp/clip.mp4".to_string(),
        },
        Action::Symlink {
            target: "/home/me/walls/b/rain.mkv".to_string(),
            link: "/home/me/wallpaper_temp/rain.mkv".to_string(),
        },
        kill(),
        launch("no-audio --loop-playlist shuffle", "/home/me/wallpaper_temp"),
    ];
    assert_eq!(plan, expected);
}

#[test]
fn a_first_playing_has_nothing_to_remove() {
    let plan = play_wallpapers("walls", &vec![], false, false).unwrap();
    let expected = vec![
        Action::CreateDirAll("wallpaper_temp".to_string()),
        kill(),
        launch(" --loop-playlist shuffle", "wallpaper_temp"),
    ];
    assert_eq!(plan, expected);
}

#[test]
fn a_root_without_a_parent_cannot_be_played() {
    let nothing = Failed { actions: vec![], error: Error::NoStagingDirectory };
    let catalog = vec![asset("/a/clip.mp4")];
    assert_eq!(play_wallpapers("/", &catalog, true, true), Err(nothing));
    let nothing = Failed { actions: vec![], error: Error::NoStagingDirectory };
    assert_eq!(play_wallpapers("", &catalog, false, false), Err(nothing));
    let nothing = Failed { actions: vec![], error: Error::NoStagingDirectory };
    assert_eq!(play_wallpapers("/", &vec![], true, false), Err(nothing));
}

#[test]
fn a_staging_that_fails_touches_no_player() {
    let colliding = vec![asset("/a/clip.mp4"), asset("/b/clip.mp4")];
    let failed = play_wallpapers("/home/me/walls", &colliding, true, true).unwrap_err();
    let expected = Failed {
        actions: vec![
            Action::RemoveDirAll("/home/me/wallpaper_temp".to_string()),
            Action::CreateDirAll("/home/me/wallpaper_temp".to_string()),
            Action::Symlink {
                target: "/a/clip.mp4".to_string(),
                link: "/home/me/wallpaper_temp/clip.mp4".to_string(),
            },
        ],
        error: Error::NameCollision,
    };
    assert_eq!(failed, expected);
    let nameless = vec![asset("/"), asset("/a/clip.mp4")];
    let failed = play_wallpapers("/home/me/walls", &nameless, false, false).unwrap_err();
    let expected = Failed {
        actions: vec![Action::CreateDirAll("/home/me/wallpaper_temp".to_string())],
        error: Error::MissingFileName,
    };
    assert_eq!(failed, expected);
}

#[test]
fn the_staging_directory_agrees_with_std_on_short_roots() {
    let alphabet = ['/', '.', 'a'];
    let mut roots: Vec<String> = vec![String::new()];
    let mut last: Vec<String> = vec![String::new()];
    for _ in 0..7 {
        let mut next: Vec<String> = Vec::new();
        for text in &last {
            for c in alphabet {
                let mut longer = text.clone();
                longer.push(c);
                next.push(longer);
            }
        }
        roots.extend(next.iter().cloned());
        last = next;
    }
    for root in roots {
        let expected = Path::new(&root)
            .parent()
            .map(|beside| beside.join("wallpaper_temp").to_str().unwrap().to_string());
        let staged = staging_dir(&root);
        assert_eq!(staged, expected, "{:?}", root);
        if let Some(dir) = staged {
            assert_eq!(parent(&dir), parent(&root), "{:?}", root);
            assert_eq!(file_name(&dir), Some("wallpaper_temp".to_string()), "{:?}", root);
        }
    }
}
