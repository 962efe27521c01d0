use matrix_osu_bot::numbers::IntErrorKind;
use matrix_osu_bot::settings::{join, MatrixSettings, Settings};
use std::path::{Path, PathBuf};

fn with_dir(dir: &str) -> MatrixSettings {
    MatrixSettings {
        data_directory: dir.to_string(),
        homeserver: "https://matrix.org".to_string(),
        database_passphrase: "pass".to_string(),
        username: "bot".to_string(),
        password: "pw".to_string(),
        admin_user_id: "@you:matrix.org".to_string(),
    }
}

#[test]
fn session_and_database_paths() {
    let s = with_dir("/var/lib/bot");
    assert_eq!(s.session_file(), "/var/lib/bot/session");
    assert_eq!(s.database_directory(), "/var/lib/bot/database");
    assert_eq!(with_dir("data/").session_file(), "data/session");
    assert_eq!(with_dir("").database_directory(), "database");
    assert_ne!(s.session_file(), s.database_directory());
}

#[test]
fn join_matches_path_join() {
    for (base, comp) in [("/a", "b"), ("/a/", "b"), ("", "b"), ("a", "/b"), ("/", "x")] {
        let expected = PathBuf::from(base).join(comp);
        assert_eq!(join(base, comp), expected.to_str().unwrap());
    }
}

#[test]
fn settings_from_values() {
    let s = Settings::new("12345", "secret".to_string(), "!".to_string()).unwrap();
    assert_eq!(s.osu_client_id, 12345);
    assert_eq!(s.osu_client_secret, "secret");
    assert_eq!(s.command_prefix, "!");
    assert!(matches!(
        Settings::new("12a", "s".to_string(), "!".to_string()),
        Err(IntErrorKind::InvalidDigit)
    ));
    assert!(matches!(Settings::new("", "s".to_string(), "!".to_string()), Err(IntErrorKind::Empty)));
}

#[test]
fn store_directory_is_one_component_below() {
    for dir in ["/data", "/data/", "", ".", "./x/.", "a//b", "/"] {
        let s = with_dir(dir);
        let db = PathBuf::from(s.database_directory());
        assert!(db.starts_with(Path::new(dir)));
        assert_eq!(db.file_name().and_then(|n| n.to_str()), Some("database"));
        assert_eq!(db.components().count(), Path::new(dir).components().count() + 1);
        assert_ne!(PathBuf::from(s.session_file()), db);
    }
}
