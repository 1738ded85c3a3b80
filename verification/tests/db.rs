use pwm::app::{resolve_password, App};
use pwm::cli::{Cli, Command};
use pwm::db::DB;
use pwm::error::Error;
use pwm::store::Entry;

#[test]
fn check_file_path_accepts_pwm_files() {
    assert!(DB::check_file_path("a.pwm").is_ok());
    assert!(DB::check_file_path("dir/b.pwm").is_ok());
    assert!(DB::check_file_path("deep/er/path/c.pwm").is_ok());
    assert!(DB::check_file_path("odd..pwm").is_ok());
}

#[test]
fn check_file_path_rejects_other_paths() {
    assert_eq!(DB::check_file_path("a.txt").unwrap_err(), Error::InvalidPath);
    assert_eq!(DB::check_file_path("apwm").unwrap_err(), Error::InvalidPath);
    assert_eq!(DB::check_file_path(".pwm").unwrap_err(), Error::InvalidPath);
    assert_eq!(DB::check_file_path("dir/.pwm").unwrap_err(), Error::InvalidPath);
    assert_eq!(DB::check_file_path("dir.pwm/c").unwrap_err(), Error::InvalidPath);
    assert_eq!(DB::check_file_path("").unwrap_err(), Error::InvalidPath);
}

#[test]
fn empty_db() {
    let db = DB::new("PASSWORD");
    let file = db.create_empty("testdb.pwm", false).unwrap();
    assert_eq!(db.get_all_entries("testdb.pwm", &file).unwrap().len(), 0);
}

#[test]
fn store_password() {
    let db = DB::new("PASSWORD");
    let file = db.create_empty("testdb.pwm", false).unwrap();
    let file = db
        .add_entry(
            "testdb.pwm",
            &file,
            "example.com",
            Entry {
                username: "foo".to_string(),
                password: "bar".to_string(),
            },
        )
        .unwrap();
    let entry = db.get_entry("testdb.pwm", &file, "example.com").unwrap();
    assert_eq!(entry.username, "foo");
    assert_eq!(entry.password, "bar");
}

#[test]
fn config_empty_db() {
    // a freshly created container decrypts to an empty store
    let db = DB::new("TEST_PASS");
    let file = db.create_empty("my_test_db.pwm", false).unwrap();
    let config = pwm::config::Config::from_bytes(&file, "TEST_PASS").unwrap();
    assert_eq!(config.get_all_entries().len(), 0);
}

#[test]
fn config_store_password() {
    // seed a container with two accounts, then add a third and read it back
    let db = DB::new("TEST_PASS");
    let config = pwm::config::Config::from_pairs(vec![
        (
            "foo".to_string(),
            ("foo@gmail.com".to_string(), "pass1".to_string()),
        ),
        (
            "bar".to_string(),
            ("bar@gmail.com".to_string(), "pass2".to_string()),
        ),
    ])
    .unwrap();
    let file = config.encrypt_bytes("TEST_PASS").unwrap();
    let file = db
        .add_entry(
            "test.pwm",
            &file,
            "baz",
            Entry {
                username: "example.com".to_string(),
                password: "pass3".to_string(),
            },
        )
        .unwrap();
    let entry = db.get_entry("test.pwm", &file, "baz").unwrap();
    assert_eq!(entry.password, String::from("pass3"));
}

#[test]
fn create_twice_already_exists() {
    let db = DB::new("PASSWORD");
    let file = db.create_empty("testdb.pwm", false).unwrap();
    let again = db.create_empty("testdb.pwm", true);
    assert_eq!(again.unwrap_err(), Error::AlreadyExists);
    // the failed second call produced no new image, so the file is unchanged
    assert_eq!(db.get_all_entries("testdb.pwm", &file).unwrap().len(), 0);
}

#[test]
fn duplicate_add_keeps_first_entry() {
    let db = DB::new("PASSWORD");
    let file = db.create_empty("testdb.pwm", false).unwrap();
    let file = db
        .add_entry(
            "testdb.pwm",
            &file,
            "acct",
            Entry {
                username: "first".to_string(),
                password: "one".to_string(),
            },
        )
        .unwrap();
    let again = db.add_entry(
        "testdb.pwm",
        &file,
        "acct",
        Entry {
            username: "second".to_string(),
            password: "two".to_string(),
        },
    );
    assert_eq!(again.unwrap_err(), Error::DuplicateAccount);
    let kept = db.get_entry("testdb.pwm", &file, "acct").unwrap();
    assert_eq!(kept.username, "first");
    assert_eq!(kept.password, "one");
}

#[test]
fn invalid_path_rejected_everywhere() {
    let db = DB::new("PASSWORD");
    assert_eq!(
        db.create_empty("notes.txt", false).unwrap_err(),
        Error::InvalidPath
    );
    assert_eq!(
        db.get_all_entries("notes.txt", &[]).unwrap_err(),
        Error::InvalidPath
    );
    assert_eq!(
        db.get_entry("notes.txt", &[], "a").unwrap_err(),
        Error::InvalidPath
    );
    let entry = Entry {
        username: "u".to_string(),
        password: "p".to_string(),
    };
    assert_eq!(
        db.add_entry("notes.txt", &[], "a", entry).unwrap_err(),
        Error::InvalidPath
    );
}

#[test]
fn end_to_end_scenario() {
    // create an empty container, add one entry, then read it back under the
    // right password, the wrong password, and for a missing account
    let db = DB::new("secret");
    let file = db.create_empty("x.pwm", false).unwrap();
    let file = db
        .add_entry(
            "x.pwm",
            &file,
            "github.com",
            Entry {
                username: "me@example.com".to_string(),
                password: "hunter2".to_string(),
            },
        )
        .unwrap();

    let entry = db.get_entry("x.pwm", &file, "github.com").unwrap();
    assert_eq!(entry.username, "me@example.com");
    assert_eq!(entry.password, "hunter2");

    let wrong = DB::new("wrong");
    assert_eq!(
        wrong.get_entry("x.pwm", &file, "github.com").unwrap_err(),
        Error::DecryptionFailed
    );

    assert_eq!(
        db.get_entry("x.pwm", &file, "gitlab.com").unwrap_err(),
        Error::AccountNotFound
    );
}

#[test]
fn resolve_password_prefers_cli() {
    let r = resolve_password(Some("cli".to_string()), Some("env".to_string()));
    assert_eq!(r.unwrap(), "cli");
}

#[test]
fn resolve_password_falls_back_to_env() {
    let r = resolve_password(None, Some("env".to_string()));
    assert_eq!(r.unwrap(), "env");
}

#[test]
fn resolve_password_missing() {
    let r = resolve_password(None, None);
    assert_eq!(r.unwrap_err(), Error::MissingPassword);
}

#[test]
fn app_round_trips_its_cli() {
    let cli = Cli {
        command: Some(Command::Init {
            name: "vault".to_string(),
        }),
        password: Some("secret".to_string()),
    };
    let app = App::new(cli);
    let back = app.into_cli();
    assert_eq!(back.password.as_deref(), Some("secret"));
    match back.command {
        Some(Command::Init { name }) => assert_eq!(name, "vault"),
        _ => panic!("unexpected command"),
    }
}

#[test]
fn error_messages_are_distinct() {
    let kinds = [
        Error::AlreadyExists,
        Error::DuplicateAccount,
        Error::AccountNotFound,
        Error::DecryptionFailed,
        Error::MalformedData,
        Error::EncryptionError,
        Error::InvalidPath,
        Error::MissingPassword,
        Error::IoFailure,
    ];
    for (i, a) in kinds.iter().enumerate() {
        assert!(!a.message().is_empty());
        for b in kinds.iter().skip(i + 1) {
            assert_ne!(a.message(), b.message());
        }
    }
}
