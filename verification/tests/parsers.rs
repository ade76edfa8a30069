//! Tests for the pure parsing and ordering functions, the exit-status
//! interpretation, and the key-discovery helpers.

use spurs::errors::i32_dec;
use spurs::errors::SshError;
use spurs::ssh::classify_auth_error;
use spurs::ssh::default_key_path;
use spurs::ssh::AUTH_REJECTED_CODE;
use spurs::ssh::KEY_UNVERIFIED_CODE;
use spurs::ssh::interpret_exit_status;
use spurs::ssh::private_key_candidates;
use spurs::ssh::resolve_default_key;
use spurs::ssh::SshCommand;
use spurs::util::insert_sorted;
use spurs::util::listed_names;
use spurs::util::parse_mounted;
use spurs::util::parse_second_line;
use spurs::util::split_columns;
use spurs::util::split_lines;
use spurs::util::str_lt;
use spurs::util::trim_blanks;

#[test]
fn test_split_lines() {
    assert_eq!(split_lines(""), Vec::<String>::new());
    assert_eq!(split_lines("a"), vec!["a".to_owned()]);
    assert_eq!(split_lines("a\n"), vec!["a".to_owned()]);
    assert_eq!(split_lines("a\n\nb"), vec!["a".to_owned(), "".to_owned(), "b".to_owned()]);
    assert_eq!(split_lines("a\r\nb\r\n"), vec!["a".to_owned(), "b".to_owned()]);
    assert_eq!(split_lines("\n"), vec!["".to_owned()]);
}

#[test]
fn test_trim_blanks() {
    assert_eq!(trim_blanks(""), "");
    assert_eq!(trim_blanks("   "), "");
    assert_eq!(trim_blanks("  a b  "), "a b");
    assert_eq!(trim_blanks("\t x\r\n"), "x");
}

#[test]
fn test_split_columns() {
    assert_eq!(split_columns(""), Vec::<String>::new());
    assert_eq!(split_columns("  "), Vec::<String>::new());
    assert_eq!(split_columns("foo  /mnt/foo"), vec!["foo".to_owned(), "/mnt/foo".to_owned()]);
    assert_eq!(split_columns(" a\tb c "), vec!["a".to_owned(), "b".to_owned(), "c".to_owned()]);
}

#[test]
fn test_listed_names_skips_header() {
    // Device name listing: column header, the device's own name, then the
    // partitions.
    let names = listed_names("KNAME\nfoobar\nfoo\nbar\nbaz\n", 2);
    assert_eq!(names, vec!["foo".to_owned(), "bar".to_owned(), "baz".to_owned()]);
    assert_eq!(listed_names("KNAME\nfoobar", 2), Vec::<String>::new());
    assert_eq!(listed_names("", 2), Vec::<String>::new());
    assert_eq!(listed_names("KNAME\n  a \n b\n", 1), vec!["a".to_owned(), "b".to_owned()]);
}

#[test]
fn test_parse_mounted_skips_and_dedups() {
    let out = "KNAME MOUNTPOINT\nfoobar\nfoo  /mnt/foo\nbar  /mnt/bar\nbaz\nsdb\nsdc";
    assert_eq!(
        parse_mounted(out),
        vec![
            ("foo".to_owned(), "/mnt/foo".to_owned()),
            ("bar".to_owned(), "/mnt/bar".to_owned())
        ]
    );
    // A repeated device name is reported once, with its first mountpoint.
    let out = "KNAME MOUNTPOINT\nfoo /a\nfoo /b\nbar /c";
    assert_eq!(
        parse_mounted(out),
        vec![("foo".to_owned(), "/a".to_owned()), ("bar".to_owned(), "/c".to_owned())]
    );
    assert_eq!(parse_mounted(""), Vec::<(String, String)>::new());
}

#[test]
fn test_parse_second_line() {
    assert_eq!(parse_second_line("SIZE\n477G"), Some("477G".to_owned()));
    assert_eq!(parse_second_line("SIZE\n  477G \nmore"), Some("477G".to_owned()));
    assert_eq!(parse_second_line("SIZE"), None);
    assert_eq!(parse_second_line(""), None);
}

#[test]
fn test_str_lt() {
    assert!(str_lt("a", "b"));
    assert!(!str_lt("b", "a"));
    assert!(!str_lt("a", "a"));
    assert!(str_lt("a", "ab"));
    assert!(!str_lt("ab", "a"));
    assert!(str_lt("", "a"));
    assert!(str_lt("bar", "baz"));
}

#[test]
fn test_fstab_append_command() {
    assert_eq!(
        spurs::util::fstab_append_command("UUID=1fb958bf-de7e-428a-a0b7-a598f22e96fa", "/mnt/point/"),
        SshCommand::make_cmd(
            r#"echo "UUID=1fb958bf-de7e-428a-a0b7-a598f22e96fa    /mnt/point/    ext4    defaults    0    1" | sudo tee -a /etc/fstab"#,
            None,
            false,
            false,
            false,
            false,
        )
    );
}

#[test]
fn test_sorted_unique_of() {
    let names = vec![
        "foobar".to_owned(),
        "foo".to_owned(),
        "bar".to_owned(),
        "baz".to_owned(),
        "foo".to_owned(),
    ];
    assert_eq!(
        spurs::util::sorted_unique_of(names),
        vec!["bar".to_owned(), "baz".to_owned(), "foo".to_owned(), "foobar".to_owned()]
    );
}

#[test]
fn test_sorted_device_names() {
    assert_eq!(
        spurs::util::sorted_device_names("KNAME\nfoobar\nfoo\nbar\nbaz\nsdb\nsdc"),
        vec![
            "bar".to_owned(),
            "baz".to_owned(),
            "foo".to_owned(),
            "foobar".to_owned(),
            "sdb".to_owned(),
            "sdc".to_owned()
        ]
    );
}

#[test]
fn test_insert_sorted() {
    let mut v: Vec<String> = Vec::new();
    insert_sorted(&mut v, "foo".to_owned());
    insert_sorted(&mut v, "bar".to_owned());
    insert_sorted(&mut v, "baz".to_owned());
    insert_sorted(&mut v, "bar".to_owned());
    assert_eq!(v, vec!["bar".to_owned(), "baz".to_owned(), "foo".to_owned()]);
}

#[test]
fn test_interpret_exit_status_tolerated() {
    // A command that allows errors reports its captured output even for a
    // non-zero exit.
    let r = interpret_exit_status("cmd".to_owned(), true, 7, "out".to_owned(), "err".to_owned());
    let out = r.unwrap();
    assert_eq!(out.stdout, "out");
    assert_eq!(out.stderr, "err");
}

#[test]
fn test_interpret_exit_status_zero() {
    let r = interpret_exit_status("cmd".to_owned(), false, 0, "out".to_owned(), String::new());
    assert_eq!(r.unwrap().stdout, "out");
}

#[test]
fn test_interpret_exit_status_error() {
    let r = interpret_exit_status("the cmd".to_owned(), false, 3, String::new(), String::new());
    match r {
        Err(SshError::NonZeroExit { cmd, exit }) => {
            assert_eq!(cmd, "the cmd");
            assert_eq!(exit, 3);
        }
        other => panic!("expected NonZeroExit, got {:?}", other),
    }
}

#[test]
fn test_i32_dec() {
    assert_eq!(i32_dec(0), "0");
    assert_eq!(i32_dec(7), "7");
    assert_eq!(i32_dec(1234), "1234");
    assert_eq!(i32_dec(-3), "-3");
    assert_eq!(i32_dec(i32::MAX), "2147483647");
    assert_eq!(i32_dec(i32::MIN), "-2147483648");
}

#[test]
fn test_error_messages() {
    assert_eq!(
        SshError::KeyNotFound { file: ".ssh/id_rsa".to_owned() }.to_message(),
        "no such key: .ssh/id_rsa"
    );
    assert_eq!(
        SshError::AuthFailed { key: "/home/me/.ssh/id_rsa".to_owned() }.to_message(),
        "authentication failed with private key: /home/me/.ssh/id_rsa"
    );
    assert_eq!(
        SshError::NonZeroExit { cmd: "ls /x".to_owned(), exit: 2 }.to_message(),
        "non-zero exit (2) for command: ls /x"
    );
}

#[test]
fn test_classify_auth_error_rejected() {
    let e = ssh2::Error::new(ssh2::ErrorCode::Session(AUTH_REJECTED_CODE), "auth failed");
    match classify_auth_error("/home/me/.ssh/id_rsa", e, Some(AUTH_REJECTED_CODE)) {
        SshError::AuthFailed { key } => assert_eq!(key, "/home/me/.ssh/id_rsa"),
        other => panic!("expected AuthFailed, got {:?}", other),
    }
    let e = ssh2::Error::new(ssh2::ErrorCode::Session(KEY_UNVERIFIED_CODE), "unverified");
    match classify_auth_error("/k", e, Some(KEY_UNVERIFIED_CODE)) {
        SshError::AuthFailed { key } => assert_eq!(key, "/k"),
        other => panic!("expected AuthFailed, got {:?}", other),
    }
}

#[test]
fn test_classify_auth_error_transport() {
    // A transport-layer error code is surfaced as it is, not as AuthFailed.
    let e = ssh2::Error::new(ssh2::ErrorCode::Session(-7), "socket disconnect");
    match classify_auth_error("/k", e, Some(-7)) {
        SshError::SshError { error } => assert_eq!(error.message(), "socket disconnect"),
        other => panic!("expected a wrapped error, got {:?}", other),
    }
    let e = ssh2::Error::new(ssh2::ErrorCode::SFTP(3), "sftp");
    match classify_auth_error("/k", e, None) {
        SshError::SshError { .. } => {}
        other => panic!("expected a wrapped error, got {:?}", other),
    }
}

#[test]
fn test_default_key_path() {
    assert_eq!(default_key_path("/home/me"), "/home/me/.ssh/id_rsa");
}

#[test]
fn test_resolve_default_key() {
    match resolve_default_key() {
        Ok(path) => assert!(path.ends_with("/.ssh/id_rsa")),
        Err(SshError::KeyNotFound { file }) => assert_eq!(file, ".ssh/id_rsa"),
        Err(other) => panic!("unexpected error: {:?}", other),
    }
}

#[test]
fn test_private_key_candidates() {
    let names = vec![
        "id_rsa".to_owned(),
        "id_rsa.pub".to_owned(),
        "known_hosts".to_owned(),
        "id_ed25519.pub".to_owned(),
        ".pub".to_owned(),
    ];
    assert_eq!(
        private_key_candidates(&names),
        vec!["id_rsa".to_owned(), "id_ed25519".to_owned(), "".to_owned()]
    );
}
