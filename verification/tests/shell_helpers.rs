//! Tests for the helpers that drive a sequence of commands against a
//! shell, run against a scripted stand-in for the real SSH shell.

use std::sync::Mutex;

use spurs::errors::SshError;
use spurs::ssh::Execute;
use spurs::ssh::SshCommand;
use spurs::ssh::SshOutput;
use spurs::util;

/// An `Execute` implementation for use in tests: records every command it
/// is asked to run and answers with scripted output.
struct TestSshShell {
    commands: Mutex<Vec<SshCommand>>,
}

impl TestSshShell {
    fn new() -> Self {
        Self { commands: Mutex::new(vec![]) }
    }
}

impl Execute for TestSshShell {
    fn run(&mut self, cmd: SshCommand) -> Result<SshOutput, SshError> {
        enum FakeCommand {
            Blkid,
            Kname1,
            Kname2,
            Kname3,
            Kname4,
            KnameMountpoint,
            Size1,
            Size2,
            Size3,
            Unknown,
        }

        let short_cmd = {
            if cmd.cmd().contains("blkid") {
                FakeCommand::Blkid
            } else if cmd.cmd().contains("KNAME /dev/foobar") {
                FakeCommand::Kname1
            } else if cmd.cmd().contains("KNAME /dev/sd") {
                FakeCommand::Kname3
            } else if cmd.cmd().contains("KNAME /dev/") {
                FakeCommand::Kname4
            } else if cmd.cmd().contains("KNAME,MOUNTPOINT") {
                FakeCommand::KnameMountpoint
            } else if cmd.cmd().contains("KNAME") {
                FakeCommand::Kname2
            } else if cmd.cmd().contains("SIZE /dev/sda") {
                FakeCommand::Size1
            } else if cmd.cmd().contains("SIZE /dev/sdb") {
                FakeCommand::Size2
            } else if cmd.cmd().contains("SIZE /dev/sdc") {
                FakeCommand::Size3
            } else {
                FakeCommand::Unknown
            }
        };

        self.commands.lock().unwrap().push(cmd);

        let stdout = match short_cmd {
            FakeCommand::Blkid => "UUID=1fb958bf-de7e-428a-a0b7-a598f22e96fa\n".to_owned(),
            FakeCommand::Kname1 => "KNAME\nfoobar\nfoo\nbar\nbaz\n".to_owned(),
            FakeCommand::Kname2 => "KNAME\nfoobar\nfoo\nbar\nbaz\nsdb\nsdc".to_owned(),
            FakeCommand::Kname3 => "KNAME\nsdb".to_owned(),
            FakeCommand::Kname4 => "KNAME\nfoo".to_owned(),
            FakeCommand::KnameMountpoint => {
                "KNAME MOUNTPOINT\nfoobar\nfoo  /mnt/foo\nbar  /mnt/bar\nbaz\nsdb\nsdc".to_owned()
            }
            FakeCommand::Size1 => "SIZE\n477G".to_owned(),
            FakeCommand::Size2 => "SIZE\n400G".to_owned(),
            FakeCommand::Size3 => "SIZE\n500G".to_owned(),
            FakeCommand::Unknown => String::new(),
        };

        Ok(SshOutput { stdout, stderr: String::new() })
    }

    fn reconnect(&mut self) -> Result<(), SshError> {
        Ok(())
    }
}

/// Asserts that the shell ran exactly the expected commands, in order.
fn expect_cmd_sequence(shell: &TestSshShell, expected: &[SshCommand]) {
    let locked = shell.commands.lock().unwrap();
    if locked.len() != expected.len() {
        panic!(
            "Number of commands run does not match expected number: \n Expected: {:#?}\nActual:  {:#?}====\n",
            expected, locked
        );
    }
    for (expected, actual) in expected.iter().zip(locked.iter()) {
        if expected != actual {
            panic!("\nExpected: {:#?}\nActual:  {:#?}\n=====\n", expected, actual);
        }
    }
}

#[test]
fn test_get_partitions() {
    let mut shell = TestSshShell::new();
    let partitions = util::get_partitions(&mut shell, "/dev/foobar", false).unwrap();
    expect_cmd_sequence(
        &shell,
        &[SshCommand::make_cmd("lsblk -o KNAME /dev/foobar", None, false, false, false, false)],
    );
    assert_eq!(vec!["foo".to_owned(), "bar".to_owned(), "baz".to_owned()], partitions);
    assert_eq!(
        {
            let mut set = std::collections::HashSet::new();
            set.insert("foo".to_owned());
            set.insert("bar".to_owned());
            set.insert("baz".to_owned());
            set
        },
        partitions.into_iter().collect::<std::collections::HashSet<String>>()
    );
}

#[test]
fn test_get_unpartitioned_devices() {
    let mut shell = TestSshShell::new();
    let devs = util::get_unpartitioned_devs(&mut shell, false).unwrap();
    expect_cmd_sequence(
        &shell,
        &[
            SshCommand::make_cmd("lsblk -o KNAME", None, false, false, false, false),
            SshCommand::make_cmd("lsblk -o KNAME /dev/bar", None, false, false, false, false),
            SshCommand::make_cmd("lsblk -o KNAME /dev/baz", None, false, false, false, false),
            SshCommand::make_cmd("lsblk -o KNAME /dev/foo", None, false, false, false, false),
            SshCommand::make_cmd("lsblk -o KNAME /dev/foobar", None, false, false, false, false),
            SshCommand::make_cmd("lsblk -o KNAME /dev/sdb", None, false, false, false, false),
            SshCommand::make_cmd("lsblk -o KNAME /dev/sdc", None, false, false, false, false),
        ],
    );
    assert_eq!(vec!["sdb".to_owned(), "sdc".to_owned()], devs);
    assert_eq!(
        {
            let mut set = std::collections::HashSet::new();
            set.insert("sdb".to_owned());
            set.insert("sdc".to_owned());
            set
        },
        devs.into_iter().collect::<std::collections::HashSet<String>>()
    );
}

#[test]
fn test_get_mounted_devs() {
    let mut shell = TestSshShell::new();
    let devs = util::get_mounted_devs(&mut shell, false).unwrap();
    expect_cmd_sequence(
        &shell,
        &[SshCommand::make_cmd("lsblk -o KNAME,MOUNTPOINT", None, false, false, false, false)],
    );
    assert_eq!(
        vec![
            ("foo".to_owned(), "/mnt/foo".to_owned()),
            ("bar".to_owned(), "/mnt/bar".to_owned())
        ],
        devs
    );
}

#[test]
fn test_get_dev_sizes() {
    let mut shell = TestSshShell::new();
    let devs = util::get_dev_sizes(&mut shell, vec!["sda", "sdb", "sdc"], false).unwrap();
    expect_cmd_sequence(
        &shell,
        &[
            SshCommand::make_cmd("lsblk -o SIZE /dev/sda", None, false, false, false, false),
            SshCommand::make_cmd("lsblk -o SIZE /dev/sdb", None, false, false, false, false),
            SshCommand::make_cmd("lsblk -o SIZE /dev/sdc", None, false, false, false, false),
        ],
    );
    assert_eq!(vec!["477G".to_owned(), "400G".to_owned(), "500G".to_owned()], devs);
}

#[test]
fn lib_test_reboot() {
    let mut shell = TestSshShell::new();
    util::reboot(&mut shell, false).unwrap();
    expect_cmd_sequence(
        &shell,
        &[
            SshCommand::make_cmd("sudo reboot", None, false, false, false, false),
            SshCommand::make_cmd("whoami", None, false, false, false, false),
        ],
    );
}

#[test]
fn util_test_reboot() {
    let mut shell = TestSshShell::new();
    util::reboot(&mut shell, false).unwrap();
    expect_cmd_sequence(
        &shell,
        &[
            SshCommand::make_cmd("sudo reboot", None, false, false, false, false),
            SshCommand::make_cmd("whoami", None, false, false, false, false),
        ],
    );
}

#[test]
fn lib_test_format_partition_as_ext4() {
    let mut shell = TestSshShell::new();
    util::format_partition_as_ext4(&mut shell, false, "/dev/foobar", "/mnt/point/", "me").unwrap();
    expect_cmd_sequence(
        &shell,
        &[
            SshCommand::make_cmd("lsblk", None, false, false, false, false),
            SshCommand::make_cmd("sudo mkfs.ext4 /dev/foobar", None, false, false, false, false),
            SshCommand::make_cmd("mkdir -p /tmp/tmp_mnt", None, false, false, false, false),
            SshCommand::make_cmd(
                "sudo mount -t ext4 /dev/foobar /tmp/tmp_mnt",
                None,
                false,
                false,
                false,
                false,
            ),
            SshCommand::make_cmd("sudo chown me /tmp/tmp_mnt", None, false, false, false, false),
            SshCommand::make_cmd(
                "rsync -a /mnt/point// /tmp/tmp_mnt/",
                None,
                false,
                false,
                false,
                false,
            ),
            SshCommand::make_cmd("sync", None, false, false, false, false),
            SshCommand::make_cmd("sudo umount /tmp/tmp_mnt", None, false, false, false, false),
            SshCommand::make_cmd(
                "sudo mount -t ext4 /dev/foobar /mnt/point/",
                None,
                false,
                false,
                false,
                false,
            ),
            SshCommand::make_cmd("sudo chown me /mnt/point/", None, false, false, false, false),
            SshCommand::make_cmd(
                "sudo blkid -o export /dev/foobar | grep '^UUID='",
                None,
                /* use_bash = */ true,
                false,
                false,
                false,
            ),
            SshCommand::make_cmd(
                r#"echo "UUID=1fb958bf-de7e-428a-a0b7-a598f22e96fa    /mnt/point/    ext4    defaults    0    1" | sudo tee -a /etc/fstab"#,
                None,
                false,
                false,
                false,
                false,
            ),
            SshCommand::make_cmd("lsblk", None, false, false, false, false),
        ],
    );
}

#[test]
fn util_test_format_partition_as_ext4() {
    let mut shell = TestSshShell::new();
    util::format_partition_as_ext4(&mut shell, false, "/dev/foobar", "/mnt/point/", "me").unwrap();
    let locked = shell.commands.lock().unwrap();
    assert_eq!(locked.len(), 13);
    // The fstab line is the second-to-last of the twelve real commands
    // issued (thirteen runs counting the final informational listing).
    assert_eq!(
        locked[11],
        SshCommand::make_cmd(
            r#"echo "UUID=1fb958bf-de7e-428a-a0b7-a598f22e96fa    /mnt/point/    ext4    defaults    0    1" | sudo tee -a /etc/fstab"#,
            None,
            false,
            false,
            false,
            false,
        )
    );
}

#[test]
fn test_dry_run_passed_through() {
    let mut shell = TestSshShell::new();
    let partitions = util::get_partitions(&mut shell, "/dev/foobar", true).unwrap();
    expect_cmd_sequence(
        &shell,
        &[SshCommand::make_cmd("lsblk -o KNAME /dev/foobar", None, false, false, true, false)],
    );
    // The scripted shell still answers; the flag only marks the command.
    assert_eq!(partitions.len(), 3);
}
