//! Tests for the command builder and the prebuilt command helpers.

use spurs::centos;
use spurs::ssh::SshCommand;
use spurs::ubuntu;
use spurs::util;

#[test]
fn test_cmd_macro() {
    assert_eq!(SshCommand::new(&format!("{} {}", "ls", 3)), SshCommand::new("ls 3"));
}

#[test]
fn test_builder_order_insensitive() {
    let a = SshCommand::new("ls").cwd("/tmp").use_bash();
    let b = SshCommand::new("ls").use_bash().cwd("/tmp");
    assert_eq!(a, b);
    let a = SshCommand::new("ls").allow_error().no_pty().dry_run(true);
    let b = SshCommand::new("ls").dry_run(true).no_pty().allow_error();
    assert_eq!(a, b);
}

#[test]
fn test_builder_fields() {
    assert_eq!(
        SshCommand::new("ls").cwd("/x").use_bash().allow_error().dry_run(true).no_pty(),
        SshCommand::make_cmd("ls", Some("/x".to_owned()), true, true, true, true),
    );
    assert_eq!(SshCommand::new("ls").cmd(), "ls");
    assert_ne!(
        SshCommand::new("ls").dry_run(true),
        SshCommand::new("ls"),
    );
    assert_eq!(SshCommand::new("ls").dry_run(false), SshCommand::new("ls"));
}

#[test]
fn test_rpm_install() {
    assert_eq!(
        centos::rpm_install("foobar"),
        SshCommand::make_cmd("sudo rpm -ivh foobar".into(), None, false, false, false, false,),
    );
}

#[test]
fn test_yum_install() {
    assert_eq!(
        centos::yum_install(&["foobar"]),
        SshCommand::make_cmd("sudo yum install -y foobar".into(), None, false, false, false, false,),
    );
}

#[test]
fn test_dpkg_install() {
    assert_eq!(
        ubuntu::dpkg_install("foobar"),
        SshCommand::make_cmd("sudo dpkg -i foobar".into(), None, false, false, false, false,),
    );
}

#[test]
fn test_apt_install() {
    assert_eq!(
        ubuntu::apt_install(&["foobar"]),
        SshCommand::make_cmd(
            "sudo apt-get -y install foobar".into(),
            None,
            false,
            false,
            false,
            false,
        ),
    );
}

#[test]
fn test_apt_install_many() {
    assert_eq!(
        ubuntu::apt_install(&["foo", "bar", "baz"]),
        SshCommand::make_cmd(
            "sudo apt-get -y install foo bar baz".into(),
            None,
            false,
            false,
            false,
            false,
        ),
    );
}

#[test]
fn lib_test_set_cpu_scaling_governor() {
    assert_eq!(
        util::set_cpu_scaling_governor("foobar"),
        SshCommand::make_cmd(
            "sudo cpupower frequency-set -g foobar".into(),
            None,
            false,
            false,
            false,
            false,
        )
    );
}

#[test]
fn util_test_set_cpu_scaling_governor() {
    assert_eq!(
        util::set_cpu_scaling_governor("foobar"),
        SshCommand::make_cmd(
            "sudo cpupower frequency-set -g foobar".into(),
            None,
            false,
            false,
            false,
            false,
        )
    );
}

#[test]
fn lib_test_swapoff() {
    assert_eq!(
        util::swapoff("foobar"),
        SshCommand::make_cmd("sudo swapoff foobar".into(), None, false, false, false, false,)
    );
}

#[test]
fn util_test_swapoff() {
    assert_eq!(
        util::swapoff("foobar"),
        SshCommand::make_cmd("sudo swapoff foobar".into(), None, false, false, false, false,)
    );
}

#[test]
fn lib_test_swapon() {
    assert_eq!(
        util::swapon("foobar"),
        SshCommand::make_cmd("sudo swapon foobar".into(), None, false, false, false, false,)
    );
}

#[test]
fn util_test_swapon() {
    assert_eq!(
        util::swapon("foobar"),
        SshCommand::make_cmd("sudo swapon foobar".into(), None, false, false, false, false,)
    );
}

#[test]
fn lib_test_add_to_group() {
    assert_eq!(
        util::add_to_group("foobar"),
        SshCommand::make_cmd(
            "sudo usermod -aG foobar `whoami`".into(),
            None,
            true, // use_bash
            false,
            false,
            false,
        )
    );
}

#[test]
fn util_test_add_to_group() {
    assert_eq!(
        util::add_to_group("foobar"),
        SshCommand::make_cmd(
            "sudo usermod -aG foobar `whoami`".into(),
            None,
            true, // use_bash
            false,
            false,
            false,
        )
    );
}

#[test]
fn lib_test_write_gpt() {
    assert_eq!(
        util::write_gpt("foobar"),
        SshCommand::make_cmd(
            "sudo parted -a optimal foobar -s -- mklabel gpt".into(),
            None,
            false,
            false,
            false,
            false,
        )
    );
}

#[test]
fn util_test_write_gpt() {
    assert_eq!(
        util::write_gpt("foobar"),
        SshCommand::make_cmd(
            "sudo parted -a optimal foobar -s -- mklabel gpt".into(),
            None,
            false,
            false,
            false,
            false,
        )
    );
}

#[test]
fn lib_test_create_partition() {
    assert_eq!(
        util::create_partition("foobar"),
        SshCommand::make_cmd(
            "sudo parted -a optimal foobar -s -- mkpart primary 0% 100%".into(),
            None,
            false,
            false,
            false,
            false,
        )
    );
}

#[test]
fn util_test_create_partition() {
    assert_eq!(
        util::create_partition("foobar"),
        SshCommand::make_cmd(
            "sudo parted -a optimal foobar -s -- mkpart primary 0% 100%".into(),
            None,
            false,
            false,
            false,
            false,
        )
    );
}
