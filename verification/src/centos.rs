//! Functionality specific to CentOS, RHEL, Amazon Linux, and other related
//! distros.

use vstd::prelude::*;
use vstd::string::StringExecFns;

use crate::ssh::fresh_command;
use crate::ssh::SshCommand;
use crate::util::join_spaces;
use crate::util::spec_join_spaces;

verus! {

/// Install the given .rpm packages via `rpm`.  Requires `sudo` privileges.
pub fn rpm_install(pkg: &str) -> (r: SshCommand)
    ensures
        r@ == fresh_command("sudo rpm -ivh "@ + pkg@),
{
    let text = "sudo rpm -ivh ".to_owned().concat(pkg);
    SshCommand::new(text.as_str())
}

/// Install the given list of packages via `yum install`.  Requires `sudo`
/// privileges.
pub fn yum_install(pkgs: &[&str]) -> (r: SshCommand)
    ensures
        r@ == fresh_command("sudo yum install -y "@ + spec_join_spaces(pkgs.deep_view())),
{
    let text = "sudo yum install -y ".to_owned().concat(join_spaces(pkgs).as_str());
    SshCommand::new(text.as_str())
}

} // verus!
