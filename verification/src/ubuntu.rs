//! Functionality specific to Ubuntu.

use vstd::prelude::*;
use vstd::string::StringExecFns;

use crate::ssh::fresh_command;
use crate::ssh::SshCommand;
use crate::util::join_spaces;
use crate::util::spec_join_spaces;

verus! {

/// Install the given .deb packages via `dpkg`.  Requires `sudo` privileges.
pub fn dpkg_install(pkg: &str) -> (r: SshCommand)
    ensures
        r@ == fresh_command("sudo dpkg -i "@ + pkg@),
{
    let text = "sudo dpkg -i ".to_owned().concat(pkg);
    SshCommand::new(text.as_str())
}

/// Install the given list of packages via `apt-get install`.  Requires
/// `sudo` privileges.
pub fn apt_install(pkgs: &[&str]) -> (r: SshCommand)
    ensures
        r@ == fresh_command("sudo apt-get -y install "@ + spec_join_spaces(pkgs.deep_view())),
{
    let text = "sudo apt-get -y install ".to_owned().concat(join_spaces(pkgs).as_str());
    SshCommand::new(text.as_str())
}

} // verus!
