//! What the command line asks for.

use vstd::prelude::*;

use crate::context::strings_view;
use crate::text::str_eq;

verus! {

/// What the program does.
#[derive(Debug, Clone, Copy, PartialEq, Eq, Structural)]
pub enum CliAction {
    /// Write the shell integration into `.zshrc`.
    Install,
    /// Remove it again.
    Uninstall,
    /// Check the completion spec files.
    ValidateSpecs,
    /// Run a shell behind the autocomplete proxy.
    Proxy,
}

/// The action named by the first trailing argument; anything else runs the
/// proxy.
pub open spec fn spec_cli_action(args: Seq<Seq<char>>) -> CliAction {
    if args.len() > 0 && args[0] == "install"@ {
        CliAction::Install
    } else if args.len() > 0 && args[0] == "uninstall"@ {
        CliAction::Uninstall
    } else if args.len() > 0 && args[0] == "validate-specs"@ {
        CliAction::ValidateSpecs
    } else {
        CliAction::Proxy
    }
}

/// The action the trailing arguments ask for.
pub fn cli_action(shell_args: &Vec<String>) -> (r: CliAction)
    ensures
        r == spec_cli_action(strings_view(shell_args@)),
{
    if shell_args.len() == 0 {
        return CliAction::Proxy;
    }
    let first = shell_args[0].as_str();
    assert(strings_view(shell_args@)[0] == first@);
    if str_eq(first, "install") {
        CliAction::Install
    } else if str_eq(first, "uninstall") {
        CliAction::Uninstall
    } else if str_eq(first, "validate-specs") {
        CliAction::ValidateSpecs
    } else {
        CliAction::Proxy
    }
}

/// The shell to run and its arguments: the trailing arguments when there
/// are any, else the default shell alone.
pub open spec fn spec_shell_command(args: Seq<Seq<char>>, default_shell: Seq<char>) -> (Seq<char>, Seq<Seq<char>>) {
    if args.len() == 0 {
        (default_shell, Seq::empty())
    } else {
        (args[0], args.drop_first())
    }
}

/// The shell to run and its arguments (see [`spec_shell_command`]).
pub fn shell_command(shell_args: Vec<String>, default_shell: String) -> (r: (String, Vec<String>))
    ensures
        (r.0@, strings_view(r.1@)) == spec_shell_command(strings_view(shell_args@), default_shell@),
{
    if shell_args.len() == 0 {
        let rest: Vec<String> = Vec::new();
        assert(strings_view(rest@) =~= Seq::<Seq<char>>::empty());
        return (default_shell, rest);
    }
    let ghost sv = strings_view(shell_args@);
    let mut args = shell_args;
    let shell = args.remove(0);
    assert(strings_view(args@) =~= sv.drop_first());
    (shell, args)
}

} // verus!
