use ghost_complete::cli::{cli_action, shell_command, CliAction};
use ghost_complete::paths::{config_dir_with, expand_tilde_with, select_spec_dirs, validate_spec_dirs_with};
use ghost_complete::specs::{CompletionSpec, OptionSpec, SubcommandSpec};
use ghost_complete::validate::{count_spec_items, fail_line, ok_line, summary_line};

fn sub(name: &str, subs: Vec<SubcommandSpec>) -> SubcommandSpec {
    SubcommandSpec { name: name.into(), description: None, subcommands: subs, options: vec![], args: vec![] }
}

#[test]
fn count_spec_items_counts_nested_subcommands() {
    let spec = CompletionSpec {
        name: "x".into(),
        description: None,
        subcommands: vec![sub("a", vec![sub("a1", vec![]), sub("a2", vec![sub("a2x", vec![])])]), sub("b", vec![])],
        options: vec![OptionSpec { name: vec!["-h".into()], description: None, args: None }],
        args: vec![],
    };
    assert_eq!(count_spec_items(&spec), (5, 1));
}

#[test]
fn expand_tilde_joins_home() {
    assert_eq!(expand_tilde_with("~/specs", Some("/home/u")), "/home/u/specs");
    assert_eq!(expand_tilde_with("~/specs", None), "~/specs");
    assert_eq!(expand_tilde_with("/abs/specs", Some("/home/u")), "/abs/specs");
    assert_eq!(expand_tilde_with("~specs", Some("/home/u")), "~specs");
}

#[test]
fn config_dir_is_under_home() {
    assert_eq!(config_dir_with(Some("/home/u")), Some("/home/u/.config/ghost-complete".to_string()));
    assert_eq!(config_dir_with(None), None);
}

#[test]
fn validate_dirs_prefer_configured() {
    let configured = vec!["~/a".to_string(), "/b".to_string(), "~c".to_string()];
    assert_eq!(
        validate_spec_dirs_with(&configured, Some("/h")),
        vec!["/h/a".to_string(), "/b".to_string(), "/h/~c".to_string()]
    );
    assert_eq!(validate_spec_dirs_with(&vec![], Some("/h")), vec!["/h/.config/ghost-complete/specs".to_string()]);
    assert!(validate_spec_dirs_with(&vec![], None).is_empty());
}

#[test]
fn cli_actions() {
    assert_eq!(cli_action(&vec!["install".to_string()]), CliAction::Install);
    assert_eq!(cli_action(&vec!["uninstall".to_string()]), CliAction::Uninstall);
    assert_eq!(cli_action(&vec!["validate-specs".to_string(), "x".to_string()]), CliAction::ValidateSpecs);
    assert_eq!(cli_action(&vec!["bash".to_string()]), CliAction::Proxy);
    assert_eq!(cli_action(&vec![]), CliAction::Proxy);
}

#[test]
fn shell_command_defaults() {
    assert_eq!(shell_command(vec![], "/bin/zsh".to_string()), ("/bin/zsh".to_string(), vec![]));
    assert_eq!(
        shell_command(vec!["bash".to_string(), "-l".to_string()], "/bin/zsh".to_string()),
        ("bash".to_string(), vec!["-l".to_string()])
    );
}

#[test]
fn select_spec_dirs_prefers_existing_configured() {
    let configured = vec![("/a".to_string(), false), ("/b".to_string(), true)];
    let candidates = vec![("/c".to_string(), true)];
    assert_eq!(select_spec_dirs(&configured, &candidates), vec!["/b".to_string()]);
    let none_exist = vec![("/a".to_string(), false)];
    assert!(select_spec_dirs(&none_exist, &candidates).is_empty());
}

#[test]
fn select_spec_dirs_auto_detects_or_falls_back() {
    let candidates = vec![("/c".to_string(), false), ("/d".to_string(), true), ("specs".to_string(), true)];
    assert_eq!(select_spec_dirs(&vec![], &candidates), vec!["/d".to_string(), "specs".to_string()]);
    let missing = vec![("/c".to_string(), false)];
    assert_eq!(select_spec_dirs(&vec![], &missing), vec!["specs".to_string()]);
}

#[test]
fn validation_report_lines() {
    assert_eq!(ok_line("git.json", 12, 0), "  \x1b[32m OK \x1b[0m  git.json (12 subcommands, 0 options)");
    assert_eq!(fail_line("bad.json", "expected value"), "  \x1b[31mFAIL\x1b[0m  bad.json: expected value");
    assert_eq!(summary_line(3, 0), "3/3 specs valid.");
    assert_eq!(summary_line(7, 4), "7/11 specs valid, 4 failed.");
    assert_eq!(summary_line(0, 0), "0/0 specs valid.");
    assert_eq!(summary_line(120, 1005), "120/1125 specs valid, 1005 failed.");
}

#[test]
fn path_joins_like_path_join() {
    assert_eq!(expand_tilde_with("~/x/y", Some("/home/u")), "/home/u/x/y");
    assert_eq!(expand_tilde_with("~/x", Some("/home/u/")), "/home/u/x");
    assert_eq!(expand_tilde_with("~//etc", Some("/home/u")), "/etc");
    assert_eq!(expand_tilde_with("~/x", Some("")), "x");
    assert_eq!(config_dir_with(Some("/Users/me")), Some("/Users/me/.config/ghost-complete".to_string()));
    assert_eq!(config_dir_with(None), None);
}
