use ghost_complete::listing::{
    command_suggestions, dir_part, file_suggestions, generator_git, git_suggestions, listing_dir, parent_shortcut,
};
use ghost_complete::suggestion::{SuggestionKind, SuggestionSource};

#[test]
fn word_directory_part_and_listing_dir() {
    assert_eq!(dir_part("src/ma"), "src/");
    assert_eq!(dir_part("main"), "");
    assert_eq!(listing_dir("src/ma", "/proj"), "/proj/src/");
    assert_eq!(listing_dir("/etc/pa", "/proj"), "/etc/");
    assert_eq!(listing_dir("", "/proj"), "/proj/");
}

#[test]
fn files_and_directories_from_a_listing() {
    let entries = vec![("main.rs".to_string(), false), ("bin".to_string(), true)];
    let all = file_suggestions("src/m", &entries, false);
    let texts: Vec<&str> = all.iter().map(|s| s.text.as_str()).collect();
    assert_eq!(texts, vec!["src/main.rs", "src/bin/"]);
    assert_eq!(all[0].kind, SuggestionKind::FilePath);
    assert_eq!(all[1].kind, SuggestionKind::Directory);
    assert!(all.iter().all(|s| s.source == SuggestionSource::Filesystem));
    let dirs = file_suggestions("src/m", &entries, true);
    assert_eq!(dirs.len(), 1);
    assert_eq!(dirs[0].text, "src/bin/");
}

#[test]
fn commands_sorted_and_unique() {
    let names = vec!["ls".to_string(), "git".to_string(), "ls".to_string(), "cargo".to_string()];
    let cmds = command_suggestions(&names);
    let texts: Vec<&str> = cmds.iter().map(|s| s.text.as_str()).collect();
    assert_eq!(texts, vec!["cargo", "git", "ls"]);
    assert!(cmds.iter().all(|s| s.source == SuggestionSource::Commands && s.kind == SuggestionKind::Command));
}

#[test]
fn git_output_lines() {
    let out = git_suggestions(b"  main\n* dev\n\n  feature/x \n", SuggestionKind::GitBranch);
    let texts: Vec<&str> = out.iter().map(|s| s.text.as_str()).collect();
    assert_eq!(texts, vec!["main", "* dev", "feature/x"]);
    assert!(out.iter().all(|s| s.source == SuggestionSource::Git));
    let (args, kind) = generator_git("git_branches").unwrap();
    assert_eq!(args, vec!["branch".to_string(), "--format=%(refname:short)".to_string()]);
    assert_eq!(kind, SuggestionKind::GitBranch);
    assert!(generator_git("npm_scripts").is_none());
}

#[test]
fn parent_shortcut_for_cd() {
    let s = parent_shortcut(Some("cd"), "", "/Users/me/proj/src", Some("/Users/me")).unwrap();
    assert_eq!(s.text, "../");
    assert_eq!(s.kind, SuggestionKind::Directory);
    assert_eq!(parent_shortcut(Some("cd"), "../", "/Users/me/proj/src", Some("/Users/me")).unwrap().text, "../../");
    // Two levels up from /Users/me/proj/src is the home directory: no further shortcut.
    assert!(parent_shortcut(Some("cd"), "../../", "/Users/me/proj/src", Some("/Users/me")).is_none());
    assert!(parent_shortcut(Some("cd"), "", "/", None).is_none());
    assert!(parent_shortcut(Some("cd"), "", "/Users/me", Some("/Users/me/")).is_none());
    assert!(parent_shortcut(Some("ls"), "", "/tmp/x", None).is_none());
    assert!(parent_shortcut(Some("cd"), "sr", "/tmp/x", None).is_none());
    assert_eq!(parent_shortcut(Some("cd"), "", "/tmp", None).unwrap().text, "../");
    assert!(parent_shortcut(Some("cd"), "../", "/tmp", None).is_none());
}
