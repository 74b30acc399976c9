use ghost_complete::install::{
    init_block, installed_zshrc, remove_block, shell_integration_block, uninstalled_zshrc, INIT_BEGIN, INIT_END,
    MANAGED_WARNING, SHELL_BEGIN, SHELL_END,
};

#[test]
fn test_remove_block_basic() {
    let content = "before\n# >>> ghost-complete initialize >>>\nstuff\n# <<< ghost-complete initialize <<<\nafter\n";
    let (result, found) = remove_block(content, INIT_BEGIN, INIT_END);
    assert!(found);
    assert_eq!(result, "before\nafter\n");
    assert!(!result.contains("ghost-complete initialize"));
}

#[test]
fn test_remove_block_not_found() {
    let content = "just some shell config\nexport FOO=bar\n";
    let (result, found) = remove_block(content, INIT_BEGIN, INIT_END);
    assert!(!found);
    assert_eq!(result, content);
}

#[test]
fn test_init_block_content() {
    let block = init_block();
    assert!(block.contains(INIT_BEGIN));
    assert!(block.contains(INIT_END));
    assert!(block.contains(MANAGED_WARNING));
    assert!(block.contains("GHOST_COMPLETE_ACTIVE"));
    assert!(block.contains("exec ghost-complete"));
}

#[test]
fn test_shell_integration_block_content() {
    let path = "/some/path/ghost-complete.zsh";
    let block = shell_integration_block(path);
    assert!(block.contains(SHELL_BEGIN));
    assert!(block.contains(SHELL_END));
    assert!(block.contains(MANAGED_WARNING));
    assert!(block.contains("/some/path/ghost-complete.zsh"));
}

#[test]
fn init_block_exact_text() {
    assert_eq!(
        init_block(),
        "# >>> ghost-complete initialize >>>\n\
         # !! Contents within this block are managed by 'ghost-complete install' !!\n\
         if [[ \"$TERM_PROGRAM\" == \"ghostty\" && \"$(ps -o comm= -p $PPID 2>/dev/null)\" != *ghost-complete* ]]; then\n  \
           export GHOST_COMPLETE_ACTIVE=1\n  \
           exec ghost-complete\n\
         fi\n\
         # <<< ghost-complete initialize <<<"
    );
}

#[test]
fn test_install_preserves_existing_content() {
    let existing = "export PATH=\"/usr/local/bin:$PATH\"\nalias ll='ls -la'\n";
    let content = installed_zshrc(existing, "/cfg/shell/ghost-complete.zsh");
    let init_pos = content.find(INIT_BEGIN).unwrap();
    let user_pos = content.find("export PATH").unwrap();
    let shell_pos = content.find(SHELL_BEGIN).unwrap();
    assert!(init_pos < user_pos);
    assert!(user_pos < shell_pos);
    assert!(content.contains("export PATH=\"/usr/local/bin:$PATH\""));
    assert!(content.contains("alias ll='ls -la'"));
    assert!(content.contains(INIT_BEGIN));
    assert!(content.contains(SHELL_BEGIN));
    assert!(content.contains("source \"/cfg/shell/ghost-complete.zsh\""));
    assert!(content.ends_with(&format!("{SHELL_END}\n")));
}

#[test]
fn test_install_no_existing_zshrc() {
    let content = installed_zshrc("", "/cfg/shell/ghost-complete.zsh");
    assert!(content.contains(INIT_BEGIN));
    assert!(content.contains(SHELL_BEGIN));
}

#[test]
fn test_install_creates_files() {
    let script = "/cfg/shell/ghost-complete.zsh";
    let content = installed_zshrc("", script);
    assert!(content.contains(INIT_BEGIN));
    assert!(content.contains(INIT_END));
    assert!(content.contains(SHELL_BEGIN));
    assert!(content.contains(SHELL_END));
    assert!(content.contains("GHOST_COMPLETE_ACTIVE"));
    let expected_source = format!("source \"{}\"", script);
    assert!(content.contains(&expected_source), "source path mismatch: .zshrc does not contain '{}'", expected_source);
}

#[test]
fn test_uninstall_removes_blocks() {
    let installed = installed_zshrc("export FOO=bar\n", "/cfg/shell/ghost-complete.zsh");
    let (content, found) = uninstalled_zshrc(&installed);
    assert!(found);
    assert!(!content.contains(INIT_BEGIN));
    assert!(!content.contains(SHELL_BEGIN));
    assert!(content.contains("export FOO=bar"));
}

#[test]
fn install_with_no_user_content() {
    let content = installed_zshrc("", "/p.zsh");
    assert_eq!(content, format!("{}\n{}\n", init_block(), shell_integration_block("/p.zsh")));
}

#[test]
fn test_idempotency() {
    let first = installed_zshrc("export FOO=bar\n", "/p.zsh");
    let second = installed_zshrc(&first, "/p.zsh");
    assert_eq!(first, second);
}

#[test]
fn uninstall_after_install_keeps_user_content() {
    let installed = installed_zshrc("  export FOO=bar\n\n", "/p.zsh");
    let (content, found) = uninstalled_zshrc(&installed);
    assert!(found);
    assert_eq!(content, "export FOO=bar\n");
    let (same, found_again) = uninstalled_zshrc(&content);
    assert!(!found_again);
    assert_eq!(same, content);
}

#[test]
fn remove_block_without_end_keeps_content() {
    let content = "a\n# >>> ghost-complete initialize >>>\nb\n";
    let (result, found) = remove_block(content, INIT_BEGIN, INIT_END);
    assert!(!found);
    assert_eq!(result, content);
}
