use ghost_complete::context::CommandContext;
use ghost_complete::engine::{Fetched, SpecLoadResult, SpecStore, SuggestionEngine};
use ghost_complete::history::HistoryProvider;
use ghost_complete::specs::{ArgSpec, CompletionSpec, GeneratorSpec, OptionSpec, SubcommandSpec};
use ghost_complete::suggestion::{Suggestion, SuggestionKind, SuggestionSource};
use ghost_complete::tokenizer::QuoteState;

fn command(text: &str) -> Suggestion {
    Suggestion {
        text: text.to_string(),
        description: None,
        kind: SuggestionKind::Command,
        source: SuggestionSource::Commands,
        score: 0,
    }
}

fn file(text: &str) -> Suggestion {
    Suggestion {
        text: text.to_string(),
        description: None,
        kind: SuggestionKind::FilePath,
        source: SuggestionSource::Filesystem,
        score: 0,
    }
}

fn commands_fetched(names: &[&str]) -> Fetched {
    Fetched { commands: names.iter().map(|n| command(n)).collect(), filesystem: vec![], git: vec![] }
}

fn files_fetched(names: &[&str]) -> Fetched {
    Fetched { commands: vec![], filesystem: names.iter().map(|n| file(n)).collect(), git: vec![] }
}

fn git_spec() -> CompletionSpec {
    CompletionSpec {
        name: "git".into(),
        description: None,
        subcommands: vec![
            SubcommandSpec {
                name: "checkout".into(),
                description: Some("Switch branches".into()),
                subcommands: vec![],
                options: vec![],
                args: vec![ArgSpec {
                    name: Some("branch".into()),
                    description: None,
                    generators: vec![GeneratorSpec { generator_type: "git_branches".into() }],
                    template: None,
                }],
            },
            SubcommandSpec {
                name: "commit".into(),
                description: None,
                subcommands: vec![],
                options: vec![
                    OptionSpec { name: vec!["--message".into(), "-m".into()], description: None, args: None },
                    OptionSpec { name: vec!["--amend".into()], description: None, args: None },
                ],
                args: vec![],
            },
            SubcommandSpec {
                name: "add".into(),
                description: None,
                subcommands: vec![],
                options: vec![],
                args: vec![ArgSpec {
                    name: None,
                    description: None,
                    generators: vec![],
                    template: Some("filepaths".into()),
                }],
            },
        ],
        options: vec![],
        args: vec![],
    }
}

fn make_engine() -> SuggestionEngine {
    let mut spec_store = SpecStore::new();
    spec_store.insert(git_spec());
    let history = HistoryProvider::from_entries(vec!["git push".into(), "cargo build".into(), "ls -la".into()]);
    SuggestionEngine::new(spec_store, history)
}

fn make_ctx(command: Option<&str>, args: Vec<&str>, current_word: &str, word_index: usize) -> CommandContext {
    CommandContext {
        command: command.map(String::from),
        args: args.into_iter().map(String::from).collect(),
        current_word: current_word.to_string(),
        word_index,
        is_flag: current_word.starts_with('-'),
        is_long_flag: current_word.starts_with("--"),
        preceding_flag: None,
        in_pipe: false,
        in_redirect: false,
        quote_state: QuoteState::Unquoted,
    }
}

#[test]
fn test_command_position_returns_commands_and_history() {
    let engine = make_engine();
    let ctx = make_ctx(None, vec![], "gi", 0);
    let results = engine.suggest_sync(&ctx, &commands_fetched(&["git", "ls", "cargo"]));
    // Should have "git" from both commands and history
    assert!(results.iter().any(|s| s.text == "git"));
    assert!(results.iter().any(|s| s.source == SuggestionSource::Commands));
    assert!(results.iter().any(|s| s.source == SuggestionSource::History));
}

#[test]
fn test_empty_results_for_no_matches() {
    let engine = make_engine();
    let ctx = make_ctx(Some("git"), vec![], "zzzzzzz_no_match", 1);
    let results = engine.suggest_sync(&ctx, &files_fetched(&[]));
    assert!(results.is_empty());
}

#[test]
fn test_disabled_commands_provider() {
    let spec_store = SpecStore::new();
    let history = HistoryProvider::from_entries(vec![]);
    let engine = SuggestionEngine::new(spec_store, history)
        .with_suggest_config(50, 10_000, None, false, true, true, true, true);

    let ctx = make_ctx(None, vec![], "gi", 0);
    let results = engine.suggest_sync(&ctx, &commands_fetched(&["git", "ls"]));
    // Commands provider disabled — should not find "git" from commands
    assert!(
        !results.iter().any(|s| s.source == SuggestionSource::Commands),
        "should not have commands when provider disabled"
    );
}

#[test]
fn test_spec_subcommands() {
    let engine = make_engine();
    let ctx = make_ctx(Some("git"), vec![], "ch", 1);
    let results = engine.suggest_sync(&ctx, &files_fetched(&[]));
    assert!(results.iter().any(|s| s.text == "checkout"), "expected 'checkout' in results: {results:?}");
}

#[test]
fn test_spec_options() {
    let engine = make_engine();
    let ctx = make_ctx(Some("git"), vec!["commit"], "--", 2);
    let results = engine.suggest_sync(&ctx, &files_fetched(&[]));
    assert!(results.iter().any(|s| s.text == "--message"));
    assert!(results.iter().any(|s| s.text == "--amend"));
    let ctx = make_ctx(Some("git"), vec!["commit"], "-", 2);
    let results = engine.suggest_sync(&ctx, &files_fetched(&[]));
    assert!(results.iter().any(|s| s.text == "-m"));
}

#[test]
fn test_redirect_gives_filesystem() {
    let engine = make_engine();
    let mut ctx = make_ctx(Some("echo"), vec!["hello"], "", 2);
    ctx.in_redirect = true;
    let needs = engine.needs(&ctx);
    assert!(needs.filesystem && !needs.commands && needs.generators.is_empty());
    let results = engine.suggest_sync(&ctx, &files_fetched(&["output.txt"]));
    assert!(results.iter().any(|s| s.text == "output.txt"));
}

#[test]
fn test_path_prefix_triggers_filesystem() {
    let engine = make_engine();
    let ctx = make_ctx(Some("cat"), vec![], "src/", 1);
    assert!(engine.needs(&ctx).filesystem);
    let results = engine.suggest_sync(&ctx, &files_fetched(&["src/main.rs"]));
    assert!(results.iter().any(|s| s.text == "src/main.rs"));
}

fn cd_spec() -> CompletionSpec {
    CompletionSpec {
        name: "cd".into(),
        description: None,
        subcommands: vec![],
        options: vec![],
        args: vec![ArgSpec { name: Some("directory".into()), description: None, generators: vec![], template: Some("folders".into()) }],
    }
}

#[test]
fn engine_spec_takes_priority_over_path_like_word() {
    let mut spec_store = SpecStore::new();
    spec_store.insert(cd_spec());
    let engine = SuggestionEngine::new(spec_store, HistoryProvider::from_entries(vec![]));
    let ctx = make_ctx(Some("cd"), vec![], "Desktop/", 1);
    let needs = engine.needs(&ctx);
    assert!(needs.filesystem);
    assert!(needs.folders_only);
    assert!(!needs.commands);
    assert!(needs.generators.is_empty());
}

#[test]
fn engine_path_like_word_with_spec_uses_spec() {
    let engine = make_engine();
    let ctx = make_ctx(Some("git"), vec![], "ch/", 1);
    let needs = engine.needs(&ctx);
    assert!(!needs.filesystem);
    let results = engine.suggest_sync(&ctx, &files_fetched(&["ch/x.rs"]));
    assert!(!results.iter().any(|s| s.text == "ch/x.rs"));
}

#[test]
fn engine_filepaths_needs_all_entries() {
    let engine = make_engine();
    let ctx = make_ctx(Some("git"), vec!["add"], "", 2);
    let needs = engine.needs(&ctx);
    assert!(needs.filesystem && !needs.folders_only);
}

#[test]
fn test_unknown_command_falls_back_to_filesystem() {
    let engine = make_engine();
    let ctx = make_ctx(Some("unknown_cmd"), vec![], "", 1);
    let results = engine.suggest_sync(&ctx, &files_fetched(&["data.csv"]));
    assert!(results.iter().any(|s| s.text == "data.csv"));
}

#[test]
fn engine_generators_are_asked_for_and_used() {
    let engine = make_engine();
    let ctx = make_ctx(Some("git"), vec!["checkout"], "", 2);
    let needs = engine.needs(&ctx);
    assert_eq!(needs.generators, vec!["git_branches".to_string()]);
    assert!(!needs.filesystem);
    let branch = Suggestion {
        text: "main".into(),
        description: None,
        kind: SuggestionKind::GitBranch,
        source: SuggestionSource::Git,
        score: 0,
    };
    let fetched = Fetched { commands: vec![], filesystem: vec![], git: vec![vec![branch]] };
    let results = engine.suggest_sync(&ctx, &fetched);
    assert!(results.iter().any(|s| s.text == "main" && s.source == SuggestionSource::Git));
}

#[test]
fn engine_filepaths_template_adds_files() {
    let engine = make_engine();
    let ctx = make_ctx(Some("git"), vec!["add"], "", 2);
    assert!(engine.needs(&ctx).filesystem);
    let results = engine.suggest_sync(&ctx, &files_fetched(&["README.md"]));
    assert!(results.iter().any(|s| s.text == "README.md"));
}

#[test]
fn spec_store_insert_replaces_same_name() {
    let mut store = SpecStore::new();
    store.insert(git_spec());
    let mut other = git_spec();
    other.description = Some("second".into());
    store.insert(other);
    assert_eq!(store.get("git").unwrap().description.as_deref(), Some("second"));
    assert!(store.get("cargo").is_none());
}

#[test]
fn engine_option_value_offers_files_not_flags() {
    let mut spec_store = SpecStore::new();
    spec_store.insert(CompletionSpec {
        name: "curl".into(),
        description: None,
        subcommands: vec![],
        options: vec![OptionSpec {
            name: vec!["-o".into()],
            description: None,
            args: Some(ArgSpec { name: None, description: None, generators: vec![], template: Some("filepaths".into()) }),
        }],
        args: vec![],
    });
    let engine = SuggestionEngine::new(spec_store, HistoryProvider::from_entries(vec![]));
    let mut ctx = make_ctx(Some("curl"), vec!["-o"], "", 2);
    ctx.preceding_flag = Some("-o".into());
    assert!(engine.needs(&ctx).filesystem);
    let results = engine.suggest_sync(&ctx, &files_fetched(&["out.txt"]));
    assert!(results.iter().any(|s| s.text == "out.txt"));
    assert!(!results.iter().any(|s| s.text == "-o"));
}

#[test]
fn spec_load_warning_counts_failures() {
    let ok = SpecLoadResult { store: SpecStore::new(), errors: vec![] };
    assert_eq!(ok.warning(), None);
    let bad = SpecLoadResult { store: SpecStore::new(), errors: vec!["a.json: x".into(), "b.json: y".into()] };
    assert_eq!(
        bad.warning().as_deref(),
        Some("2 spec(s) failed to load, run ghost-complete validate-specs for details")
    );
}

#[test]
fn store_from_loaded_specs_keeps_last_of_each_name() {
    let mut second = git_spec();
    second.description = Some("later".into());
    let mut other = git_spec();
    other.name = "hg".into();
    let store = SpecStore::from_specs(vec![git_spec(), other, second]);
    assert_eq!(store.get("git").unwrap().description.as_deref(), Some("later"));
    assert_eq!(store.get("hg").unwrap().name, "hg");
    assert!(store.get("svn").is_none());
}
