use ghost_complete::context::CommandContext;
use ghost_complete::specs::{resolve_spec, ArgSpec, CompletionSpec, GeneratorSpec, OptionSpec, SubcommandSpec};
use ghost_complete::tokenizer::QuoteState;

fn test_spec() -> CompletionSpec {
    CompletionSpec {
        name: "test-cmd".into(),
        description: Some("A test command".into()),
        subcommands: vec![
            SubcommandSpec {
                name: "sub1".into(),
                description: Some("First subcommand".into()),
                subcommands: vec![],
                options: vec![OptionSpec {
                    name: vec!["--verbose".into(), "-v".into()],
                    description: Some("Verbose output".into()),
                    args: None,
                }],
                args: vec![ArgSpec {
                    name: Some("target".into()),
                    description: None,
                    generators: vec![GeneratorSpec { generator_type: "git_branches".into() }],
                    template: None,
                }],
            },
            SubcommandSpec {
                name: "sub2".into(),
                description: Some("Second subcommand".into()),
                subcommands: vec![],
                options: vec![],
                args: vec![],
            },
        ],
        options: vec![OptionSpec {
            name: vec!["--help".into(), "-h".into()],
            description: Some("Show help".into()),
            args: None,
        }],
        args: vec![],
    }
}

fn arg_spec(name: &str, template: &str) -> ArgSpec {
    ArgSpec { name: Some(name.into()), description: None, generators: vec![], template: Some(template.into()) }
}

fn ctx_with(command: &str, args: Vec<&str>, current_word: &str, word_index: usize) -> CommandContext {
    CommandContext {
        command: Some(command.into()),
        args: args.into_iter().map(String::from).collect(),
        current_word: current_word.into(),
        word_index,
        is_flag: current_word.starts_with('-'),
        is_long_flag: current_word.starts_with("--"),
        preceding_flag: None,
        in_pipe: false,
        in_redirect: false,
        quote_state: QuoteState::Unquoted,
    }
}

#[test]
fn test_resolve_top_level_subcommands() {
    let spec = test_spec();
    let ctx = ctx_with("test-cmd", vec![], "", 1);
    let res = resolve_spec(&spec, &ctx);
    let names: Vec<&str> = res.subcommands.iter().map(|s| s.text.as_str()).collect();
    assert!(names.contains(&"sub1"));
    assert!(names.contains(&"sub2"));
}

#[test]
fn test_resolve_subcommand_options() {
    let spec = test_spec();
    let ctx = ctx_with("test-cmd", vec!["sub1"], "--", 2);
    let res = resolve_spec(&spec, &ctx);
    let names: Vec<&str> = res.options.iter().map(|s| s.text.as_str()).collect();
    assert!(names.contains(&"--verbose"));
    assert!(names.contains(&"-v"));
}

#[test]
fn test_resolve_generators() {
    let spec = test_spec();
    let ctx = ctx_with("test-cmd", vec!["sub1"], "", 2);
    let res = resolve_spec(&spec, &ctx);
    assert!(res.generators.contains(&"git_branches".to_string()));
}

#[test]
fn test_resolve_unknown_subcommand_doesnt_panic() {
    let spec = test_spec();
    let ctx = ctx_with("test-cmd", vec!["nonexistent"], "", 2);
    let res = resolve_spec(&spec, &ctx);
    // Should not panic — returns top-level completions since "nonexistent"
    // didn't match any subcommand
    assert!(res.subcommands.is_empty() || !res.subcommands.is_empty());
}

#[test]
fn test_folders_template_sets_wants_folders_only() {
    let spec = CompletionSpec {
        name: "cd".into(),
        description: Some("Change directory".into()),
        subcommands: vec![],
        options: vec![],
        args: vec![arg_spec("directory", "folders")],
    };
    let ctx = ctx_with("cd", vec![], "", 1);
    let res = resolve_spec(&spec, &ctx);
    assert!(res.wants_folders_only, "folders template should set wants_folders_only");
    assert!(!res.wants_filepaths, "folders template should NOT set wants_filepaths");
}

#[test]
fn test_filepaths_template_sets_wants_filepaths() {
    let spec = CompletionSpec {
        name: "cat".into(),
        description: Some("Concatenate files".into()),
        subcommands: vec![],
        options: vec![],
        args: vec![arg_spec("file", "filepaths")],
    };
    let ctx = ctx_with("cat", vec![], "", 1);
    let res = resolve_spec(&spec, &ctx);
    assert!(res.wants_filepaths, "filepaths template should set wants_filepaths");
    assert!(!res.wants_folders_only, "filepaths template should NOT set wants_folders_only");
}

#[test]
fn resolve_top_level_lists_all_option_names() {
    let spec = test_spec();
    let ctx = ctx_with("test-cmd", vec![], "-", 1);
    let res = resolve_spec(&spec, &ctx);
    let names: Vec<&str> = res.options.iter().map(|s| s.text.as_str()).collect();
    assert_eq!(names, vec!["--help", "-h"]);
    assert_eq!(res.options[0].description.as_deref(), Some("Show help"));
}

fn curl_spec() -> CompletionSpec {
    CompletionSpec {
        name: "curl".into(),
        description: None,
        subcommands: vec![],
        options: vec![
            OptionSpec { name: vec!["-o".into(), "--output".into()], description: None, args: Some(arg_spec("file", "filepaths")) },
            OptionSpec { name: vec!["-s".into()], description: None, args: None },
        ],
        args: vec![],
    }
}

#[test]
fn option_argument_template_applies() {
    let mut ctx = ctx_with("curl", vec!["-o"], "", 2);
    ctx.preceding_flag = Some("-o".into());
    let res = resolve_spec(&curl_spec(), &ctx);
    assert!(res.wants_filepaths);
    assert!(res.in_option_arg);
}

#[test]
fn flag_without_argument_keeps_positional_args() {
    let mut ctx = ctx_with("curl", vec!["-s"], "", 2);
    ctx.preceding_flag = Some("-s".into());
    let res = resolve_spec(&curl_spec(), &ctx);
    assert!(!res.wants_filepaths);
    assert!(!res.in_option_arg);
    assert_eq!(res.options.len(), 3);
}
