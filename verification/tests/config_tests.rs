use ghost_complete::config::{GhostConfig, DEFAULT_CONFIG_TOML};

#[test]
fn test_default_config_matches_hardcoded() {
    let config = GhostConfig::default();
    assert_eq!(config.trigger.auto_chars, vec![' ', '/', '-', '.']);
    assert_eq!(config.trigger.delay_ms, 150);
    assert_eq!(config.popup.max_visible, 10);
    assert_eq!(config.popup.min_width, 20);
    assert_eq!(config.popup.max_width, 60);
    assert_eq!(config.suggest.max_results, 50);
    assert_eq!(config.suggest.max_history_entries, 10_000);
    assert!(config.suggest.providers.commands);
    assert!(config.suggest.providers.history);
    assert!(config.suggest.providers.filesystem);
    assert!(config.suggest.providers.specs);
    assert!(config.suggest.providers.git);
    assert!(config.paths.spec_dirs.is_empty());
    assert_eq!(config.keybindings.accept, "tab");
    assert_eq!(config.keybindings.accept_and_enter, "enter");
    assert_eq!(config.keybindings.dismiss, "escape");
    assert_eq!(config.keybindings.navigate_up, "arrow_up");
    assert_eq!(config.keybindings.navigate_down, "arrow_down");
    assert_eq!(config.keybindings.trigger, "ctrl+/");
    assert_eq!(config.theme.selected, "reverse");
    assert_eq!(config.theme.description, "dim");
}

#[test]
fn default_config_text_holds_the_defaults() {
    let table: toml::Table = toml::from_str(DEFAULT_CONFIG_TOML).unwrap();
    let d = GhostConfig::default();
    let trigger = table["trigger"].as_table().unwrap();
    assert_eq!(trigger["delay_ms"].as_integer().unwrap() as u64, d.trigger.delay_ms);
    let chars: Vec<char> = trigger["auto_chars"]
        .as_array()
        .unwrap()
        .iter()
        .map(|v| v.as_str().unwrap().chars().next().unwrap())
        .collect();
    assert_eq!(chars, d.trigger.auto_chars);
    let popup = table["popup"].as_table().unwrap();
    assert_eq!(popup["max_visible"].as_integer().unwrap() as usize, d.popup.max_visible);
    assert_eq!(popup["min_width"].as_integer().unwrap() as u16, d.popup.min_width);
    assert_eq!(popup["max_width"].as_integer().unwrap() as u16, d.popup.max_width);
    let suggest = table["suggest"].as_table().unwrap();
    assert_eq!(suggest["max_results"].as_integer().unwrap() as usize, d.suggest.max_results);
    assert_eq!(suggest["max_history_entries"].as_integer().unwrap() as usize, d.suggest.max_history_entries);
    let providers = suggest["providers"].as_table().unwrap();
    for name in ["commands", "history", "filesystem", "specs", "git"] {
        assert!(providers[name].as_bool().unwrap());
    }
    assert!(table["paths"]["spec_dirs"].as_array().unwrap().is_empty());
    let keys = table["keybindings"].as_table().unwrap();
    assert_eq!(keys["accept"].as_str().unwrap(), d.keybindings.accept);
    assert_eq!(keys["accept_and_enter"].as_str().unwrap(), d.keybindings.accept_and_enter);
    assert_eq!(keys["dismiss"].as_str().unwrap(), d.keybindings.dismiss);
    assert_eq!(keys["navigate_up"].as_str().unwrap(), d.keybindings.navigate_up);
    assert_eq!(keys["navigate_down"].as_str().unwrap(), d.keybindings.navigate_down);
    assert_eq!(keys["trigger"].as_str().unwrap(), d.keybindings.trigger);
    assert_eq!(table["theme"]["selected"].as_str().unwrap(), d.theme.selected);
    assert_eq!(table["theme"]["description"].as_str().unwrap(), d.theme.description);
}
