use mise_completions_sync::registry::{
    fill_template, registry_file_candidates, resolve_registry, RawRegistry, ToolCompletions,
    ToolEntry, CURRENT_SCHEMA_VERSION,
};
use mise_completions_sync::sync::Error;

fn cmds(zsh: Option<&str>, bash: Option<&str>, fish: Option<&str>) -> ToolCompletions {
    ToolCompletions {
        zsh: zsh.map(|s| s.to_string()),
        bash: bash.map(|s| s.to_string()),
        fish: fish.map(|s| s.to_string()),
    }
}

fn clap_pattern() -> ToolCompletions {
    cmds(
        Some("{} completions zsh"),
        Some("{} completions bash"),
        Some("{} completions fish"),
    )
}

fn raw(version: Option<u32>, tools: Vec<(&str, ToolEntry)>) -> RawRegistry {
    RawRegistry {
        schema_version: version,
        patterns: vec![("clap".to_string(), clap_pattern())],
        tools: tools.into_iter().map(|(n, e)| (n.to_string(), e)).collect(),
    }
}

#[test]
fn get_picks_the_command_of_each_shell() {
    let c = cmds(Some("a"), Some("b"), None);
    assert_eq!(c.get("zsh").map(|s| s.as_str()), Some("a"));
    assert_eq!(c.get("bash").map(|s| s.as_str()), Some("b"));
    assert_eq!(c.get("fish"), None);
    assert_eq!(c.get("powershell"), None);
    assert_eq!(c.get(""), None);
    assert_eq!(c.get("ZSH"), None);
}

#[test]
fn fill_template_replaces_every_placeholder() {
    assert_eq!(fill_template("{} completion {}", "rg"), "rg completion rg");
    assert_eq!(fill_template("no placeholder", "rg"), "no placeholder");
    assert_eq!(fill_template("{{}}", "x"), "{x}");
    assert_eq!(fill_template("{", "x"), "{");
    assert_eq!(fill_template("", "x"), "");
    assert_eq!(fill_template("{}{}", "ab"), "abab");
    assert_eq!(fill_template("{}", ""), "");
}

#[test]
fn expand_fills_each_shell_command() {
    let e = clap_pattern().expand("prek");
    assert_eq!(e.zsh.as_deref(), Some("prek completions zsh"));
    assert_eq!(e.bash.as_deref(), Some("prek completions bash"));
    assert_eq!(e.fish.as_deref(), Some("prek completions fish"));
    let partial = cmds(None, Some("{} --bash"), None).expand("jj");
    assert_eq!(partial.zsh, None);
    assert_eq!(partial.bash.as_deref(), Some("jj --bash"));
    assert_eq!(partial.fish, None);
}

#[test]
fn missing_schema_version_is_refused() {
    let r = resolve_registry(&raw(None, vec![]));
    assert!(matches!(r, Err(Error::MissingSchemaVersion)));
}

#[test]
fn other_schema_version_is_refused() {
    let r = resolve_registry(&raw(Some(2), vec![]));
    match r {
        Err(Error::IncompatibleSchema { found, expected }) => {
            assert_eq!(found, 2);
            assert_eq!(expected, 1);
        }
        other => panic!("unexpected {:?}", other),
    }
    assert_eq!(CURRENT_SCHEMA_VERSION, 1);
    assert!(matches!(
        resolve_registry(&raw(Some(0), vec![])),
        Err(Error::IncompatibleSchema { found: 0, expected: 1 })
    ));
}

#[test]
fn unknown_pattern_names_the_first_offending_tool() {
    let r = resolve_registry(&raw(
        Some(1),
        vec![
            ("ok", ToolEntry::Pattern("clap".to_string())),
            ("bad", ToolEntry::Pattern("cobra".to_string())),
            ("worse", ToolEntry::Pattern("urfave".to_string())),
        ],
    ));
    match r {
        Err(Error::UnknownPattern(tool, pattern)) => {
            assert_eq!(tool, "bad");
            assert_eq!(pattern, "cobra");
        }
        other => panic!("unexpected {:?}", other),
    }
}

#[test]
fn patterns_are_expanded_and_explicit_entries_kept() {
    let reg = resolve_registry(&raw(
        Some(1),
        vec![
            ("prek", ToolEntry::Pattern("clap".to_string())),
            (
                "gh",
                ToolEntry::Explicit(cmds(Some("gh completion -s zsh"), None, None)),
            ),
        ],
    ))
    .expect("registry resolves");
    assert_eq!(reg.tools.len(), 2);
    let prek = reg.get("prek").expect("prek is registered");
    assert_eq!(prek.zsh.as_deref(), Some("prek completions zsh"));
    assert_eq!(prek.bash.as_deref(), Some("prek completions bash"));
    assert_eq!(prek.fish.as_deref(), Some("prek completions fish"));
    let gh = reg.get("gh").expect("gh is registered");
    assert_eq!(gh.zsh.as_deref(), Some("gh completion -s zsh"));
    assert_eq!(gh.bash, None);
    assert!(reg.contains_key("gh"));
    assert!(!reg.contains_key("rg"));
    assert!(reg.get("rg").is_none());
}

#[test]
fn prek_resolves_to_its_generate_shell_completion_commands() {
    let raw = RawRegistry {
        schema_version: Some(1),
        patterns: vec![(
            "prek-style".to_string(),
            cmds(
                Some("{} util generate-shell-completion zsh"),
                Some("{} util generate-shell-completion bash"),
                Some("{} util generate-shell-completion fish"),
            ),
        )],
        tools: vec![(
            "prek".to_string(),
            ToolEntry::Pattern("prek-style".to_string()),
        )],
    };
    let registry = resolve_registry(&raw).expect("Failed to load registry");
    let prek = registry.get("prek").expect("prek should be in registry");
    assert_eq!(
        prek.zsh.as_deref(),
        Some("prek util generate-shell-completion zsh")
    );
    assert_eq!(
        prek.bash.as_deref(),
        Some("prek util generate-shell-completion bash")
    );
    assert_eq!(
        prek.fish.as_deref(),
        Some("prek util generate-shell-completion fish")
    );
}

#[test]
fn a_tool_listed_twice_keeps_its_last_entry_once() {
    let reg = resolve_registry(&raw(
        Some(1),
        vec![
            ("t", ToolEntry::Explicit(cmds(Some("first"), None, None))),
            ("t", ToolEntry::Explicit(cmds(Some("second"), None, None))),
        ],
    ))
    .expect("registry resolves");
    assert_eq!(reg.tools.len(), 1);
    assert_eq!(reg.get("t").unwrap().zsh.as_deref(), Some("second"));
}

#[test]
fn registry_files_are_looked_for_beside_the_program_then_in_the_data_dir() {
    assert_eq!(
        registry_file_candidates(Some("/opt/bin"), Some("/home/u/.local/share")),
        vec![
            "/opt/bin/registry.toml".to_string(),
            "/home/u/.local/share/mise-completions-sync/registry.toml".to_string()
        ]
    );
    assert_eq!(
        registry_file_candidates(None, Some("/d")),
        vec!["/d/mise-completions-sync/registry.toml".to_string()]
    );
    assert!(registry_file_candidates(None, None).is_empty());
}
