use mise_completions_sync::registry::{resolve_registry, RawRegistry, Registry, ToolCompletions, ToolEntry};
use mise_completions_sync::shells::{completion_filename, supported_shell, tool_from_filename};
use mise_completions_sync::sync::{
    get_completions_base_dir, get_completions_dir, installed_tool_ids, installed_tool_map,
    mise_exec_command, plan_shell, plan_sync, specific_tool_map, stale_completion, tools_in_registry, Error,
};

fn pairs(v: &[(&str, &str)]) -> Vec<(String, String)> {
    v.iter().map(|(a, b)| (a.to_string(), b.to_string())).collect()
}

fn registry() -> Registry {
    let raw = RawRegistry {
        schema_version: Some(1),
        patterns: vec![],
        tools: vec![
            (
                "kustomize".to_string(),
                ToolEntry::Explicit(ToolCompletions {
                    zsh: Some("kustomize completion zsh".to_string()),
                    bash: Some("kustomize completion bash".to_string()),
                    fish: None,
                }),
            ),
            (
                "gh".to_string(),
                ToolEntry::Explicit(ToolCompletions {
                    zsh: Some("gh completion -s zsh".to_string()),
                    bash: None,
                    fish: Some("gh completion -s fish".to_string()),
                }),
            ),
        ],
    };
    resolve_registry(&raw).unwrap()
}

#[test]
fn base_dir_prefers_xdg_data_home() {
    assert_eq!(
        get_completions_base_dir(Some("/xdg"), Some("/home/u")),
        "/xdg/mise-completions"
    );
    assert_eq!(
        get_completions_base_dir(None, Some("/home/u")),
        "/home/u/.local/share/mise-completions"
    );
    assert_eq!(
        get_completions_base_dir(None, None),
        ".local/share/mise-completions"
    );
}

#[test]
fn completions_dir_is_per_shell() {
    assert_eq!(get_completions_dir("/base", "zsh").unwrap(), "/base/zsh");
    assert_eq!(get_completions_dir("/base/", "bash").unwrap(), "/base/bash");
    assert_eq!(get_completions_dir("/base", "fish").unwrap(), "/base/fish");
    match get_completions_dir("/base", "nu") {
        Err(Error::UnsupportedShell(s)) => assert_eq!(s, "nu"),
        other => panic!("unexpected {:?}", other),
    }
    assert!(supported_shell("zsh"));
    assert!(!supported_shell("elvish"));
}

#[test]
fn completion_file_names_follow_each_shell() {
    assert_eq!(completion_filename("zsh", "gh"), "_gh");
    assert_eq!(completion_filename("bash", "gh"), "gh");
    assert_eq!(completion_filename("fish", "gh"), "gh.fish");
    assert_eq!(tool_from_filename("zsh", "_gh").as_deref(), Some("gh"));
    assert_eq!(tool_from_filename("zsh", "gh"), None);
    assert_eq!(tool_from_filename("bash", "gh").as_deref(), Some("gh"));
    assert_eq!(tool_from_filename("fish", "gh.fish").as_deref(), Some("gh"));
    assert_eq!(tool_from_filename("fish", "gh.zsh"), None);
    assert_eq!(tool_from_filename("nu", "gh"), None);
    for shell in ["zsh", "bash", "fish"] {
        for tool in ["gh", "kubectl-ai", ""] {
            let f = completion_filename(shell, tool);
            assert_eq!(tool_from_filename(shell, &f).as_deref(), Some(tool));
        }
    }
}

#[test]
fn failed_listing_reports_stderr() {
    match installed_tool_ids(false, b"{}", b"mise: not found") {
        Err(Error::MiseList(m)) => assert_eq!(m, "mise: not found"),
        other => panic!("unexpected {:?}", other),
    }
}

#[test]
fn invalid_json_is_reported() {
    match installed_tool_ids(true, b"not json", b"") {
        Err(Error::MiseList(m)) => assert!(!m.is_empty()),
        other => panic!("unexpected {:?}", other),
    }
}

#[test]
fn listing_gives_the_top_level_keys() {
    let ids = installed_tool_ids(
        true,
        br#"{"go:sigs.k8s.io/kustomize/kustomize/v5": [], "node": [{"version": "20"}]}"#,
        b"",
    )
    .unwrap();
    let mut sorted = ids.clone();
    sorted.sort();
    assert_eq!(
        sorted,
        vec![
            "go:sigs.k8s.io/kustomize/kustomize/v5".to_string(),
            "node".to_string()
        ]
    );
    assert!(installed_tool_ids(true, b"[1, 2]", b"").unwrap().is_empty());
}

#[test]
fn installed_map_keeps_found_tools_under_their_short_names() {
    let ids = vec![
        "aqua:helm/helm".to_string(),
        "go:sigs.k8s.io/kustomize/kustomize/v5".to_string(),
        "helm".to_string(),
        "missing".to_string(),
    ];
    let map = installed_tool_map(&ids, &vec![true, true, true, false]);
    assert_eq!(
        map,
        pairs(&[
            ("helm", "aqua:helm/helm"),
            ("kustomize", "go:sigs.k8s.io/kustomize/kustomize/v5"),
        ])
    );
}

#[test]
fn specific_tools_are_their_own_ids_once_each() {
    let tools = vec!["gh".to_string(), "rg".to_string(), "gh".to_string()];
    assert_eq!(specific_tool_map(&tools), pairs(&[("gh", "gh"), ("rg", "rg")]));
}

#[test]
fn only_registered_tools_are_synced() {
    let reg = registry();
    let tools = pairs(&[
        ("rg", "rg"),
        ("kustomize", "go:sigs.k8s.io/kustomize/kustomize/v5"),
        ("gh", "gh"),
    ]);
    assert_eq!(
        tools_in_registry(&reg, &tools),
        pairs(&[
            ("kustomize", "go:sigs.k8s.io/kustomize/kustomize/v5"),
            ("gh", "gh")
        ])
    );
}

#[test]
fn commands_run_through_mise() {
    assert_eq!(
        mise_exec_command("go:x/y", "y completion zsh"),
        "mise x go:x/y -- y completion zsh"
    );
}

#[test]
fn plan_lists_one_job_per_tool_with_a_command() {
    let reg = registry();
    let tools = pairs(&[
        ("kustomize", "go:sigs.k8s.io/kustomize/kustomize/v5"),
        ("gh", "gh"),
    ]);
    let (dir, jobs) = plan_shell(&reg, &tools, "fish", "/c").unwrap();
    assert_eq!(dir, "/c/fish");
    assert_eq!(jobs.len(), 1);
    assert_eq!(jobs[0].tool_id, "gh");
    assert_eq!(jobs[0].tool_name, "gh");
    assert_eq!(jobs[0].script, "mise x gh -- gh completion -s fish");
    assert_eq!(jobs[0].file_name, "gh.fish");

    let (dir, jobs) = plan_shell(&reg, &tools, "zsh", "/c").unwrap();
    assert_eq!(dir, "/c/zsh");
    assert_eq!(jobs.len(), 2);
    assert_eq!(
        jobs[0].script,
        "mise x go:sigs.k8s.io/kustomize/kustomize/v5 -- kustomize completion zsh"
    );
    assert_eq!(jobs[0].file_name, "_kustomize");
    assert_eq!(jobs[1].file_name, "_gh");

    assert!(matches!(
        plan_shell(&reg, &tools, "tcsh", "/c"),
        Err(Error::UnsupportedShell(_))
    ));
}

#[test]
fn stale_files_belong_to_registered_tools_no_longer_installed() {
    let reg = registry();
    let installed = pairs(&[("kustomize", "go:sigs.k8s.io/kustomize/kustomize/v5")]);
    assert_eq!(
        stale_completion(&reg, &installed, "zsh", "_gh").as_deref(),
        Some("gh")
    );
    assert_eq!(stale_completion(&reg, &installed, "zsh", "_kustomize"), None);
    assert_eq!(stale_completion(&reg, &installed, "zsh", "_rg"), None);
    assert_eq!(stale_completion(&reg, &installed, "zsh", "gh"), None);
    assert_eq!(
        stale_completion(&reg, &installed, "fish", "gh.fish").as_deref(),
        Some("gh")
    );
    // what a sync writes for an installed tool is never stale
    for shell in ["zsh", "bash", "fish"] {
        let f = completion_filename(shell, "kustomize");
        assert_eq!(stale_completion(&reg, &installed, shell, &f), None);
    }
}

#[test]
fn sync_plan_stops_at_the_first_unsupported_shell() {
    let reg = registry();
    let tools = pairs(&[("gh", "gh"), ("rg", "rg")]);
    let shells = vec!["fish".to_string(), "nu".to_string(), "zsh".to_string()];
    let plan = plan_sync(&reg, &tools, &shells, "/c");
    assert_eq!(plan.tools, pairs(&[("gh", "gh")]));
    assert_eq!(plan.shells.len(), 1);
    assert_eq!(plan.shells[0].shell, "fish");
    assert_eq!(plan.shells[0].dir, "/c/fish");
    assert_eq!(plan.shells[0].jobs.len(), 1);
    assert_eq!(plan.shells[0].jobs[0].file_name, "gh.fish");
    match plan.outcome {
        Err(Error::UnsupportedShell(s)) => assert_eq!(s, "nu"),
        other => panic!("unexpected {:?}", other),
    }
}

#[test]
fn sync_plan_without_registered_tools_checks_no_shell() {
    let reg = registry();
    let tools = pairs(&[("rg", "rg")]);
    let shells = vec!["nu".to_string()];
    let plan = plan_sync(&reg, &tools, &shells, "/c");
    assert!(plan.tools.is_empty());
    assert!(plan.shells.is_empty());
    assert!(plan.outcome.is_ok());
}

#[test]
fn sync_plan_covers_every_supported_shell() {
    let reg = registry();
    let tools = pairs(&[("kustomize", "go:sigs.k8s.io/kustomize/kustomize/v5"), ("gh", "gh")]);
    let shells = vec!["zsh".to_string(), "bash".to_string()];
    let plan = plan_sync(&reg, &tools, &shells, "/c/");
    assert!(plan.outcome.is_ok());
    assert_eq!(plan.shells.len(), 2);
    assert_eq!(plan.shells[0].dir, "/c/zsh");
    assert_eq!(plan.shells[0].jobs.len(), 2);
    assert_eq!(plan.shells[1].dir, "/c/bash");
    assert_eq!(plan.shells[1].jobs.len(), 1);
    assert_eq!(plan.shells[1].jobs[0].file_name, "kustomize");
}

#[test]
fn paths_join_in_unix_form() {
    assert_eq!(get_completions_base_dir(Some("/x/"), None), "/x/mise-completions");
    assert_eq!(get_completions_base_dir(Some(""), None), "mise-completions");
    assert_eq!(get_completions_dir("", "zsh").unwrap(), "zsh");
}

#[test]
fn invalid_json_is_reported_with_serde_json_message() {
    let expected = serde_json::from_str::<serde_json::Value>("not json")
        .unwrap_err()
        .to_string();
    match installed_tool_ids(true, b"not json", b"") {
        Err(Error::MiseList(m)) => assert_eq!(m, expected),
        other => panic!("unexpected {:?}", other),
    }
}
