use mise_completions_sync::tool_id::{extract_tool_name, is_version_component};

#[test]
fn test_is_version_component() {
    // v-prefixed versions
    assert!(is_version_component("v5"));
    assert!(is_version_component("v1"));
    assert!(is_version_component("v1.0"));
    assert!(is_version_component("v2.3.1"));

    // Plain semver
    assert!(is_version_component("1.0.0"));
    assert!(is_version_component("2.3.1"));
    assert!(is_version_component("5"));

    // Special cases
    assert!(is_version_component("latest"));

    // Not versions
    assert!(!is_version_component("kustomize"));
    assert!(!is_version_component("gopls"));
    assert!(!is_version_component("kubectl-ai"));
    assert!(!is_version_component("v")); // just 'v' alone
    assert!(!is_version_component("")); // empty
}

#[test]
fn test_extract_tool_name_no_prefix() {
    assert_eq!(extract_tool_name("yq"), "yq");
    assert_eq!(extract_tool_name("kubectl"), "kubectl");
    assert_eq!(extract_tool_name("mise"), "mise");
}

#[test]
fn test_extract_tool_name_go_backend() {
    assert_eq!(extract_tool_name("go:golang.org/x/tools/gopls"), "gopls");
    assert_eq!(extract_tool_name("go:example.com/tool"), "tool");
}

#[test]
fn test_extract_tool_name_go_backend_with_version() {
    // Go module paths with version suffix
    assert_eq!(
        extract_tool_name("go:sigs.k8s.io/kustomize/kustomize/v5"),
        "kustomize"
    );
    assert_eq!(
        extract_tool_name("go:github.com/golangci/golangci-lint/cmd/golangci-lint/v2"),
        "golangci-lint"
    );
    assert_eq!(extract_tool_name("go:example.com/tool/tool/v1.0.0"), "tool");
}

#[test]
fn test_extract_tool_name_aqua_backend() {
    assert_eq!(extract_tool_name("aqua:reteps/dockerfmt"), "dockerfmt");
    assert_eq!(extract_tool_name("aqua:helm/helm"), "helm");
}

#[test]
fn test_extract_tool_name_github_backend() {
    assert_eq!(
        extract_tool_name("github:GoogleCloudPlatform/kubectl-ai"),
        "kubectl-ai"
    );
    assert_eq!(extract_tool_name("github:cli/cli"), "cli");
}

#[test]
fn test_extract_tool_name_complex_paths() {
    // Multiple slashes in path (now with version handling)
    assert_eq!(
        extract_tool_name("go:sigs.k8s.io/kustomize/kustomize/v5"),
        "kustomize"
    );
    // Single component after colon
    assert_eq!(extract_tool_name("aqua:simple-tool"), "simple-tool");
}

#[test]
fn version_components_with_odd_shapes() {
    // `v` followed by dots only still counts, as does a bare dotted number
    assert!(is_version_component("v.."));
    assert!(is_version_component("1."));
    // dots without a digit do not
    assert!(!is_version_component("..."));
    assert!(!is_version_component("v1a"));
    assert!(!is_version_component("1.0-beta"));
    assert!(!is_version_component("Latest"));
}

#[test]
fn version_suffix_without_parent_is_kept() {
    // a version with no component before it stays the short name
    assert_eq!(extract_tool_name("go:v5"), "v5");
    assert_eq!(extract_tool_name("aqua:latest"), "latest");
}

#[test]
fn only_the_first_colon_splits_the_prefix() {
    assert_eq!(extract_tool_name("ubi:owner/repo:extra"), "repo:extra");
    assert_eq!(extract_tool_name("npm:@scope/pkg"), "pkg");
}

#[test]
fn trailing_slash_gives_an_empty_last_component() {
    assert_eq!(extract_tool_name("go:example.com/tool/"), "");
    assert_eq!(extract_tool_name("go:/v2"), "");
    assert_eq!(extract_tool_name("go:"), "");
}

#[test]
fn prefixed_short_names_hold_no_slash() {
    for id in [
        "go:golang.org/x/tools/gopls",
        "go:sigs.k8s.io/kustomize/kustomize/v5",
        "aqua:a/b/c/latest",
        "github:x/y",
    ] {
        assert!(!extract_tool_name(id).contains('/'));
    }
}
