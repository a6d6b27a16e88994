use rm4dev::agent::container_web_password;
use rm4dev::error::AppError;
use rm4dev::mounts::{looks_like_mount_spec, mount_host_part, parse_mount_spec, MountSpec};
use rm4dev::naming::{
    container_name_at, generate_container_name, is_agent_container_name,
    is_valid_container_name, normalize_container_name, CONTAINER_PREFIX,
};

#[test]
fn normalizes_short_container_names() {
    assert_eq!(
        normalize_container_name("alpha").unwrap(),
        "rm4dev-agent-alpha"
    );
}

#[test]
fn preserves_prefixed_container_names() {
    assert_eq!(
        normalize_container_name("rm4dev-agent-alpha").unwrap(),
        "rm4dev-agent-alpha"
    );
}

#[test]
fn rejects_invalid_container_names() {
    let error = normalize_container_name("alpha/beta").unwrap_err();
    assert!(error.render().contains("invalid container name"));
}

#[test]
fn empty_container_names_are_rejected() {
    assert_eq!(
        normalize_container_name("  ").unwrap_err(),
        AppError::Usage("container name cannot be empty".to_string())
    );
    assert_eq!(
        normalize_container_name("").unwrap_err(),
        AppError::Usage("container name cannot be empty".to_string())
    );
}

#[test]
fn invalid_name_error_quotes_the_input() {
    assert_eq!(
        normalize_container_name("a b").unwrap_err(),
        AppError::Usage(
            "invalid container name `a b`; use letters, numbers, `.`, `_`, or `-`".to_string()
        )
    );
    assert_eq!(normalize_container_name("a b").unwrap_err().exit_code(), 2);
}

#[test]
fn normalizing_twice_changes_nothing() {
    for input in ["alpha", "rm4dev-agent-beta", "a.b_c-d", "7"] {
        let once = normalize_container_name(input).unwrap();
        let twice = normalize_container_name(&once).unwrap();
        assert_eq!(once, twice);
        assert!(is_agent_container_name(&once));
        assert!(is_valid_container_name(&once));
    }
}

#[test]
fn container_name_rules() {
    assert!(is_valid_container_name("a"));
    assert!(is_valid_container_name("A1.b_c-d"));
    assert!(!is_valid_container_name(""));
    assert!(!is_valid_container_name("-a"));
    assert!(!is_valid_container_name(".a"));
    assert!(!is_valid_container_name("a/b"));
    assert!(!is_valid_container_name("é"));
    assert!(is_agent_container_name("rm4dev-agent-x"));
    assert!(is_agent_container_name("rm4dev-agent-"));
    assert!(!is_agent_container_name("rm4dev-agen"));
}

#[test]
fn timestamp_names_are_valid_agent_names() {
    assert_eq!(container_name_at(0), "rm4dev-agent-0");
    assert_eq!(container_name_at(1_712_345_678), "rm4dev-agent-1712345678");
    let name = container_name_at(u64::MAX);
    assert_eq!(name, format!("{}{}", CONTAINER_PREFIX, u64::MAX));
    assert_eq!(normalize_container_name(&name).unwrap(), name);
}

#[test]
fn generated_names_carry_the_current_time() {
    let name = generate_container_name();
    let digits = name.strip_prefix(CONTAINER_PREFIX).unwrap();
    let seconds: u64 = digits.parse().unwrap();
    assert!(seconds > 1_600_000_000);
    assert_eq!(normalize_container_name(&name).unwrap(), name);
}

#[test]
fn web_password_is_the_name_without_prefix() {
    assert_eq!(container_web_password("rm4dev-agent-alpha"), "alpha");
    assert_eq!(container_web_password("other"), "other");
    assert_eq!(container_web_password("rm4dev-agent-"), "");
}

#[test]
fn mount_specs_are_recognized_by_a_colon() {
    assert!(looks_like_mount_spec("/tmp:/workspace"));
    assert!(looks_like_mount_spec(":"));
    assert!(!looks_like_mount_spec("alpha"));
    assert_eq!(mount_host_part("/a:b:/c"), Some("/a:b".to_string()));
    assert_eq!(mount_host_part("alpha"), None);
}

#[test]
fn mount_arg_is_a_bind_mount() {
    let mount = MountSpec {
        host: "/tmp".to_string(),
        container: "/workspace".to_string(),
    };
    assert_eq!(mount.podman_mount_arg(), "type=bind,src=/tmp,target=/workspace");
}

#[test]
fn parses_mount_with_resolved_host() {
    let parsed = parse_mount_spec("./src:/workspace", &Ok("/home/u/src".to_string())).unwrap();
    assert_eq!(
        parsed,
        MountSpec {
            host: "/home/u/src".to_string(),
            container: "/workspace".to_string()
        }
    );
}

#[test]
fn mount_errors() {
    assert_eq!(
        parse_mount_spec("nocolon", &Ok("/x".to_string())).unwrap_err(),
        AppError::Usage("invalid mount `nocolon`; expected host_path:container_path".to_string())
    );
    assert_eq!(
        parse_mount_spec(":/w", &Ok("/x".to_string())).unwrap_err(),
        AppError::Usage(
            "invalid mount `:/w`; both host and container paths are required".to_string()
        )
    );
    assert_eq!(
        parse_mount_spec("/tmp:", &Ok("/x".to_string())).unwrap_err(),
        AppError::Usage(
            "invalid mount `/tmp:`; both host and container paths are required".to_string()
        )
    );
    assert_eq!(
        parse_mount_spec("/tmp:work", &Ok("/x".to_string())).unwrap_err(),
        AppError::Usage("invalid mount `/tmp:work`; container path must be absolute".to_string())
    );
    assert_eq!(
        parse_mount_spec("/missing:/w", &Err("No such file or directory".to_string()))
            .unwrap_err(),
        AppError::Io {
            context: "failed to resolve mount source `/missing`".to_string(),
            source: "No such file or directory".to_string()
        }
    );
}
