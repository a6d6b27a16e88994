use rm4dev::embed::{
    embedded_context_hash, materialize_embedded_dir, sort_embedded_dir, EmbeddedDir,
    EmbeddedFile, FsAction,
};
use rm4dev::error::AppError;
use rm4dev::image::{
    image_build_args, image_cache_dir, image_exists_args, image_exists_outcome,
    resolve_image_ref, runtime_image_from_env, RuntimeImage, DEFAULT_IMAGE,
};
use rm4dev::paths::join_path;
use rm4dev::process::{capture_outcome, interactive_outcome};
use std::collections::hash_map::DefaultHasher;
use std::hash::{Hash, Hasher};

#[test]
fn runtime_image_defaults_to_auto_managed_image() {
    assert_eq!(
        runtime_image_from_env(None),
        RuntimeImage {
            image: DEFAULT_IMAGE.to_string(),
            auto_ensure: true,
        }
    );
}

#[test]
fn runtime_image_skips_auto_build_for_override() {
    assert_eq!(
        runtime_image_from_env(Some("localhost/custom:dev".to_string())),
        RuntimeImage {
            image: "localhost/custom:dev".to_string(),
            auto_ensure: false,
        }
    );
}

#[test]
fn resolves_default_image_for_explicit_commands() {
    assert_eq!(resolve_image_ref(None), DEFAULT_IMAGE);
    assert_eq!(
        resolve_image_ref(Some("localhost/alt:tag")),
        "localhost/alt:tag"
    );
}

#[test]
fn image_existence_is_read_from_the_exit_code() {
    assert_eq!(image_exists_outcome("img", Some(0), String::new()).unwrap(), true);
    assert_eq!(image_exists_outcome("img", Some(1), String::new()).unwrap(), false);
    assert_eq!(
        image_exists_outcome("img", Some(125), "boom".to_string()).unwrap_err(),
        AppError::CommandFailed {
            program: "podman".to_string(),
            args: vec!["image".to_string(), "exists".to_string(), "img".to_string()],
            status: Some(125),
            stderr: "boom".to_string()
        }
    );
    assert!(image_exists_outcome("img", None, String::new()).is_err());
    assert_eq!(image_exists_args("x"), vec!["image", "exists", "x"]);
    assert_eq!(
        image_build_args("x", "/c/d"),
        vec!["build", "--tag", "x", "/c/d"]
    );
}

#[test]
fn cache_dir_prefers_xdg_then_home_then_temp() {
    assert_eq!(
        image_cache_dir(Some("/xdg"), Some("/home/u"), "/tmp"),
        "/xdg/rm4dev/images/nix-fedora"
    );
    assert_eq!(
        image_cache_dir(None, Some("/home/u"), "/tmp"),
        "/home/u/.cache/rm4dev/images/nix-fedora"
    );
    assert_eq!(
        image_cache_dir(None, None, "/tmp/"),
        "/tmp/rm4dev/images/nix-fedora"
    );
}

#[test]
fn paths_join_like_std() {
    assert_eq!(join_path("/a", "b"), "/a/b");
    assert_eq!(join_path("/a/", "b"), "/a/b");
    assert_eq!(join_path("", "b"), "b");
    assert_eq!(join_path("/a", "/b"), "/b");
    assert_eq!(join_path("/a", ""), "/a/");
}

#[test]
fn captured_commands_report_failures() {
    let args = vec!["--version".to_string()];
    assert_eq!(
        capture_outcome("podman", &args, Some(0), "podman 5".to_string(), String::new()).unwrap(),
        "podman 5"
    );
    let error =
        capture_outcome("podman", &args, Some(2), String::new(), " bad \n".to_string()).unwrap_err();
    assert_eq!(error.render(), "command failed: podman --version (exit 2): bad");
    assert_eq!(error.exit_code(), 1);
    assert!(interactive_outcome("podman", &args, Some(0)).is_ok());
    assert_eq!(
        interactive_outcome("podman", &Vec::new(), None).unwrap_err().render(),
        "command failed: podman (exit terminated by signal)"
    );
    assert_eq!(
        interactive_outcome("podman", &args, Some(-1)).unwrap_err().render(),
        "command failed: podman --version (exit -1)"
    );
}

#[test]
fn every_error_renders_and_has_an_exit_code() {
    let cli = AppError::Cli {
        message: "help".to_string(),
        exit_code: 0,
    };
    assert_eq!(cli.render(), "help");
    assert_eq!(cli.exit_code(), 0);
    let usage = AppError::Usage("bad name".to_string());
    assert_eq!(usage.render(), "bad name");
    assert_eq!(usage.exit_code(), 2);
    let message = AppError::Message("nope".to_string());
    assert_eq!(message.render(), "nope");
    assert_eq!(message.exit_code(), 1);
    let io = AppError::Io {
        context: "failed to execute `podman`".to_string(),
        source: "No such file or directory (os error 2)".to_string(),
    };
    assert_eq!(
        io.render(),
        "failed to execute `podman`: No such file or directory (os error 2)"
    );
    assert_eq!(io.exit_code(), 1);
    let failed = AppError::CommandFailed {
        program: "podman".to_string(),
        args: vec!["rm".to_string(), "x".to_string()],
        status: Some(125),
        stderr: String::new(),
    };
    assert_eq!(failed.render(), "command failed: podman rm x (exit 125)");
    assert_eq!(failed.exit_code(), 1);
}

fn file(path: &str, contents: &[u8]) -> EmbeddedFile {
    EmbeddedFile {
        path: path.to_string(),
        contents: contents.to_vec(),
    }
}

fn context() -> EmbeddedDir {
    EmbeddedDir {
        path: String::new(),
        dirs: vec![
            EmbeddedDir {
                path: "src/skills".to_string(),
                dirs: Vec::new(),
                files: vec![file("src/skills/SKILL.md", b"skill")],
            },
            EmbeddedDir {
                path: "etc".to_string(),
                dirs: Vec::new(),
                files: Vec::new(),
            },
        ],
        files: vec![file("flake.nix", b"{ }"), file("Containerfile", b"FROM fedora\n")],
    }
}

#[test]
fn context_is_unpacked_in_order() {
    let actions = materialize_embedded_dir(&context(), "/cache/abc");
    assert_eq!(
        actions,
        vec![
            FsAction::CreateDir("/cache/abc".to_string()),
            FsAction::CreateDir("/cache/abc/src/skills".to_string()),
            FsAction::CreateDir("/cache/abc".to_string()),
            FsAction::WriteFile("/cache/abc/src/skills/SKILL.md".to_string(), b"skill".to_vec()),
            FsAction::CreateDir("/cache/abc/etc".to_string()),
            FsAction::CreateDir("/cache/abc".to_string()),
            FsAction::WriteFile("/cache/abc/flake.nix".to_string(), b"{ }".to_vec()),
            FsAction::WriteFile("/cache/abc/Containerfile".to_string(), b"FROM fedora\n".to_vec()),
        ]
    );
}

#[test]
fn sorting_orders_children_by_path() {
    let sorted = sort_embedded_dir(context());
    assert_eq!(sorted.dirs[0].path, "etc");
    assert_eq!(sorted.dirs[1].path, "src/skills");
    assert_eq!(sorted.files[0].path, "Containerfile");
    assert_eq!(sorted.files[1].path, "flake.nix");
}

/// The context hash computed directly with std's `Hash` impls, children in path order.
fn expected_hash() -> String {
    let mut hasher = DefaultHasher::new();
    "etc".hash(&mut hasher);
    "src/skills".hash(&mut hasher);
    "src/skills/SKILL.md".hash(&mut hasher);
    b"skill"[..].hash(&mut hasher);
    "Containerfile".hash(&mut hasher);
    b"FROM fedora\n"[..].hash(&mut hasher);
    "flake.nix".hash(&mut hasher);
    b"{ }"[..].hash(&mut hasher);
    format!("{:016x}", hasher.finish())
}

#[test]
fn context_hash_matches_std_hashing() {
    let hash = embedded_context_hash(context());
    assert_eq!(hash.len(), 16);
    assert!(hash.chars().all(|c| c.is_ascii_hexdigit() && !c.is_ascii_uppercase()));
    assert_eq!(hash, expected_hash());
    assert_eq!(embedded_context_hash(context()), hash);
}

#[test]
fn context_hash_depends_on_contents() {
    let mut changed = context();
    changed.files[0].contents = b"{ x }".to_vec();
    assert_ne!(embedded_context_hash(changed), embedded_context_hash(context()));
}
