use rm4dev::agent::{plan_start, StartPlan};
use rm4dev::cli::{
    cli_error, interpret_invocation, parse_create_args, parse_image_args, parse_target_args,
    ClapErrorKind, CliCommand, CliInvocation, ContainerTarget, CreateContainerArgs,
    ImageCommandArgs,
};
use rm4dev::error::AppError;
use rm4dev::mounts::{mount_host_part, MountSpec};

/// Resolves the host part of each argument as if `/tmp` were the only existing directory.
fn resolve_all(args: &[String]) -> Vec<Result<String, String>> {
    args.iter()
        .map(|arg| match mount_host_part(arg) {
            Some(host) if host == "/tmp" => Ok("/tmp".to_string()),
            Some(host) => Err(format!("cannot resolve {host}")),
            None => Err("not a mount".to_string()),
        })
        .collect()
}

fn fixture_mount(path: &str) -> MountSpec {
    MountSpec {
        host: path.to_string(),
        container: "/workspace".to_string(),
    }
}

fn create_args(name: Option<&str>, no_shared_auth: bool, mounts: Vec<MountSpec>) -> CreateContainerArgs {
    CreateContainerArgs {
        name: name.map(|n| n.to_string()),
        no_shared_auth,
        no_web: false,
        mounts,
    }
}

fn cli(inv: CliInvocation) -> Result<CliCommand, AppError> {
    let resolved = match &inv {
        CliInvocation::AgentNew { args, .. } | CliInvocation::AgentStart { args, .. } => {
            resolve_all(args)
        }
        _ => Vec::new(),
    };
    interpret_invocation(inv, &resolved)
}

#[test]
fn parses_name_and_mounts() {
    let tempdir = "/tmp";
    let args = vec!["alpha".to_string(), format!("{}:/workspace", tempdir)];

    let parsed = parse_create_args(&args, false, false, &resolve_all(&args)).unwrap();
    assert_eq!(parsed.name.as_deref(), Some("rm4dev-agent-alpha"));
    assert!(!parsed.no_shared_auth);
    assert_eq!(parsed.mounts.len(), 1);
    assert_eq!(parsed.mounts[0].container, "/workspace");
}

#[test]
fn treats_first_mount_as_mount_without_name() {
    let tempdir = "/tmp";
    let args = vec![format!("{}:/workspace", tempdir)];

    let parsed = parse_create_args(&args, false, false, &resolve_all(&args)).unwrap();
    assert_eq!(parsed.name, None);
    assert!(!parsed.no_shared_auth);
    assert_eq!(parsed.mounts.len(), 1);
}

#[test]
fn parses_no_shared_auth_flag_for_new_container() {
    let parsed = cli(CliInvocation::AgentNew {
        args: vec!["alpha".to_string()],
        no_shared_auth: true,
        no_web: false,
    })
    .unwrap();
    assert_eq!(
        parsed,
        CliCommand::AgentNew(CreateContainerArgs {
            name: Some("rm4dev-agent-alpha".to_string()),
            no_shared_auth: true,
            no_web: false,
            mounts: Vec::new(),
        })
    );
}

#[test]
fn shared_auth_is_enabled_by_default() {
    let parsed = cli(CliInvocation::AgentNew {
        args: vec!["alpha".to_string()],
        no_shared_auth: false,
        no_web: false,
    })
    .unwrap();
    assert_eq!(
        parsed,
        CliCommand::AgentNew(CreateContainerArgs {
            name: Some("rm4dev-agent-alpha".to_string()),
            no_shared_auth: false,
            no_web: false,
            mounts: Vec::new(),
        })
    );
}

#[test]
fn start_prefers_existing_named_container() {
    let plan = plan_start(
        vec!["rm4dev-agent-alpha".to_string()],
        create_args(Some("rm4dev-agent-alpha"), false, Vec::new()),
    )
    .unwrap();

    assert_eq!(
        plan,
        StartPlan::Resume {
            name: "rm4dev-agent-alpha".to_string()
        }
    );
}

#[test]
fn start_creates_new_named_container_when_name_is_unused() {
    let plan = plan_start(
        vec!["rm4dev-agent-alpha".to_string()],
        create_args(Some("rm4dev-agent-beta"), false, Vec::new()),
    )
    .unwrap();

    assert_eq!(
        plan,
        StartPlan::Create(create_args(Some("rm4dev-agent-beta"), false, Vec::new()))
    );
}

#[test]
fn start_uses_mounts_as_create_signal_without_name() {
    let mount = fixture_mount("/tmp");
    let plan = plan_start(
        vec!["rm4dev-agent-alpha".to_string()],
        create_args(None, false, vec![mount.clone()]),
    )
    .unwrap();

    assert_eq!(plan, StartPlan::Create(create_args(None, false, vec![mount])));
}

#[test]
fn start_requires_name_when_multiple_existing_containers_exist() {
    let error = plan_start(
        vec![
            "rm4dev-agent-alpha".to_string(),
            "rm4dev-agent-beta".to_string(),
        ],
        create_args(None, false, Vec::new()),
    )
    .unwrap_err();

    assert!(error.render().contains("multiple rm4dev agent containers"));
}

#[test]
fn start_rejects_mounts_for_existing_named_container() {
    let mount = fixture_mount("/tmp");
    let error = plan_start(
        vec!["rm4dev-agent-alpha".to_string()],
        create_args(Some("rm4dev-agent-alpha"), false, vec![mount]),
    )
    .unwrap_err();

    assert!(error.render().contains("create-only options only apply"));
}

#[test]
fn start_uses_no_shared_auth_as_create_signal_without_name() {
    let plan = plan_start(
        vec!["rm4dev-agent-alpha".to_string()],
        create_args(None, true, Vec::new()),
    )
    .unwrap();

    assert_eq!(plan, StartPlan::Create(create_args(None, true, Vec::new())));
}

#[test]
fn start_rejects_no_shared_auth_for_existing_named_container() {
    let error = plan_start(
        vec!["rm4dev-agent-alpha".to_string()],
        create_args(Some("rm4dev-agent-alpha"), true, Vec::new()),
    )
    .unwrap_err();

    assert!(error.render().contains("create-only options only apply"));
}

#[test]
fn start_rejects_no_web_for_existing_named_container() {
    let mut args = create_args(Some("rm4dev-agent-alpha"), false, Vec::new());
    args.no_web = true;
    let error = plan_start(vec!["rm4dev-agent-alpha".to_string()], args).unwrap_err();
    assert_eq!(
        error,
        AppError::Message(
            "container `rm4dev-agent-alpha` already exists; create-only options only apply when creating a new container"
                .to_string()
        )
    );
}

#[test]
fn start_resumes_the_only_container_or_creates_the_first() {
    let plan = plan_start(
        vec!["rm4dev-agent-solo".to_string()],
        create_args(None, false, Vec::new()),
    )
    .unwrap();
    assert_eq!(
        plan,
        StartPlan::Resume {
            name: "rm4dev-agent-solo".to_string()
        }
    );
    let plan = plan_start(Vec::new(), create_args(None, false, Vec::new())).unwrap();
    assert_eq!(plan, StartPlan::Create(create_args(None, false, Vec::new())));
}

#[test]
fn parses_image_build_without_custom_ref() {
    let parsed = cli(CliInvocation::ImageBuild { image: None }).unwrap();
    assert_eq!(parsed, CliCommand::ImageBuild(ImageCommandArgs { image: None }));
}

#[test]
fn parses_image_build_with_custom_ref() {
    let parsed = cli(CliInvocation::ImageBuild {
        image: Some("localhost/custom:dev".to_string()),
    })
    .unwrap();
    assert_eq!(
        parsed,
        CliCommand::ImageBuild(ImageCommandArgs {
            image: Some("localhost/custom:dev".to_string()),
        })
    );
}

#[test]
fn parses_image_ensure_with_custom_ref() {
    let parsed = cli(CliInvocation::ImageEnsure {
        image: Some("quay.io/example/foo:tag".to_string()),
    })
    .unwrap();
    assert_eq!(
        parsed,
        CliCommand::ImageEnsure(ImageCommandArgs {
            image: Some("quay.io/example/foo:tag".to_string()),
        })
    );
}

#[test]
fn image_reference_is_trimmed_and_must_not_be_empty() {
    assert_eq!(
        parse_image_args(Some("  img:1 ".to_string())).unwrap(),
        ImageCommandArgs {
            image: Some("img:1".to_string())
        }
    );
    assert_eq!(
        parse_image_args(Some("   ".to_string())).unwrap_err(),
        AppError::Usage("image reference must not be empty".to_string())
    );
}

#[test]
fn target_names_are_normalized() {
    assert_eq!(
        parse_target_args(Some("alpha".to_string()), true).unwrap(),
        ContainerTarget {
            name: Some("rm4dev-agent-alpha".to_string()),
            no_web: true
        }
    );
    assert_eq!(
        parse_target_args(None, false).unwrap(),
        ContainerTarget {
            name: None,
            no_web: false
        }
    );
    assert!(parse_target_args(Some("a/b".to_string()), false).is_err());
}

#[test]
fn every_subcommand_is_interpreted() {
    assert_eq!(cli(CliInvocation::AgentPrecheck).unwrap(), CliCommand::AgentPrecheck);
    assert_eq!(cli(CliInvocation::AgentList).unwrap(), CliCommand::AgentList);
    let target = ContainerTarget {
        name: Some("rm4dev-agent-x".to_string()),
        no_web: false,
    };
    assert_eq!(
        cli(CliInvocation::AgentStop { name: Some("x".to_string()), no_web: false }).unwrap(),
        CliCommand::AgentStop(target.clone())
    );
    assert_eq!(
        cli(CliInvocation::AgentRm { name: Some("x".to_string()), no_web: false }).unwrap(),
        CliCommand::AgentRemove(target.clone())
    );
    assert_eq!(
        cli(CliInvocation::AgentAttach { name: Some("x".to_string()), no_web: false }).unwrap(),
        CliCommand::AgentAttach(target.clone())
    );
    assert_eq!(
        cli(CliInvocation::AgentEnter { name: Some("x".to_string()), no_web: false }).unwrap(),
        CliCommand::AgentEnter(target)
    );
    assert_eq!(
        cli(CliInvocation::AgentStart {
            args: Vec::new(),
            no_shared_auth: false,
            no_web: true
        })
        .unwrap(),
        CliCommand::AgentStart(CreateContainerArgs {
            name: None,
            no_shared_auth: false,
            no_web: true,
            mounts: Vec::new()
        })
    );
}

#[test]
fn first_failing_mount_is_reported() {
    let args = vec![
        "alpha".to_string(),
        "/nowhere:/w".to_string(),
        "bad".to_string(),
    ];
    let error = parse_create_args(&args, false, false, &resolve_all(&args)).unwrap_err();
    assert_eq!(
        error,
        AppError::Io {
            context: "failed to resolve mount source `/nowhere`".to_string(),
            source: "cannot resolve /nowhere".to_string()
        }
    );
    let args = vec!["/tmp:/w".to_string(), "alpha".to_string()];
    let error = parse_create_args(&args, false, false, &resolve_all(&args)).unwrap_err();
    assert_eq!(
        error,
        AppError::Usage("invalid mount `alpha`; expected host_path:container_path".to_string())
    );
}

#[test]
fn parse_errors_keep_the_parser_message() {
    assert_eq!(
        cli_error("usage text".to_string(), ClapErrorKind::DisplayHelp),
        AppError::Cli {
            message: "usage text".to_string(),
            exit_code: 0
        }
    );
    assert_eq!(cli_error("v".to_string(), ClapErrorKind::DisplayVersion).exit_code(), 0);
    assert_eq!(cli_error("bad".to_string(), ClapErrorKind::Other).exit_code(), 2);
}
