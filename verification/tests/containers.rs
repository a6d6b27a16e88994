use rm4dev::agent::{
    attach_action, browser_step, build_podman_run_args, cached_auth_mount, cached_auth_paths,
    cpu_quota, creation_step, ensure_container_does_not_exist, enter_args, enter_shell_from_env, pick_web_port,
    render_container_table, reserved_web_ports, resolve_existing_container, resume_args,
    wait_step, AttachAction, BrowserAction, CreationStep, LaunchOutcome, ListedContainer, WaitAction,
    WebSettings, CONTAINER_AUTH_PATH, WEB_PORT_START,
};
use rm4dev::cli::{ContainerTarget, CreateContainerArgs};
use rm4dev::error::AppError;
use rm4dev::image::DEFAULT_IMAGE;
use rm4dev::mounts::MountSpec;
use std::collections::BTreeSet;

fn fixture_mount(path: &str) -> MountSpec {
    MountSpec {
        host: path.to_string(),
        container: "/workspace".to_string(),
    }
}

fn listed(name: &str, web_port: Option<u16>, host_ports: &[u16]) -> ListedContainer {
    ListedContainer {
        name: name.to_string(),
        image: "img".to_string(),
        status: "Up".to_string(),
        web_port: None,
        web_password: None,
        host_ports: host_ports.iter().copied().collect(),
    }
    .with_web(web_port)
}

#[test]
fn cpu_quota_reserves_a_quarter_of_cores() {
    for total in 0..=64usize {
        assert!(cpu_quota(total) >= 1);
    }
    assert_eq!(cpu_quota(1), 1);
    assert_eq!(cpu_quota(4), 3);
    assert_eq!(cpu_quota(8), 6);
    assert_eq!(cpu_quota(7), 6);
    assert_eq!(cpu_quota(0), 1);
}

#[test]
fn build_run_args_contains_required_flags() {
    let mount = fixture_mount("/tmp");
    let auth = cached_auth_mount("/home/u/.cache/rm4dev/opencode-auth.json".to_string());
    let rendered =
        build_podman_run_args("rm4dev-agent-alpha", 3, Some(&auth), &vec![mount], DEFAULT_IMAGE, None);

    assert!(rendered.starts_with(&["run".to_string(), "--interactive".to_string()]));
    assert!(rendered.contains(&"--mount".to_string()));
    assert_eq!(rendered.last().map(String::as_str), Some(DEFAULT_IMAGE));
}

#[test]
fn run_args_in_full() {
    let auth = cached_auth_mount("/h/.cache/rm4dev/opencode-auth.json".to_string());
    let web = WebSettings {
        port: 35080,
        password: "alpha".to_string(),
    };
    let args = build_podman_run_args(
        "rm4dev-agent-alpha",
        6,
        Some(&auth),
        &vec![fixture_mount("/src")],
        "img:1",
        Some(&web),
    );
    let expected: Vec<String> = [
        "run",
        "--interactive",
        "--tty",
        "--name",
        "rm4dev-agent-alpha",
        "--privileged",
        "--cpus",
        "6",
        "--mount",
        "type=tmpfs,target=/tmp",
        "--mount",
        "type=tmpfs,target=/run",
        "--mount",
        "type=bind,src=/h/.cache/rm4dev/opencode-auth.json,target=/root/.local/share/opencode/auth.json",
        "--label",
        "org.rm4dev.opencode.web-port=35080",
        "--env",
        "RM4DEV_OPENCODE_WEB_PORT=35080",
        "--env",
        "OPENCODE_SERVER_PASSWORD=alpha",
        "--publish",
        "127.0.0.1:35080:35080",
        "--mount",
        "type=bind,src=/src,target=/workspace",
        "img:1",
    ]
    .iter()
    .map(|s| s.to_string())
    .collect();
    assert_eq!(args, expected);

    let bare = build_podman_run_args("n", 1, None, &Vec::new(), "i", None);
    assert_eq!(bare.len(), 13);
    assert_eq!(bare[12], "i");
}

#[test]
fn auth_cache_paths_live_under_home() {
    let (file, dir) = cached_auth_paths("/home/u");
    assert_eq!(file, "/home/u/.cache/rm4dev/opencode-auth.json");
    assert_eq!(dir, "/home/u/.cache/rm4dev");
    let (file, _) = cached_auth_paths("/home/u/");
    assert_eq!(file, "/home/u/.cache/rm4dev/opencode-auth.json");
    assert_eq!(
        cached_auth_mount("/x".to_string()),
        MountSpec {
            host: "/x".to_string(),
            container: CONTAINER_AUTH_PATH.to_string()
        }
    );
}

#[test]
fn reserved_ports_cover_web_and_host_ports() {
    let cs = vec![
        listed("rm4dev-agent-a", Some(35080), &[8080]),
        listed("rm4dev-agent-b", None, &[35081, 9000]),
    ];
    assert_eq!(
        reserved_web_ports(&cs),
        BTreeSet::from([35080, 35081, 8080, 9000])
    );
}

#[test]
fn picks_the_first_free_unreserved_port() {
    let reserved = BTreeSet::from([35080, 35081]);
    assert_eq!(pick_web_port(&reserved, |_| true).unwrap(), 35082);
    assert_eq!(pick_web_port(&reserved, |p| p >= 35090).unwrap(), 35090);
    assert_eq!(pick_web_port(&BTreeSet::new(), |_| true).unwrap(), WEB_PORT_START);
    assert_eq!(
        pick_web_port(&reserved, |_| false).unwrap_err(),
        AppError::Message(
            "no free OpenCode web ports are available starting at 35080".to_string()
        )
    );
    assert_eq!(pick_web_port(&reserved, |p| p == u16::MAX).unwrap(), u16::MAX);
}

#[test]
fn existing_containers_are_resolved() {
    let existing = vec!["rm4dev-agent-a".to_string(), "rm4dev-agent-b".to_string()];
    let named = |n: &str| ContainerTarget {
        name: Some(n.to_string()),
        no_web: false,
    };
    let unnamed = ContainerTarget {
        name: None,
        no_web: false,
    };
    assert_eq!(
        resolve_existing_container(&existing, named("rm4dev-agent-b")).unwrap(),
        "rm4dev-agent-b"
    );
    assert_eq!(
        resolve_existing_container(&existing, named("rm4dev-agent-c")).unwrap_err(),
        AppError::Message("container `rm4dev-agent-c` was not found".to_string())
    );
    assert_eq!(
        resolve_existing_container(&existing, unnamed.clone()).unwrap_err(),
        AppError::Message("multiple rm4dev agent containers exist; specify a name".to_string())
    );
    assert_eq!(
        resolve_existing_container(&vec!["rm4dev-agent-a".to_string()], unnamed.clone()).unwrap(),
        "rm4dev-agent-a"
    );
    assert_eq!(
        resolve_existing_container(&Vec::new(), unnamed).unwrap_err(),
        AppError::Message("no rm4dev agent containers were found".to_string())
    );
}

#[test]
fn new_names_must_be_unused() {
    let existing = vec!["rm4dev-agent-a".to_string()];
    assert!(ensure_container_does_not_exist(&existing, &"rm4dev-agent-b".to_string()).is_ok());
    assert_eq!(
        ensure_container_does_not_exist(&existing, &"rm4dev-agent-a".to_string()).unwrap_err(),
        AppError::Message("container `rm4dev-agent-a` already exists".to_string())
    );
}

#[test]
fn enter_needs_a_running_container() {
    assert_eq!(
        enter_args("rm4dev-agent-a", "running", "/bin/zsh").unwrap(),
        vec!["exec", "--interactive", "--tty", "rm4dev-agent-a", "/bin/zsh", "-l"]
    );
    assert_eq!(
        enter_args("rm4dev-agent-a", "exited", "/bin/bash").unwrap_err(),
        AppError::Message(
            "container `rm4dev-agent-a` is `exited`; start it before using `enter`".to_string()
        )
    );
}

#[test]
fn enter_shell_defaults_to_bash() {
    assert_eq!(enter_shell_from_env(None), "/bin/bash");
    assert_eq!(enter_shell_from_env(Some("   ".to_string())), "/bin/bash");
    assert_eq!(enter_shell_from_env(Some(" /bin/zsh \n".to_string())), "/bin/zsh");
}

#[test]
fn resume_attaches_or_starts() {
    assert_eq!(resume_args("c", "running"), vec!["attach", "c"]);
    assert_eq!(
        resume_args("c", "exited"),
        vec!["start", "--attach", "--interactive", "c"]
    );
}

#[test]
fn attach_prefers_the_browser_when_web_is_on() {
    assert_eq!(attach_action(true, None), AttachAction::Terminal);
    assert_eq!(attach_action(false, None), AttachAction::Terminal);
    assert_eq!(
        attach_action(false, Some(35080)),
        AttachAction::Browser {
            port: 35080,
            url: "http://127.0.0.1:35080".to_string()
        }
    );
}

#[test]
fn browser_launchers_are_tried_in_order() {
    let url = "http://127.0.0.1:35080";
    let expect_launch = |attempted: usize, outcome: Option<LaunchOutcome>, program: &str, args: &[&str]| {
        assert_eq!(
            browser_step(url, attempted, outcome),
            BrowserAction::Launch {
                program: program.to_string(),
                args: args.iter().map(|a| a.to_string()).collect()
            }
        );
    };
    expect_launch(0, None, "xdg-open", &[url]);
    expect_launch(1, Some(LaunchOutcome::NotFound), "gio", &["open", url]);
    expect_launch(2, Some(LaunchOutcome::Failed), "sensible-browser", &[url]);
    expect_launch(3, Some(LaunchOutcome::NotFound), "open", &[url]);
    assert_eq!(
        browser_step(url, 4, Some(LaunchOutcome::Failed)),
        BrowserAction::Done(Err(AppError::Message(
            "could not open browser for `http://127.0.0.1:35080`; tried xdg-open, gio open, sensible-browser, and open"
                .to_string()
        )))
    );
    assert_eq!(
        browser_step(url, 2, Some(LaunchOutcome::Succeeded)),
        BrowserAction::Done(Ok(()))
    );
    assert_eq!(
        browser_step(url, 2, Some(LaunchOutcome::Error("denied".to_string()))),
        BrowserAction::Done(Err(AppError::Io {
            context: "failed to execute `gio`".to_string(),
            source: "denied".to_string()
        }))
    );
}

#[test]
fn waiting_for_web_retries_until_the_deadline() {
    assert_eq!(wait_step(35080, 30, true, true), WaitAction::Ready);
    assert_eq!(wait_step(35080, 30, false, false), WaitAction::Retry);
    assert_eq!(
        wait_step(35080, 30, false, true),
        WaitAction::Fail(AppError::Message(
            "OpenCode web did not start listening on port 35080 within 30s".to_string()
        ))
    );
}

#[test]
fn container_table_is_aligned() {
    assert!(render_container_table(&Vec::new()).is_empty());
    let cs = vec![
        listed("rm4dev-agent-alpha", Some(35080), &[]),
        listed("b", None, &[]),
    ];
    let lines = render_container_table(&cs);
    assert_eq!(
        lines,
        vec![
            "NAME                IMAGE  PORT   PASSWORD  STATUS".to_string(),
            "rm4dev-agent-alpha  img    35080  alpha     Up".to_string(),
            "b                   img    -      -         Up".to_string(),
        ]
    );
}

#[test]
fn creation_asks_for_port_then_auth_then_runs() {
    let args = CreateContainerArgs {
        name: Some("rm4dev-agent-alpha".to_string()),
        no_shared_auth: false,
        no_web: false,
        mounts: vec![fixture_mount("/src")],
    };
    let name = "rm4dev-agent-alpha";
    assert_eq!(
        creation_step(name, 2, &args, "img", None, None),
        CreationStep::AllocateWebPort
    );
    assert_eq!(
        creation_step(name, 2, &args, "img", Some(35080), None),
        CreationStep::ResolveAuthFile
    );
    let auth = "/h/.cache/rm4dev/opencode-auth.json".to_string();
    let expected = build_podman_run_args(
        name,
        2,
        Some(&cached_auth_mount(auth.clone())),
        &args.mounts,
        "img",
        Some(&WebSettings {
            port: 35080,
            password: "alpha".to_string(),
        }),
    );
    assert_eq!(
        creation_step(name, 2, &args, "img", Some(35080), Some(auth)),
        CreationStep::Run(expected)
    );
}

#[test]
fn creation_skips_what_is_turned_off() {
    let args = CreateContainerArgs {
        name: None,
        no_shared_auth: true,
        no_web: true,
        mounts: Vec::new(),
    };
    assert_eq!(
        creation_step("n", 1, &args, "i", None, None),
        CreationStep::Run(build_podman_run_args("n", 1, None, &Vec::new(), "i", None))
    );
    let web_only = CreateContainerArgs {
        no_web: false,
        ..args
    };
    match creation_step("rm4dev-agent-w", 1, &web_only, "i", Some(35081), None) {
        CreationStep::Run(v) => {
            assert!(v.contains(&"OPENCODE_SERVER_PASSWORD=w".to_string()));
            assert!(!v.iter().any(|a| a.contains("opencode-auth")));
        }
        other => panic!("unexpected step {other:?}"),
    }
}
