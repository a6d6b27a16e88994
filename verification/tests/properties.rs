use rm4dev::agent::{
    build_podman_run_args, container_web_password, cpu_quota, load_agent_containers,
    parse_container_ports, parse_web_port_label, ContainerRow,
    pick_web_port, plan_start, reserved_web_ports, resolve_existing_container, ListedContainer,
    StartPlan, WebSettings,
};
use rm4dev::cli::{parse_create_args, ContainerTarget, CreateContainerArgs};
use rm4dev::naming::{container_name_at, normalize_container_name};
use rm4dev::text::{decimal_string, parse_u16_chars};
use std::collections::BTreeSet;

#[test]
fn normalization_is_idempotent_on_examples() {
    for input in ["alpha", "rm4dev-agent-alpha", "x_1", "9lives"] {
        let once = normalize_container_name(input).unwrap();
        assert_eq!(normalize_container_name(&once).unwrap(), once);
        assert!(once.starts_with("rm4dev-agent-"));
    }
}

#[test]
fn password_is_the_word_after_the_prefix() {
    for word in ["alpha", "", "1712345678"] {
        let name = format!("rm4dev-agent-{word}");
        assert_eq!(container_web_password(&name), word);
    }
}

#[test]
fn port_text_parses_back() {
    for port in [0u16, 7, 35080, u16::MAX] {
        let text = decimal_string(port as u64);
        assert_eq!(text, port.to_string());
        assert_eq!(parse_u16_chars(&text.chars().collect()), Some(port));
    }
}

#[test]
fn web_port_label_written_at_creation_reads_back() {
    let web = WebSettings {
        port: 35099,
        password: "alpha".to_string(),
    };
    let args = build_podman_run_args("rm4dev-agent-alpha", 2, None, &Vec::new(), "img", Some(&web));
    let label_index = args.iter().position(|a| a == "--label").unwrap();
    let label = &args[label_index + 1];
    assert_eq!(
        parse_web_port_label("rm4dev-agent-alpha", label).unwrap(),
        Some(35099)
    );
}

#[test]
fn generated_names_normalize_to_themselves() {
    for seconds in [0u64, 42, 1_712_345_678] {
        let name = container_name_at(seconds);
        assert_eq!(normalize_container_name(&name).unwrap(), name);
    }
}

#[test]
fn start_never_resumes_a_missing_container() {
    let existing = vec!["rm4dev-agent-a".to_string(), "rm4dev-agent-b".to_string()];
    for name in [None, Some("rm4dev-agent-a"), Some("rm4dev-agent-z")] {
        let args = CreateContainerArgs {
            name: name.map(|n| n.to_string()),
            no_shared_auth: false,
            no_web: false,
            mounts: Vec::new(),
        };
        match plan_start(existing.clone(), args.clone()) {
            Ok(StartPlan::Resume { name }) => assert!(existing.contains(&name)),
            Ok(StartPlan::Create(created)) => assert_eq!(created, args),
            Err(_) => assert!(name.is_none()),
        }
    }
}

#[test]
fn targets_are_always_existing_containers() {
    let existing = vec!["rm4dev-agent-a".to_string()];
    for name in [None, Some("rm4dev-agent-a"), Some("rm4dev-agent-z")] {
        let target = ContainerTarget {
            name: name.map(|n| n.to_string()),
            no_web: false,
        };
        if let Ok(found) = resolve_existing_container(&existing, target) {
            assert!(existing.contains(&found));
        }
    }
}

#[test]
fn picked_port_is_claimed_by_no_container() {
    let cs: Vec<ListedContainer> = vec![
        ListedContainer {
            name: "rm4dev-agent-a".to_string(),
            image: "i".to_string(),
            status: "Up".to_string(),
            web_port: Some(35080),
            web_password: Some("a".to_string()),
            host_ports: BTreeSet::from([35081]),
        },
    ];
    let reserved = reserved_web_ports(&cs);
    let port = pick_web_port(&reserved, |_| true).unwrap();
    assert_eq!(port, 35082);
    assert!(cs.iter().all(|c| c.web_port != Some(port) && !c.host_ports.contains(&port)));
}

#[test]
fn cpu_share_keeps_three_quarters() {
    for total in 1..=32usize {
        let share = cpu_quota(total);
        assert!(1 <= share && share <= total);
        assert_eq!(share, total - total / 4);
    }
}

#[test]
fn colon_in_first_argument_means_no_name() {
    let args = vec!["/tmp:/w".to_string()];
    let parsed = parse_create_args(&args, false, false, &vec![Ok("/tmp".to_string())]).unwrap();
    assert_eq!(parsed.name, None);
}

#[test]
fn joined_port_columns_give_the_union() {
    let a = "127.0.0.1:35080->35080/tcp, <none>";
    let b = "[::1]:35081->35081/tcp,9000->90/tcp";
    let joined = format!("{a},{b}");
    let union: BTreeSet<u16> = parse_container_ports(a)
        .union(&parse_container_ports(b))
        .copied()
        .collect();
    assert_eq!(parse_container_ports(&joined), union);
    assert_eq!(union, BTreeSet::from([35080, 35081, 9000]));
}

#[test]
fn rows_with_equal_names_keep_their_order() {
    let row = |name: &str, image: &str| ContainerRow {
        name: name.to_string(),
        image: image.to_string(),
        status: "Up".to_string(),
        labels: String::new(),
        ports: String::new(),
    };
    let listed = load_agent_containers(vec![
        row("rm4dev-agent-b", "first"),
        row("rm4dev-agent-a", "x"),
        row("rm4dev-agent-b", "second"),
    ])
    .unwrap();
    let order: Vec<&str> = listed.iter().map(|c| c.image.as_str()).collect();
    assert_eq!(order, vec!["x", "first", "second"]);
}
