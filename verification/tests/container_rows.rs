use rm4dev::agent::{
    container_web_port_for_container, list_agent_container_names, listed_container,
    load_agent_containers, parse_container_ports, parse_container_row, parse_container_rows,
    parse_web_port_label, ps_args, ContainerRow, ListedContainer, PS_FORMAT,
};
use rm4dev::error::AppError;
use std::collections::BTreeSet;

fn row(name: &str, labels: &str, ports: &str) -> ContainerRow {
    ContainerRow {
        name: name.to_string(),
        image: "localhost/rm4dev-agent:nix-fedora".to_string(),
        status: "Up 2 minutes".to_string(),
        labels: labels.to_string(),
        ports: ports.to_string(),
    }
}

#[test]
fn parses_container_row_from_ps_output() {
    let row = parse_container_row(
        "rm4dev-agent-alpha\tlocalhost/rm4dev-agent:nix-fedora\tUp 2 minutes\torg.rm4dev.opencode.web-port=35080\t127.0.0.1:35080->35080/tcp",
    )
    .unwrap();

    assert_eq!(row.name, "rm4dev-agent-alpha");
    assert_eq!(row.image, "localhost/rm4dev-agent:nix-fedora");
    assert_eq!(row.status, "Up 2 minutes");
    assert_eq!(row.labels, "org.rm4dev.opencode.web-port=35080");
    assert_eq!(row.ports, "127.0.0.1:35080->35080/tcp");
}

#[test]
fn parses_host_ports_from_ps_output() {
    let ports =
        parse_container_ports("127.0.0.1:35080->35080/tcp, [::1]:35081->35081/tcp, <none>");

    assert_eq!(ports, BTreeSet::from([35080, 35081]));
}

#[test]
fn treats_blank_web_port_label_as_missing() {
    assert_eq!(parse_web_port_label("rm4dev-agent-alpha", "").unwrap(), None);
    assert_eq!(
        parse_web_port_label("rm4dev-agent-alpha", "<none>").unwrap(),
        None
    );
}

#[test]
fn parses_web_port_label_from_labels_output() {
    assert_eq!(
        parse_web_port_label(
            "rm4dev-agent-alpha",
            "foo=bar,org.rm4dev.opencode.web-port=35080,baz=qux"
        )
        .unwrap(),
        Some(35080)
    );
}

#[test]
fn blank_and_short_rows_are_skipped() {
    assert_eq!(parse_container_row("   "), None);
    assert_eq!(parse_container_row(""), None);
    assert_eq!(parse_container_row("a\tb\tc\td"), None);
}

#[test]
fn last_field_keeps_the_rest_of_the_line() {
    let row = parse_container_row(" a \t b\tc\td\te\tf ").unwrap();
    assert_eq!(row.name, "a");
    assert_eq!(row.image, "b");
    assert_eq!(row.ports, "e\tf");
}

#[test]
fn parses_every_row_of_ps_output() {
    let output = "rm4dev-agent-b\timg\tExited\t<none>\t\r\n\nrm4dev-agent-a\timg\tUp\t\t\n";
    let rows = parse_container_rows(output);
    assert_eq!(rows.len(), 2);
    assert_eq!(rows[0].name, "rm4dev-agent-b");
    assert_eq!(rows[0].labels, "<none>");
    assert_eq!(rows[0].ports, "");
    assert_eq!(rows[1].name, "rm4dev-agent-a");
}

#[test]
fn invalid_web_port_label_is_an_error() {
    let error = parse_web_port_label("rm4dev-agent-alpha", "org.rm4dev.opencode.web-port=http")
        .unwrap_err();
    assert_eq!(
        error,
        AppError::Message(
            "container `rm4dev-agent-alpha` has an invalid OpenCode web port label `http`"
                .to_string()
        )
    );
    assert!(parse_web_port_label("x", "org.rm4dev.opencode.web-port=70000").is_err());
}

#[test]
fn labels_without_web_port_give_none() {
    assert_eq!(parse_web_port_label("x", "foo=bar baz=qux").unwrap(), None);
    assert_eq!(
        parse_web_port_label("x", "org.rm4dev.opencode.web-portal=1").unwrap(),
        None
    );
    assert_eq!(
        parse_web_port_label("x", "  org.rm4dev.opencode.web-port=+42  ").unwrap(),
        Some(42)
    );
}

#[test]
fn ports_without_host_binding_are_ignored() {
    assert_eq!(parse_container_ports(""), BTreeSet::new());
    assert_eq!(parse_container_ports("<none>"), BTreeSet::new());
    assert_eq!(parse_container_ports("8080/tcp"), BTreeSet::new());
    assert_eq!(
        parse_container_ports("0.0.0.0:8080->80/tcp,9090->90/tcp"),
        BTreeSet::from([8080, 9090])
    );
    assert_eq!(parse_container_ports("host:99999->1/tcp"), BTreeSet::new());
}

#[test]
fn listed_container_carries_web_settings() {
    let listed = listed_container(row(
        "rm4dev-agent-alpha",
        "org.rm4dev.opencode.web-port=35080",
        "127.0.0.1:35080->35080/tcp",
    ))
    .unwrap();
    assert_eq!(listed.web_port, Some(35080));
    assert_eq!(listed.web_password, Some("alpha".to_string()));
    assert_eq!(listed.host_ports, BTreeSet::from([35080]));

    let plain = listed_container(row("rm4dev-agent-beta", "<none>", "")).unwrap();
    assert_eq!(plain.web_port, None);
    assert_eq!(plain.web_password, None);
}

#[test]
fn with_web_sets_port_and_password() {
    let c = ListedContainer {
        name: "rm4dev-agent-gamma".to_string(),
        image: "img".to_string(),
        status: "Up".to_string(),
        web_port: None,
        web_password: None,
        host_ports: BTreeSet::new(),
    };
    let with = c.clone().with_web(Some(35081));
    assert_eq!(with.web_port, Some(35081));
    assert_eq!(with.web_password, Some("gamma".to_string()));
    let without = with.with_web(None);
    assert_eq!(without.web_port, None);
    assert_eq!(without.web_password, None);
}

#[test]
fn containers_are_listed_by_name() {
    let rows = vec![
        row("rm4dev-agent-zeta", "<none>", ""),
        row("rm4dev-agent-alpha", "org.rm4dev.opencode.web-port=35080", ""),
    ];
    let listed = load_agent_containers(rows).unwrap();
    assert_eq!(listed.len(), 2);
    assert_eq!(listed[0].name, "rm4dev-agent-alpha");
    assert_eq!(listed[1].name, "rm4dev-agent-zeta");

    let bad = vec![row("rm4dev-agent-x", "org.rm4dev.opencode.web-port=oops", "")];
    assert!(load_agent_containers(bad).is_err());
}

#[test]
fn container_names_are_sorted() {
    let rows = vec![
        row("rm4dev-agent-b", "", ""),
        row("rm4dev-agent-a", "", ""),
        row("rm4dev-agent-c", "", ""),
    ];
    assert_eq!(
        list_agent_container_names(&rows),
        vec![
            "rm4dev-agent-a".to_string(),
            "rm4dev-agent-b".to_string(),
            "rm4dev-agent-c".to_string()
        ]
    );
}

#[test]
fn web_port_of_a_named_container() {
    let rows = vec![
        row("rm4dev-agent-a", "<none>", ""),
        row("rm4dev-agent-b", "org.rm4dev.opencode.web-port=35082", ""),
    ];
    assert_eq!(
        container_web_port_for_container(&rows, &"rm4dev-agent-b".to_string()).unwrap(),
        Some(35082)
    );
    assert_eq!(
        container_web_port_for_container(&rows, &"rm4dev-agent-a".to_string()).unwrap(),
        None
    );
    assert_eq!(
        container_web_port_for_container(&rows, &"rm4dev-agent-q".to_string()).unwrap(),
        None
    );
}

#[test]
fn ps_query_lists_all_agent_containers() {
    assert_eq!(
        ps_args(),
        vec![
            "ps".to_string(),
            "--all".to_string(),
            "--filter".to_string(),
            "name=^rm4dev-agent-".to_string(),
            "--format".to_string(),
            PS_FORMAT.to_string(),
        ]
    );
    assert_eq!(
        PS_FORMAT,
        "{{.Names}}\t{{.Image}}\t{{.Status}}\t{{.Labels}}\t{{.Ports}}"
    );
}
