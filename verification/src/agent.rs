use crate::cli::{ContainerTarget, CreateArgsView, CreateContainerArgs};
use crate::error::{result_view, AppError, AppErrorView, AppResult};
use crate::naming::{container_prefix, CONTAINER_PREFIX};
use crate::order::{
    insertion_sorted_by, lemma_sorted_map, permutes, rearranges, sort_by_name, sorted_by_key,
    Named,
};
use crate::mounts::{bind_mount_arg, MountSpec};
use crate::text::{decimal, decimal_string, string_views,
    char_views, chars_of, find_pair, find_pair_chars, has_prefix, lines_chars, lines_of,
    parse_u16_chars, parse_u16_spec, rsplit_once_at, rsplit_once_chars, slice_chars,
    split_by, split_chars, splitn_at, splitn_chars, starts_with_chars, string_of, trim,
    trim_chars, Separator,
};
use std::collections::BTreeSet;
use vstd::prelude::*;
use vstd::string::*;

verus! {

broadcast use vstd::laws_cmp::group_laws_cmp, vstd::std_specs::btree::group_btree_axioms;

/// The label that records a container's OpenCode web port.
pub const CONTAINER_WEB_PORT_LABEL: &'static str = "org.rm4dev.opencode.web-port";

/// The `podman ps` format that prints, per container, the five tab-separated fields that
/// [`parse_container_row`] reads.
pub const PS_FORMAT: &'static str = "{{.Names}}\t{{.Image}}\t{{.Status}}\t{{.Labels}}\t{{.Ports}}";

/// The `podman` arguments that list every agent container, running or not, one row each.
pub fn ps_args() -> (r: Vec<String>)
    ensures
        string_views(r@) == seq![
            "ps"@,
            "--all"@,
            "--filter"@,
            "name=^"@ + CONTAINER_PREFIX@,
            "--format"@,
            PS_FORMAT@,
        ],
{
    let mut filter = "name=^".to_owned();
    filter.append(CONTAINER_PREFIX);
    let mut args: Vec<String> = Vec::new();
    args.push("ps".to_owned());
    args.push("--all".to_owned());
    args.push("--filter".to_owned());
    args.push(filter);
    args.push("--format".to_owned());
    args.push(PS_FORMAT.to_owned());
    assert(string_views(args@) =~= seq![
        "ps"@,
        "--all"@,
        "--filter"@,
        "name=^"@ + CONTAINER_PREFIX@,
        "--format"@,
        PS_FORMAT@,
    ]);
    args
}

/// One line of `podman ps` output, split into its five tab-separated fields.
#[derive(Debug, Clone, PartialEq, Eq)]
pub struct ContainerRow {
    pub name: String,
    pub image: String,
    pub status: String,
    pub labels: String,
    pub ports: String,
}

/// The mathematical content of a [`ContainerRow`].
pub struct RowView {
    pub name: Seq<char>,
    pub image: Seq<char>,
    pub status: Seq<char>,
    pub labels: Seq<char>,
    pub ports: Seq<char>,
}

impl View for ContainerRow {
    type V = RowView;

    open spec fn view(&self) -> RowView {
        RowView {
            name: self.name@,
            image: self.image@,
            status: self.status@,
            labels: self.labels@,
            ports: self.ports@,
        }
    }
}

/// What a line of `podman ps` output gives: nothing for a blank line or a line with fewer
/// than five tab-separated fields, else the five fields trimmed (the last one holding the
/// rest of the line).
pub open spec fn row_of_line(line: Seq<char>) -> Option<RowView> {
    let fields = splitn_at(line, 5, '\t');
    if trim(line).len() == 0 || fields.len() < 5 {
        None
    } else {
        Some(
            RowView {
                name: trim(fields[0]),
                image: trim(fields[1]),
                status: trim(fields[2]),
                labels: trim(fields[3]),
                ports: trim(fields[4]),
            },
        )
    }
}

pub proof fn lemma_splitn_len(s: Seq<char>, n: nat, c: char)
    ensures
        splitn_at(s, n, c).len() <= n,
    decreases n,
{
    if n > 1 {
        let k = crate::text::first_index(s, crate::text::char_eq(c));
        if !(k >= s.len() || k < 0) {
            lemma_splitn_len(s.subrange(k + 1, s.len() as int), (n - 1) as nat, c);
        }
    }
}

/// Parses one line of `podman ps --format` output.
pub fn parse_container_row(line: &str) -> (r: Option<ContainerRow>)
    ensures
        match r {
            Some(row) => row_of_line(line@) == Some(row@),
            None => row_of_line(line@) is None,
        },
{
    let chars = chars_of(line);
    let trimmed = trim_chars(&chars);
    if trimmed.len() == 0 {
        return None;
    }
    let fields = splitn_chars(&chars, 5, '\t');
    proof {
        lemma_splitn_len(line@, 5, '\t');
    }
    if fields.len() < 5 {
        return None;
    }
    proof {
        assert(char_views(fields@)[0] == fields@[0]@);
        assert(char_views(fields@)[1] == fields@[1]@);
        assert(char_views(fields@)[2] == fields@[2]@);
        assert(char_views(fields@)[3] == fields@[3]@);
        assert(char_views(fields@)[4] == fields@[4]@);
    }
    Some(
        ContainerRow {
            name: string_of(&trim_chars(&fields[0])),
            image: string_of(&trim_chars(&fields[1])),
            status: string_of(&trim_chars(&fields[2])),
            labels: string_of(&trim_chars(&fields[3])),
            ports: string_of(&trim_chars(&fields[4])),
        },
    )
}

/// The rows that the lines of `lines` give, in order, blank and short lines left out.
pub open spec fn rows_of_lines(lines: Seq<Seq<char>>) -> Seq<RowView>
    decreases lines.len(),
{
    if lines.len() == 0 {
        seq![]
    } else {
        match row_of_line(lines[0]) {
            Some(row) => seq![row] + rows_of_lines(lines.drop_first()),
            None => rows_of_lines(lines.drop_first()),
        }
    }
}

pub open spec fn row_views(rows: Seq<ContainerRow>) -> Seq<RowView> {
    rows.map_values(|r: ContainerRow| r@)
}

/// Parses the whole output of `podman ps --format`.
pub fn parse_container_rows(output: &str) -> (r: Vec<ContainerRow>)
    ensures
        row_views(r@) == rows_of_lines(lines_of(output@)),
{
    let lines = lines_chars(&chars_of(output));
    let ghost all = char_views(lines@);
    let mut rows: Vec<ContainerRow> = Vec::new();
    let mut i: usize = 0;
    proof {
        assert(all.subrange(0, all.len() as int) =~= all);
        assert(row_views(rows@) + rows_of_lines(all) =~= rows_of_lines(all));
    }
    while i < lines.len()
        invariant
            i <= lines.len(),
            all == char_views(lines@),
            all == lines_of(output@),
            rows_of_lines(all) == row_views(rows@) + rows_of_lines(all.subrange(i as int, all.len() as int)),
        decreases lines.len() - i,
    {
        let line = string_of(&lines[i]);
        let ghost rest = all.subrange(i as int, all.len() as int);
        proof {
            assert(rest[0] == lines@[i as int]@);
            assert(rest.drop_first() =~= all.subrange(i + 1, all.len() as int));
        }
        match parse_container_row(line.as_str()) {
            Some(row) => {
                proof {
                    assert(row_views(rows@.push(row)) =~= row_views(rows@).push(row@));
                    assert(row_views(rows@) + (seq![row@] + rows_of_lines(rest.drop_first()))
                        =~= row_views(rows@.push(row)) + rows_of_lines(rest.drop_first()));
                }
                rows.push(row);
            },
            None => {},
        }
        i = i + 1;
    }
    proof {
        assert(all.subrange(i as int, all.len() as int).len() == 0);
        assert(row_views(rows@) + Seq::<RowView>::empty() =~= row_views(rows@));
    }
    rows
}

/// The `label=` key that introduces the web port in a container's label list.
pub open spec fn web_port_key() -> Seq<char> {
    CONTAINER_WEB_PORT_LABEL@ + "="@
}

/// Scans the label list entries `pieces` for the web port: the first non-empty entry that
/// starts with the web port key decides, and its value must be a port number.
pub open spec fn scan_web_port(name: Seq<char>, pieces: Seq<Seq<char>>) -> Result<
    Option<u16>,
    AppErrorView,
>
    decreases pieces.len(),
{
    if pieces.len() == 0 {
        Ok(None)
    } else {
        let label = trim(pieces[0]);
        if label.len() > 0 && has_prefix(label, web_port_key()) {
            let value = label.subrange(web_port_key().len() as int, label.len() as int);
            match parse_u16_spec(value) {
                Some(port) => Ok(Some(port)),
                None => Err(
                    AppErrorView::Message(
                        "container `"@ + name + "` has an invalid OpenCode web port label `"@
                            + value + "`"@,
                    ),
                ),
            }
        } else {
            scan_web_port(name, pieces.drop_first())
        }
    }
}

/// What the label list of container `name` says of its web port: none for an empty list or
/// `<none>`, else what the entries, split at commas and whitespace, say.
pub open spec fn web_port_of_labels(name: Seq<char>, labels: Seq<char>) -> Result<
    Option<u16>,
    AppErrorView,
> {
    let l = trim(labels);
    if l.len() == 0 || l == "<none>"@ {
        Ok(None)
    } else {
        scan_web_port(name, split_by(l, Separator::CommaOrWhitespace))
    }
}

/// Whether the characters `v` spell `s`.
fn chars_equal(v: &Vec<char>, s: &str) -> (r: bool)
    ensures
        r == (v@ == s@),
{
    let w = chars_of(s);
    if v.len() != w.len() {
        return false;
    }
    let mut i: usize = 0;
    while i < v.len()
        invariant
            v.len() == w.len(),
            w@ == s@,
            i <= v.len(),
            forall|j: int| 0 <= j < i ==> v@[j] == w@[j],
        decreases v.len() - i,
    {
        if v[i] != w[i] {
            return false;
        }
        i = i + 1;
    }
    assert(v@ =~= w@);
    true
}

/// Reads the web port of container `name` from its `podman ps` label list.
pub fn parse_web_port_label(name: &str, labels: &str) -> (r: AppResult<Option<u16>>)
    ensures
        match (r, web_port_of_labels(name@, labels@)) {
            (Ok(a), Ok(b)) => a == b,
            (Err(e), Err(f)) => e@ == f,
            _ => false,
        },
{
    let l = trim_chars(&chars_of(labels));
    if l.len() == 0 || chars_equal(&l, "<none>") {
        return Ok(None);
    }
    let pieces = split_chars(&l, Separator::CommaOrWhitespace);
    let ghost all = char_views(pieces@);
    let key = chars_of(CONTAINER_WEB_PORT_LABEL);
    let mut key_eq = key.clone();
    key_eq.push('=');
    proof {
        assert(key_eq@ =~= CONTAINER_WEB_PORT_LABEL@ + "="@) by {
            reveal_strlit("=");
        }
        assert(all.subrange(0, all.len() as int) =~= all);
    }
    let mut i: usize = 0;
    while i < pieces.len()
        invariant
            i <= pieces.len(),
            all == char_views(pieces@),
            key_eq@ == web_port_key(),
            web_port_of_labels(name@, labels@) == scan_web_port(
                name@,
                all.subrange(i as int, all.len() as int),
            ),
        decreases pieces.len() - i,
    {
        let ghost rest = all.subrange(i as int, all.len() as int);
        proof {
            assert(rest[0] == pieces@[i as int]@);
            assert(rest.drop_first() =~= all.subrange(i + 1, all.len() as int));
        }
        let label = trim_chars(&pieces[i]);
        if label.len() > 0 && starts_with_chars(&label, &key_eq) {
            let value = slice_chars(&label, key_eq.len(), label.len());
            match parse_u16_chars(&value) {
                Some(port) => {
                    return Ok(Some(port));
                },
                None => {
                    let mut message = "container `".to_owned();
                    message.append(name);
                    message.append("` has an invalid OpenCode web port label `");
                    let value_text = string_of(&value);
                    message.append(value_text.as_str());
                    message.append("`");
                    return Err(AppError::Message(message));
                },
            }
        }
        i = i + 1;
    }
    Ok(None)
}


/// The host port that one published-port binding of `podman ps` names, if any: the binding
/// is trimmed, `<none>` and empty bindings name none, the host side is what comes before the
/// first `->`, and the port is what follows its last `:` (or all of it), trimmed.
pub open spec fn binding_host_port(binding: Seq<char>) -> Option<u16> {
    let b = trim(binding);
    if b.len() == 0 || b == "<none>"@ {
        None
    } else {
        let k = find_pair(b, '-', '>');
        if k >= b.len() {
            None
        } else {
            let host = trim(b.subrange(0, k));
            let port = match rsplit_once_at(host, ':') {
                Some((_, p)) => trim(p),
                None => host,
            };
            parse_u16_spec(port)
        }
    }
}

/// The host ports named by the bindings `bindings`.
pub open spec fn host_ports_of(bindings: Seq<Seq<char>>) -> Set<u16>
    decreases bindings.len(),
{
    if bindings.len() == 0 {
        Set::empty()
    } else {
        match binding_host_port(bindings[0]) {
            Some(p) => host_ports_of(bindings.drop_first()).insert(p),
            None => host_ports_of(bindings.drop_first()),
        }
    }
}

/// The host ports of a `podman ps` port column, whose bindings are separated by commas.
pub open spec fn host_ports_of_column(value: Seq<char>) -> Set<u16> {
    host_ports_of(split_by(value, Separator::Char(',')))
}

/// The host port of one binding.
fn parse_binding_host_port(binding: &Vec<char>) -> (r: Option<u16>)
    ensures
        r == binding_host_port(binding@),
{
    let b = trim_chars(binding);
    if b.len() == 0 || chars_equal(&b, "<none>") {
        return None;
    }
    let k = find_pair_chars(&b, '-', '>');
    if k >= b.len() {
        return None;
    }
    let host = trim_chars(&slice_chars(&b, 0, k));
    let port = match rsplit_once_chars(&host, ':') {
        Some((_, p)) => trim_chars(&p),
        None => host,
    };
    parse_u16_chars(&port)
}

pub proof fn lemma_host_ports_split(a: Seq<Seq<char>>, i: int)
    requires
        0 <= i <= a.len(),
    ensures
        host_ports_of(a) == host_ports_of(a.subrange(0, i)).union(
            host_ports_of(a.subrange(i, a.len() as int)),
        ),
    decreases i,
{
    if i == 0 {
        assert(host_ports_of(a.subrange(0, 0)) =~= Set::<u16>::empty());
        assert(a.subrange(0, a.len() as int) =~= a);
        assert(Set::<u16>::empty().union(host_ports_of(a)) =~= host_ports_of(a));
    } else {
        let t = a.drop_first();
        lemma_host_ports_split(t, i - 1);
        assert(t.subrange(0, i - 1) =~= a.subrange(0, i).drop_first());
        assert(t.subrange(i - 1, t.len() as int) =~= a.subrange(i, a.len() as int));
        assert(a.subrange(0, i)[0] == a[0]);
        let head = host_ports_of(a.subrange(0, i));
        let tail = host_ports_of(a.subrange(i, a.len() as int));
        match binding_host_port(a[0]) {
            Some(p) => {
                assert(host_ports_of(a) =~= head.union(tail));
            },
            None => {},
        }
    }
}

/// The host ports that a `podman ps` port column publishes.
pub fn parse_container_ports(value: &str) -> (r: BTreeSet<u16>)
    ensures
        r@ == host_ports_of_column(value@),
{
    let pieces = split_chars(&chars_of(value), Separator::Char(','));
    let ghost all = char_views(pieces@);
    let mut ports: BTreeSet<u16> = BTreeSet::new();
    let mut i: usize = 0;
    while i < pieces.len()
        invariant
            i <= pieces.len(),
            all == char_views(pieces@),
            ports@ == host_ports_of(all.subrange(0, i as int)),
        decreases pieces.len() - i,
    {
        proof {
            let pre = all.subrange(0, i as int);
            let post = all.subrange(0, i + 1);
            lemma_host_ports_split(post, i as int);
            assert(post.subrange(0, i as int) =~= pre);
            let last = post.subrange(i as int, i + 1);
            assert(last.drop_first() =~= Seq::<Seq<char>>::empty());
            assert(last[0] == pieces@[i as int]@);
            assert(host_ports_of(last.drop_first()) =~= Set::<u16>::empty());
        }
        match parse_binding_host_port(&pieces[i]) {
            Some(p) => {
                ports.insert(p);
                proof {
                    let post = all.subrange(0, i + 1);
                    let pre = all.subrange(0, i as int);
                    assert(ports@ =~= host_ports_of(pre).union(host_ports_of(post.subrange(i as int, i + 1))));
                }
            },
            None => {
                proof {
                    let post = all.subrange(0, i + 1);
                    let pre = all.subrange(0, i as int);
                    assert(ports@ =~= host_ports_of(pre).union(host_ports_of(post.subrange(i as int, i + 1))));
                }
            },
        }
        i = i + 1;
    }
    assert(all.subrange(0, all.len() as int) =~= all);
    ports
}


/// The web password of a container: its name without the container prefix.
pub open spec fn web_password_of(name: Seq<char>) -> Seq<char> {
    if has_prefix(name, container_prefix()) {
        name.subrange(container_prefix().len() as int, name.len() as int)
    } else {
        name
    }
}

/// The OpenCode web password of the container called `container_name`.
pub fn container_web_password(container_name: &str) -> (r: String)
    ensures
        r@ == web_password_of(container_name@),
{
    let chars = chars_of(container_name);
    let prefix = chars_of(CONTAINER_PREFIX);
    if starts_with_chars(&chars, &prefix) {
        string_of(&slice_chars(&chars, prefix.len(), chars.len()))
    } else {
        container_name.to_owned()
    }
}

/// A container as `agent list` shows it.
#[derive(Debug, Clone, PartialEq, Eq)]
pub struct ListedContainer {
    pub name: String,
    pub image: String,
    pub status: String,
    pub web_port: Option<u16>,
    pub web_password: Option<String>,
    pub host_ports: BTreeSet<u16>,
}

/// The mathematical content of a [`ListedContainer`].
pub struct ListedView {
    pub name: Seq<char>,
    pub image: Seq<char>,
    pub status: Seq<char>,
    pub web_port: Option<u16>,
    pub web_password: Option<Seq<char>>,
    pub host_ports: Set<u16>,
}

impl View for ListedContainer {
    type V = ListedView;

    open spec fn view(&self) -> ListedView {
        ListedView {
            name: self.name@,
            image: self.image@,
            status: self.status@,
            web_port: self.web_port,
            web_password: match self.web_password {
                Some(p) => Some(p@),
                None => None,
            },
            host_ports: self.host_ports@,
        }
    }
}

impl Named for ListedContainer {
    open spec fn key(&self) -> Seq<char> {
        self.name@
    }

    fn key_chars(&self) -> (r: Vec<char>) {
        chars_of(self.name.as_str())
    }
}

/// The web password that goes with a web port: the container's password when there is a port,
/// none otherwise.
pub open spec fn password_for_port(name: Seq<char>, web_port: Option<u16>) -> Option<Seq<char>> {
    match web_port {
        Some(_) => Some(web_password_of(name)),
        None => None,
    }
}

impl ListedContainer {
    /// The same container with the given web port and the password that goes with it.
    pub fn with_web(self, web_port: Option<u16>) -> (r: Self)
        ensures
            r@ == (ListedView {
                web_port,
                web_password: password_for_port(self.name@, web_port),
                ..self@
            }),
    {
        let mut c = self;
        c.web_port = web_port;
        c.web_password = match web_port {
            Some(_) => Some(container_web_password(c.name.as_str())),
            None => None,
        };
        c
    }
}

/// What a `podman ps` row says of a container, or the error its web port label raises.
pub open spec fn listed_of_row(row: RowView) -> Result<ListedView, AppErrorView> {
    match web_port_of_labels(row.name, row.labels) {
        Err(e) => Err(e),
        Ok(web_port) => Ok(
            ListedView {
                name: row.name,
                image: row.image,
                status: row.status,
                web_port,
                web_password: password_for_port(row.name, web_port),
                host_ports: host_ports_of_column(row.ports),
            },
        ),
    }
}

/// The containers of `rows`, in row order, or the first error a row raises.
pub open spec fn listed_of_rows(rows: Seq<RowView>) -> Result<Seq<ListedView>, AppErrorView>
    decreases rows.len(),
{
    if rows.len() == 0 {
        Ok(seq![])
    } else {
        match listed_of_row(rows[0]) {
            Err(e) => Err(e),
            Ok(c) => match listed_of_rows(rows.drop_first()) {
                Err(e) => Err(e),
                Ok(rest) => Ok(seq![c] + rest),
            },
        }
    }
}

pub open spec fn listed_views(v: Seq<ListedContainer>) -> Seq<ListedView> {
    v.map_values(|c: ListedContainer| c@)
}

/// Builds the container listing of one `podman ps` row.
pub fn listed_container(row: ContainerRow) -> (r: AppResult<ListedContainer>)
    ensures
        result_view(r) == listed_of_row(row@),
{
    let web_port = match parse_web_port_label(row.name.as_str(), row.labels.as_str()) {
        Ok(p) => p,
        Err(e) => {
            return Err(e);
        },
    };
    let host_ports = parse_container_ports(row.ports.as_str());
    let container = ListedContainer {
        name: row.name,
        image: row.image,
        status: row.status,
        web_port,
        web_password: None,
        host_ports,
    };
    Ok(container.with_web(web_port))
}

/// The containers that the `podman ps` rows describe, sorted by name; the first row (in
/// `podman` order) whose web port label is not a port number makes it fail.
pub fn load_agent_containers(rows: Vec<ContainerRow>) -> (r: AppResult<Vec<ListedContainer>>)
    ensures
        match (r, listed_of_rows(row_views(rows@))) {
            (Ok(v), Ok(listed)) => {
                &&& sorted_by_key(v@)
                &&& rearranges(listed_views(v@), listed)
                &&& listed_views(v@) == insertion_sorted_by(listed, |c: ListedView| c.name)
            },
            (Err(e), Err(f)) => e@ == f,
            _ => false,
        },
{
    let ghost all = row_views(rows@);
    let mut input = rows;
    let mut out: Vec<ListedContainer> = Vec::new();
    let n = input.len();
    let mut i: usize = 0;
    proof {
        assert(all.subrange(0, all.len() as int) =~= all);
        assert(listed_views(out@) =~= Seq::<ListedView>::empty());
    }
    while i < n
        invariant
            n == all.len(),
            all == row_views(rows@),
            i <= n,
            input@.len() == n - i,
            forall|k: int| 0 <= k < n - i ==> #[trigger] input@[k]@ == all[i + k],
            listed_of_rows(all) == (match listed_of_rows(all.subrange(i as int, n as int)) {
                Err(e) => Err(e),
                Ok(rest) => Ok(listed_views(out@) + rest),
            }),
        decreases n - i,
    {
        let ghost before = input@;
        proof {
            assert(before[0]@ == all[i + 0]);
        }
        let row = input.remove(0);
        proof {
            assert forall|k: int| 0 <= k < n - (i + 1) implies #[trigger] input@[k]@ == all[(i + 1)
                + k] by {
                assert(input@[k] == before[k + 1]);
                assert(before[k + 1]@ == all[i + (k + 1)]);
            }
        }
        let ghost rest = all.subrange(i as int, n as int);
        proof {
            assert(rest[0] == all[i as int]);
            assert(rest.drop_first() =~= all.subrange(i + 1, n as int));
        }
        let ghost row_v = row@;
        proof {
            assert(row_v == all[i as int]);
            assert(rest.len() > 0);
        }
        let c = listed_container(row);
        match c {
            Err(e) => {
                proof {
                    assert(listed_of_row(rest[0]) == Err::<ListedView, AppErrorView>(e@));
                    assert(listed_of_rows(rest) == Err::<Seq<ListedView>, AppErrorView>(e@));
                }
                return Err(e);
            },
            Ok(c) => {
                proof {
                    assert(listed_views(out@.push(c)) =~= listed_views(out@).push(c@));
                    if let Ok(tail) = listed_of_rows(all.subrange(i + 1, n as int)) {
                        assert(listed_views(out@) + (seq![c@] + tail) =~= listed_views(
                            out@.push(c),
                        ) + tail);
                    }
                }
                out.push(c);
            },
        }
        i = i + 1;
    }
    proof {
        assert(all.subrange(n as int, n as int).len() == 0);
        assert(listed_views(out@) + Seq::<ListedView>::empty() =~= listed_views(out@));
    }
    let ghost unsorted = out@;
    let sorted = sort_by_name(out);
    proof {
        let p = choose|p: Seq<int>| permutes(p, sorted@, unsorted);
        assert forall|k: int| 0 <= k < sorted@.len() implies #[trigger] listed_views(sorted@)[k]
            == listed_views(unsorted)[p[k]] by {}
        assert(permutes(p, listed_views(sorted@), listed_views(unsorted)));
        lemma_sorted_map(unsorted, |c: ListedContainer| c@, |c: ListedView| c.name);
    }
    Ok(sorted)
}


/// The length of `s` in bytes, as `str::len` gives it.
pub open spec fn byte_len(s: Seq<char>) -> nat {
    (vstd::utf8::encode_utf8(s).len() as usize) as nat
}

/// `n` spaces.
pub open spec fn spaces(n: nat) -> Seq<char> {
    Seq::new(n, |i: int| ' ')
}

/// `s` padded with spaces on the right to `width` characters (`format!("{:<width$}")`).
pub open spec fn pad_right(s: Seq<char>, width: nat) -> Seq<char> {
    if s.len() >= width {
        s
    } else {
        s + spaces((width - s.len()) as nat)
    }
}

/// The larger of `floor` and every value in `values`.
pub open spec fn widest(values: Seq<nat>, floor: nat) -> nat
    decreases values.len(),
{
    if values.len() == 0 {
        floor
    } else {
        let rest = widest(values.drop_first(), floor);
        if values[0] > rest {
            values[0]
        } else {
            rest
        }
    }
}

/// What the PORT column shows for a container.
pub open spec fn port_cell(port: Option<u16>) -> Seq<char> {
    match port {
        Some(p) => crate::text::decimal(p as nat),
        None => "-"@,
    }
}

/// What the PASSWORD column shows for a container.
pub open spec fn password_cell(password: Option<Seq<char>>) -> Seq<char> {
    match password {
        Some(p) => p,
        None => "-"@,
    }
}

/// The width of the NAME column: the longest name in bytes, at least 4.
pub open spec fn name_column_width(cs: Seq<ListedView>) -> nat {
    widest(cs.map_values(|c: ListedView| byte_len(c.name)), 4)
}

/// The width of the IMAGE column: the longest image in bytes, at least 5.
pub open spec fn image_column_width(cs: Seq<ListedView>) -> nat {
    widest(cs.map_values(|c: ListedView| byte_len(c.image)), 5)
}

/// The width of the PORT column: the longest port number, at least 4.
pub open spec fn port_column_width(cs: Seq<ListedView>) -> nat {
    widest(
        cs.map_values(
            |c: ListedView|
                match c.web_port {
                    Some(p) => crate::text::decimal(p as nat).len(),
                    None => 4,
                },
        ),
        4,
    )
}

/// The width of the PASSWORD column: the longest password in bytes, at least 8.
pub open spec fn password_column_width(cs: Seq<ListedView>) -> nat {
    widest(
        cs.map_values(
            |c: ListedView|
                match c.web_password {
                    Some(p) => byte_len(p),
                    None => 8,
                },
        ),
        8,
    )
}

/// The header line of the container table for the given column widths.
pub open spec fn table_header(nw: nat, iw: nat, pw: nat, ww: nat) -> Seq<char> {
    pad_right("NAME"@, nw) + "  "@ + pad_right("IMAGE"@, iw) + "  "@ + pad_right("PORT"@, pw)
        + "  "@ + pad_right("PASSWORD"@, ww) + "  STATUS"@
}

/// The line of the container table that shows `c`, for the given column widths.
pub open spec fn table_row(c: ListedView, nw: nat, iw: nat, pw: nat, ww: nat) -> Seq<char> {
    pad_right(c.name, nw) + "  "@ + pad_right(c.image, iw) + "  "@ + pad_right(
        port_cell(c.web_port),
        pw,
    ) + "  "@ + pad_right(password_cell(c.web_password), ww) + "  "@ + c.status
}

/// The lines `agent list` prints: nothing when there are no containers, else a header and one
/// row per container, in order, in columns as wide as their widest entry.
pub open spec fn container_table(cs: Seq<ListedView>) -> Seq<Seq<char>> {
    if cs.len() == 0 {
        seq![]
    } else {
        let nw = name_column_width(cs);
        let iw = image_column_width(cs);
        let pw = port_column_width(cs);
        let ww = password_column_width(cs);
        seq![table_header(nw, iw, pw, ww)] + cs.map_values(
            |c: ListedView| table_row(c, nw, iw, pw, ww),
        )
    }
}

/// `s` padded with spaces to `width` characters.
fn pad_string(s: &str, width: usize) -> (r: String)
    ensures
        r@ == pad_right(s@, width as nat),
{
    let n = s.unicode_len();
    let mut r = s.to_owned();
    if n >= width {
        return r;
    }
    let mut k: usize = n;
    while k < width
        invariant
            n <= k <= width,
            n == s@.len(),
            r@ == s@ + spaces((k - n) as nat),
        decreases width - k,
    {
        r.append(" ");
        proof {
            reveal_strlit(" ");
            assert(s@ + spaces((k + 1 - n) as nat) =~= s@ + spaces((k - n) as nat) + " "@);
        }
        k = k + 1;
    }
    r
}

proof fn lemma_widest_step(values: Seq<nat>, floor: nat, i: int)
    requires
        0 <= i < values.len(),
    ensures
        widest(values.subrange(0, i + 1), floor) == if values[i] > widest(
            values.subrange(0, i),
            floor,
        ) {
            values[i]
        } else {
            widest(values.subrange(0, i), floor)
        },
    decreases i,
{
    let a = values.subrange(0, i + 1);
    if i == 0 {
        assert(a.drop_first() =~= Seq::<nat>::empty());
        assert(values.subrange(0, 0) =~= Seq::<nat>::empty());
    } else {
        let t = values.drop_first();
        lemma_widest_step(t, floor, i - 1);
        assert(a.drop_first() =~= t.subrange(0, i));
        assert(values.subrange(0, i).drop_first() =~= t.subrange(0, i - 1));
        assert(t[i - 1] == values[i]);
    }
}

/// The width of one column: the widest of `values`, at least `floor`.
fn column_width(values: &Vec<usize>, floor: usize) -> (r: usize)
    ensures
        r as nat == widest(values@.map_values(|v: usize| v as nat), floor as nat),
{
    let ghost vals = values@.map_values(|v: usize| v as nat);
    let mut best = floor;
    let mut i: usize = 0;
    assert(vals.subrange(0, 0) =~= Seq::<nat>::empty());
    while i < values.len()
        invariant
            i <= values.len(),
            vals == values@.map_values(|v: usize| v as nat),
            best as nat == widest(vals.subrange(0, i as int), floor as nat),
        decreases values.len() - i,
    {
        proof {
            lemma_widest_step(vals, floor as nat, i as int);
        }
        if values[i] > best {
            best = values[i];
        }
        i = i + 1;
    }
    assert(vals.subrange(0, values.len() as int) =~= vals);
    best
}

/// The text of the PORT column for a container.
fn port_text(port: Option<u16>) -> (r: String)
    ensures
        r@ == port_cell(port),
{
    match port {
        Some(p) => crate::text::decimal_string(p as u64),
        None => "-".to_owned(),
    }
}

/// The text of the PASSWORD column for a container.
fn password_text(password: &Option<String>) -> (r: String)
    ensures
        r@ == password_cell(match password {
            Some(p) => Some(p@),
            None => None,
        }),
{
    match password {
        Some(p) => p.clone(),
        None => "-".to_owned(),
    }
}

/// The lines of the `agent list` table.
pub fn render_container_table(containers: &Vec<ListedContainer>) -> (r: Vec<String>)
    ensures
        crate::text::string_views(r@) == container_table(listed_views(containers@)),
{
    let ghost cs = listed_views(containers@);
    let mut out: Vec<String> = Vec::new();
    if containers.len() == 0 {
        assert(crate::text::string_views(out@) =~= Seq::<Seq<char>>::empty());
        return out;
    }
    let mut names: Vec<usize> = Vec::new();
    let mut images: Vec<usize> = Vec::new();
    let mut ports: Vec<usize> = Vec::new();
    let mut passwords: Vec<usize> = Vec::new();
    let mut i: usize = 0;
    while i < containers.len()
        invariant
            i <= containers.len(),
            cs == listed_views(containers@),
            names@.len() == i,
            images@.len() == i,
            ports@.len() == i,
            passwords@.len() == i,
            forall|k: int| 0 <= k < i ==> #[trigger] names@[k] as nat == byte_len(cs[k].name),
            forall|k: int| 0 <= k < i ==> #[trigger] images@[k] as nat == byte_len(cs[k].image),
            forall|k: int| 0 <= k < i ==> #[trigger] ports@[k] as nat == (match cs[k].web_port {
                Some(p) => crate::text::decimal(p as nat).len(),
                None => 4,
            }),
            forall|k: int| 0 <= k < i ==> #[trigger] passwords@[k] as nat == (match cs[k].web_password {
                Some(p) => byte_len(p),
                None => 8,
            }),
        decreases containers.len() - i,
    {
        let c = &containers[i];
        names.push(c.name.as_str().len());
        images.push(c.image.as_str().len());
        let port_width = match c.web_port {
            Some(p) => {
                let t = crate::text::decimal_string(p as u64);
                t.as_str().unicode_len()
            },
            None => 4,
        };
        ports.push(port_width);
        let password_width = match &c.web_password {
            Some(p) => p.as_str().len(),
            None => 8,
        };
        passwords.push(password_width);
        i = i + 1;
    }
    proof {
        assert(names@.map_values(|v: usize| v as nat) =~= cs.map_values(
            |c: ListedView| byte_len(c.name),
        ));
        assert(images@.map_values(|v: usize| v as nat) =~= cs.map_values(
            |c: ListedView| byte_len(c.image),
        ));
        assert(ports@.map_values(|v: usize| v as nat) =~= cs.map_values(
            |c: ListedView|
                match c.web_port {
                    Some(p) => crate::text::decimal(p as nat).len(),
                    None => 4,
                },
        ));
        assert(passwords@.map_values(|v: usize| v as nat) =~= cs.map_values(
            |c: ListedView|
                match c.web_password {
                    Some(p) => byte_len(p),
                    None => 8,
                },
        ));
    }
    let nw = column_width(&names, 4);
    let iw = column_width(&images, 5);
    let pw = column_width(&ports, 4);
    let ww = column_width(&passwords, 8);
    let mut header = pad_string("NAME", nw);
    header.append("  ");
    let cell = pad_string("IMAGE", iw);
    header.append(cell.as_str());
    header.append("  ");
    let cell = pad_string("PORT", pw);
    header.append(cell.as_str());
    header.append("  ");
    let cell = pad_string("PASSWORD", ww);
    header.append(cell.as_str());
    header.append("  STATUS");
    out.push(header);
    let mut j: usize = 0;
    while j < containers.len()
        invariant
            j <= containers.len(),
            cs == listed_views(containers@),
            out@.len() == j + 1,
            nw as nat == name_column_width(cs),
            iw as nat == image_column_width(cs),
            pw as nat == port_column_width(cs),
            ww as nat == password_column_width(cs),
            out@[0]@ == table_header(nw as nat, iw as nat, pw as nat, ww as nat),
            forall|k: int| 0 <= k < j ==> #[trigger] out@[k + 1]@ == table_row(
                cs[k],
                nw as nat,
                iw as nat,
                pw as nat,
                ww as nat,
            ),
        decreases containers.len() - j,
    {
        let c = &containers[j];
        let mut line = pad_string(c.name.as_str(), nw);
        line.append("  ");
        let cell = pad_string(c.image.as_str(), iw);
        line.append(cell.as_str());
        line.append("  ");
        let port = port_text(c.web_port);
        let cell = pad_string(port.as_str(), pw);
        line.append(cell.as_str());
        line.append("  ");
        let password = password_text(&c.web_password);
        let cell = pad_string(password.as_str(), ww);
        line.append(cell.as_str());
        line.append("  ");
        line.append(c.status.as_str());
        assert(cs[j as int] == c@);
        out.push(line);
        j = j + 1;
    }
    proof {
        let t = container_table(cs);
        let sv = crate::text::string_views(out@);
        assert(t.len() == sv.len());
        assert forall|k: int| 0 <= k < t.len() implies #[trigger] sv[k] == t[k] by {
            if k > 0 {
                assert(out@[(k - 1) + 1]@ == table_row(cs[k - 1], nw as nat, iw as nat, pw as nat, ww as nat));
            }
        }
        assert(sv =~= t);
    }
    out
}


/// Whether `name` is among `names`.
pub open spec fn names_contain(names: Seq<Seq<char>>, name: Seq<char>) -> bool {
    exists|i: int| 0 <= i < names.len() && names[i] == name
}

/// Whether `name` is one of `names`.
fn contains_name(names: &Vec<String>, name: &String) -> (r: bool)
    ensures
        r == names_contain(crate::text::string_views(names@), name@),
{
    let ghost v = crate::text::string_views(names@);
    let mut i: usize = 0;
    while i < names.len()
        invariant
            i <= names.len(),
            v == crate::text::string_views(names@),
            forall|k: int| 0 <= k < i ==> #[trigger] v[k] != name@,
        decreases names.len() - i,
    {
        if names[i] == *name {
            assert(v[i as int] == name@);
            return true;
        }
        i = i + 1;
    }
    false
}

/// Which existing container a command that needs one is aimed at: the named one if it
/// exists, else the only one.
pub open spec fn existing_target_result(existing: Seq<Seq<char>>, name: Option<Seq<char>>) -> Result<
    Seq<char>,
    AppErrorView,
> {
    match name {
        Some(n) => if names_contain(existing, n) {
            Ok(n)
        } else {
            Err(AppErrorView::Message("container `"@ + n + "` was not found"@))
        },
        None => if existing.len() == 0 {
            Err(AppErrorView::Message("no rm4dev agent containers were found"@))
        } else if existing.len() == 1 {
            Ok(existing[0])
        } else {
            Err(AppErrorView::Message("multiple rm4dev agent containers exist; specify a name"@))
        },
    }
}

/// The container that `stop`, `rm`, `attach` and `enter` act on, among the `existing` ones.
pub fn resolve_existing_container(existing: &Vec<String>, target: ContainerTarget) -> (r: AppResult<String>)
    ensures
        result_view(r) == existing_target_result(crate::text::string_views(existing@), target@.name),
{
    match target.name {
        Some(name) => {
            if contains_name(existing, &name) {
                Ok(name)
            } else {
                let mut message = "container `".to_owned();
                message.append(name.as_str());
                message.append("` was not found");
                Err(AppError::Message(message))
            }
        },
        None => {
            if existing.len() == 0 {
                Err(AppError::Message("no rm4dev agent containers were found".to_owned()))
            } else if existing.len() == 1 {
                Ok(existing[0].clone())
            } else {
                Err(
                    AppError::Message(
                        "multiple rm4dev agent containers exist; specify a name".to_owned(),
                    ),
                )
            }
        },
    }
}

/// The names of the containers that `rows` describe, sorted.
pub fn list_agent_container_names(rows: &Vec<ContainerRow>) -> (r: Vec<String>)
    ensures
        sorted_by_key(r@),
        rearranges(
            crate::text::string_views(r@),
            row_views(rows@).map_values(|row: RowView| row.name),
        ),
{
    let mut names: Vec<String> = Vec::new();
    let mut i: usize = 0;
    while i < rows.len()
        invariant
            i <= rows.len(),
            names@.len() == i,
            forall|k: int| 0 <= k < i ==> #[trigger] names@[k]@ == rows@[k].name@,
        decreases rows.len() - i,
    {
        names.push(rows[i].name.clone());
        i = i + 1;
    }
    let ghost unsorted = names@;
    let sorted = sort_by_name(names);
    proof {
        let p = choose|p: Seq<int>| permutes(p, sorted@, unsorted);
        let target = row_views(rows@).map_values(|row: RowView| row.name);
        assert forall|k: int| 0 <= k < sorted@.len() implies #[trigger] crate::text::string_views(
            sorted@,
        )[k] == target[p[k]] by {
            assert(sorted@[k] == unsorted[p[k]]);
        }
        assert(permutes(p, crate::text::string_views(sorted@), target));
    }
    sorted
}

/// Fails when a container called `name` is among `existing`.
pub fn ensure_container_does_not_exist(existing: &Vec<String>, name: &String) -> (r: AppResult<()>)
    ensures
        match r {
            Ok(_) => !names_contain(crate::text::string_views(existing@), name@),
            Err(e) => names_contain(crate::text::string_views(existing@), name@) && e@ == AppErrorView::Message(
                "container `"@ + name@ + "` already exists"@,
            ),
        },
{
    if contains_name(existing, name) {
        let mut message = "container `".to_owned();
        message.append(name.as_str());
        message.append("` already exists");
        return Err(AppError::Message(message));
    }
    Ok(())
}

/// The web port of the first container in `rows` called `name`, if it has one.
pub open spec fn web_port_of_rows(rows: Seq<RowView>, name: Seq<char>) -> Result<
    Option<u16>,
    AppErrorView,
>
    decreases rows.len(),
{
    if rows.len() == 0 {
        Ok(None)
    } else if rows[0].name == name {
        web_port_of_labels(rows[0].name, rows[0].labels)
    } else {
        web_port_of_rows(rows.drop_first(), name)
    }
}

/// The web port of container `name`, read from the `podman ps` rows.
pub fn container_web_port_for_container(rows: &Vec<ContainerRow>, name: &String) -> (r: AppResult<
    Option<u16>,
>)
    ensures
        match (r, web_port_of_rows(row_views(rows@), name@)) {
            (Ok(a), Ok(b)) => a == b,
            (Err(e), Err(f)) => e@ == f,
            _ => false,
        },
{
    let ghost all = row_views(rows@);
    let mut i: usize = 0;
    assert(all.subrange(0, all.len() as int) =~= all);
    while i < rows.len()
        invariant
            i <= rows.len(),
            all == row_views(rows@),
            web_port_of_rows(all, name@) == web_port_of_rows(all.subrange(i as int, all.len() as int), name@),
        decreases rows.len() - i,
    {
        let ghost rest = all.subrange(i as int, all.len() as int);
        proof {
            assert(rest[0] == rows@[i as int]@);
            assert(rest.drop_first() =~= all.subrange(i + 1, all.len() as int));
        }
        if rows[i].name == *name {
            return parse_web_port_label(rows[i].name.as_str(), rows[i].labels.as_str());
        }
        i = i + 1;
    }
    Ok(None)
}

/// What `agent start` does: create a new container or resume an existing one.
#[derive(Debug, Clone, PartialEq, Eq)]
pub enum StartPlan {
    Create(CreateContainerArgs),
    Resume { name: String },
}

/// The mathematical content of a [`StartPlan`].
pub enum StartPlanView {
    Create(CreateArgsView),
    Resume(Seq<char>),
}

impl View for StartPlan {
    type V = StartPlanView;

    open spec fn view(&self) -> StartPlanView {
        match self {
            StartPlan::Create(args) => StartPlanView::Create(args@),
            StartPlan::Resume { name } => StartPlanView::Resume(name@),
        }
    }
}

/// Whether `args` asks for something that only a new container can have.
pub open spec fn has_create_only_options(args: CreateArgsView) -> bool {
    args.no_shared_auth || args.no_web || args.mounts.len() > 0
}

/// What `agent start` decides given the `existing` containers: a named container is resumed
/// if it exists (create-only options are then an error) and created otherwise; without a
/// name, create-only options or the absence of containers mean create, a single container is
/// resumed, and several are an error.
pub open spec fn start_plan_result(existing: Seq<Seq<char>>, args: CreateArgsView) -> Result<
    StartPlanView,
    AppErrorView,
> {
    match args.name {
        Some(name) => if names_contain(existing, name) {
            if has_create_only_options(args) {
                Err(
                    AppErrorView::Message(
                        "container `"@ + name
                            + "` already exists; create-only options only apply when creating a new container"@,
                    ),
                )
            } else {
                Ok(StartPlanView::Resume(name))
            }
        } else {
            Ok(StartPlanView::Create(args))
        },
        None => if has_create_only_options(args) || existing.len() == 0 {
            Ok(StartPlanView::Create(args))
        } else if existing.len() == 1 {
            Ok(StartPlanView::Resume(existing[0]))
        } else {
            Err(AppErrorView::Message("multiple rm4dev agent containers exist; specify a name"@))
        },
    }
}

/// Decides whether `agent start` creates or resumes a container.
pub fn plan_start(existing: Vec<String>, args: CreateContainerArgs) -> (r: AppResult<StartPlan>)
    ensures
        result_view(r) == start_plan_result(crate::text::string_views(existing@), args@),
{
    let create_only = args.no_shared_auth || args.no_web || args.mounts.len() > 0;
    match &args.name {
        Some(name) => {
            if contains_name(&existing, name) {
                if create_only {
                    let mut message = "container `".to_owned();
                    message.append(name.as_str());
                    message.append(
                        "` already exists; create-only options only apply when creating a new container",
                    );
                    return Err(AppError::Message(message));
                }
                return Ok(StartPlan::Resume { name: name.clone() });
            }
            Ok(StartPlan::Create(args))
        },
        None => {
            if create_only || existing.len() == 0 {
                return Ok(StartPlan::Create(args));
            }
            if existing.len() == 1 {
                Ok(StartPlan::Resume { name: existing[0].clone() })
            } else {
                Err(
                    AppError::Message(
                        "multiple rm4dev agent containers exist; specify a name".to_owned(),
                    ),
                )
            }
        },
    }
}


/// The first port that new containers may publish OpenCode web on.
pub const WEB_PORT_START: u16 = 35080;

/// The ports that existing containers already claim: their web ports and every host port
/// they publish.
pub open spec fn reserved_ports_of(cs: Seq<ListedView>) -> Set<u16> {
    Set::new(
        |p: u16|
            exists|i: int|
                0 <= i < cs.len() && (cs[i].web_port == Some(p) || cs[i].host_ports.contains(p)),
    )
}

/// The elements of `s` before index `n`.
pub open spec fn prefix_set(s: Seq<u16>, n: int) -> Set<u16> {
    Set::new(|x: u16| exists|k: int| 0 <= k < n && s[k] == x)
}

proof fn lemma_prefix_set_step(s: Seq<u16>, seen: Set<u16>, n: int, x: u16)
    requires
        0 <= n < s.len(),
        s[n] == x,
        seen == prefix_set(s, n),
    ensures
        seen.insert(x) == prefix_set(s, n + 1),
{
    assert forall|y: u16| seen.insert(x).contains(y) <==> prefix_set(s, n + 1).contains(y) by {
        if seen.contains(y) {
            let k = choose|k: int| 0 <= k < n && s[k] == y;
            assert(0 <= k < n + 1 && s[k] == y);
        }
        if prefix_set(s, n + 1).contains(y) && y != x {
            let k = choose|k: int| 0 <= k < n + 1 && s[k] == y;
            assert(k != n);
        }
    }
    assert(seen.insert(x) =~= prefix_set(s, n + 1));
}

proof fn lemma_prefix_set_complete(s: Seq<u16>, seen: Set<u16>, n: int, all: Set<u16>)
    requires
        seen == prefix_set(s, n),
        s.to_set() == all,
    ensures
        n == s.len() ==> seen == all,
{
    if n == s.len() {
        assert forall|x: u16| seen.contains(x) <==> all.contains(x) by {
            if all.contains(x) {
                assert(s.to_set().contains(x));
                let k = choose|k: int| 0 <= k < s.len() && s[k] == x;
                assert(0 <= k < n && s[k] == x);
            }
            if seen.contains(x) {
                let k = choose|k: int| 0 <= k < n && s[k] == x;
                assert(s.contains(x));
            }
        }
        assert(seen =~= all);
    }
}

/// The ports already claimed by the containers `containers`.
pub fn reserved_web_ports(containers: &Vec<ListedContainer>) -> (r: BTreeSet<u16>)
    ensures
        r@ == reserved_ports_of(listed_views(containers@)),
{
    let ghost cs = listed_views(containers@);
    let mut ports: BTreeSet<u16> = BTreeSet::new();
    let mut i: usize = 0;
    while i < containers.len()
        invariant
            i <= containers.len(),
            cs == listed_views(containers@),
            ports@ == reserved_ports_of(cs.subrange(0, i as int)),
        decreases containers.len() - i,
    {
        let c = &containers[i];
        let ghost before = ports@;
        if let Some(port) = c.web_port {
            ports.insert(port);
        }
        let ghost with_web = ports@;
        let ghost mut seen: Set<u16> = Set::empty();
        for p in iter: c.host_ports.iter()
            invariant
                ports@ == with_web + seen,
                iter.seq().unref().to_set() == c.host_ports@,
                seen == prefix_set(iter.seq().unref(), iter.index() as int),
                iter.index() == iter.seq().len() ==> seen == c.host_ports@,
        {
            proof {
                lemma_prefix_set_step(iter.seq().unref(), seen, iter.index(), *p);
                seen = seen.insert(*p);
            }
            ports.insert(*p);
            proof {
                lemma_prefix_set_complete(
                    iter.seq().unref(),
                    seen,
                    iter.index() + 1,
                    c.host_ports@,
                );
            }
        }
        proof {
            assert forall|x: u16| ports@.contains(x) <==> reserved_ports_of(cs.subrange(0, i + 1)).contains(x) by {
                let pre = cs.subrange(0, i as int);
                let post = cs.subrange(0, i + 1);
                assert(post[i as int] == c@);
                if reserved_ports_of(pre).contains(x) {
                    let j = choose|j: int| 0 <= j < pre.len() && (pre[j].web_port == Some(x) || pre[j].host_ports.contains(x));
                    assert(post[j] == pre[j]);
                }
                if reserved_ports_of(post).contains(x) {
                    let j = choose|j: int| 0 <= j < post.len() && (post[j].web_port == Some(x) || post[j].host_ports.contains(x));
                    if j < i {
                        assert(pre[j] == post[j]);
                    }
                }
            }
            assert(ports@ =~= reserved_ports_of(cs.subrange(0, i + 1)));
        }
        i = i + 1;
    }
    assert(cs.subrange(0, cs.len() as int) =~= cs);
    ports
}

/// Picks the OpenCode web port for a new container: the first port from 35080 up that is
/// neither reserved nor refused by `is_available`, which is asked about ports in increasing
/// order.
pub fn pick_web_port<F: Fn(u16) -> bool>(reserved_ports: &BTreeSet<u16>, is_available: F) -> (r: AppResult<u16>)
    requires
        forall|p: u16| is_available.requires((p,)),
    ensures
        match r {
            Ok(port) => {
                &&& WEB_PORT_START <= port
                &&& !reserved_ports@.contains(port)
                &&& is_available.ensures((port,), true)
                &&& forall|q: u16|
                    WEB_PORT_START <= q < port && !reserved_ports@.contains(q)
                        ==> is_available.ensures((q,), false)
            },
            Err(e) => {
                &&& e@ == AppErrorView::Message(
                    "no free OpenCode web ports are available starting at 35080"@,
                )
                &&& forall|q: u16|
                    WEB_PORT_START <= q && !reserved_ports@.contains(q) ==> is_available.ensures(
                        (q,),
                        false,
                    )
            },
        },
{
    let mut candidate: u32 = 35080;
    while candidate <= 65535
        invariant
            35080 <= candidate <= 65536,
            forall|p: u16| is_available.requires((p,)),
            forall|q: u16|
                WEB_PORT_START <= q < candidate && !reserved_ports@.contains(q)
                    ==> is_available.ensures((q,), false),
        decreases 65536 - candidate,
    {
        let port = candidate as u16;
        if !reserved_ports.contains(&port) {
            if is_available(port) {
                return Ok(port);
            }
        }
        candidate = candidate + 1;
    }
    Err(AppError::Message("no free OpenCode web ports are available starting at 35080".to_owned()))
}


/// Where a container's OpenCode web is published, and its password.
#[derive(Debug, Clone, PartialEq, Eq)]
pub struct WebSettings {
    pub port: u16,
    pub password: String,
}

/// The `--mount` arguments for the bind mounts `mounts`, in order.
pub open spec fn mount_flags(mounts: Seq<(Seq<char>, Seq<char>)>) -> Seq<Seq<char>>
    decreases mounts.len(),
{
    if mounts.len() == 0 {
        seq![]
    } else {
        seq!["--mount"@, bind_mount_arg(mounts[0].0, mounts[0].1)] + mount_flags(mounts.drop_first())
    }
}

/// The arguments that publish OpenCode web on `port` with `password`.
pub open spec fn web_flags(port: u16, password: Seq<char>) -> Seq<Seq<char>> {
    seq![
        "--label"@,
        CONTAINER_WEB_PORT_LABEL@ + "="@ + decimal(port as nat),
        "--env"@,
        "RM4DEV_OPENCODE_WEB_PORT="@ + decimal(port as nat),
        "--env"@,
        "OPENCODE_SERVER_PASSWORD="@ + password,
        "--publish"@,
        "127.0.0.1:"@ + decimal(port as nat) + ":"@ + decimal(port as nat),
    ]
}

/// The `podman` arguments that create container `name`: interactive, privileged, limited to
/// `cpus` CPUs, with tmpfs on `/tmp` and `/run`, then the shared auth mount, the web settings,
/// the user's mounts, and last the image.
pub open spec fn run_args(
    name: Seq<char>,
    cpus: nat,
    auth_mount: Option<(Seq<char>, Seq<char>)>,
    mounts: Seq<(Seq<char>, Seq<char>)>,
    image: Seq<char>,
    web: Option<(u16, Seq<char>)>,
) -> Seq<Seq<char>> {
    seq![
        "run"@,
        "--interactive"@,
        "--tty"@,
        "--name"@,
        name,
        "--privileged"@,
        "--cpus"@,
        decimal(cpus),
        "--mount"@,
        "type=tmpfs,target=/tmp"@,
        "--mount"@,
        "type=tmpfs,target=/run"@,
    ] + match auth_mount {
        Some(a) => seq!["--mount"@, bind_mount_arg(a.0, a.1)],
        None => seq![],
    } + match web {
        Some(w) => web_flags(w.0, w.1),
        None => seq![],
    } + mount_flags(mounts) + seq![image]
}

fn push_str(v: &mut Vec<String>, s: &str)
    ensures
        final(v)@.len() == old(v)@.len() + 1,
        string_views(final(v)@) == string_views(old(v)@).push(s@),
{
    let ghost before = v@;
    v.push(s.to_owned());
    proof {
        assert(string_views(v@) =~= string_views(before).push(s@));
    }
}

fn push_string(v: &mut Vec<String>, s: String)
    ensures
        string_views(final(v)@) == string_views(old(v)@).push(s@),
{
    let ghost before = v@;
    let ghost sv = s@;
    v.push(s);
    proof {
        assert(string_views(v@) =~= string_views(before).push(sv));
    }
}

/// The arguments of `podman run` for a new container. `auth_mount` is the shared auth bind
/// mount, absent when shared auth is off; `cpus` is the CPU limit.
pub fn build_podman_run_args(
    name: &str,
    cpus: usize,
    auth_mount: Option<&MountSpec>,
    mounts: &Vec<MountSpec>,
    image: &str,
    web: Option<&WebSettings>,
) -> (r: Vec<String>)
    ensures
        string_views(r@) == run_args(
            name@,
            cpus as nat,
            match auth_mount {
                Some(m) => Some(m@),
                None => None,
            },
            crate::cli::mount_views(mounts@),
            image@,
            match web {
                Some(w) => Some((w.port, w.password@)),
                None => None,
            },
        ),
{
    let mut args: Vec<String> = Vec::new();
    push_str(&mut args, "run");
    push_str(&mut args, "--interactive");
    push_str(&mut args, "--tty");
    push_str(&mut args, "--name");
    push_str(&mut args, name);
    push_str(&mut args, "--privileged");
    push_str(&mut args, "--cpus");
    push_string(&mut args, decimal_string(cpus as u64));
    push_str(&mut args, "--mount");
    push_str(&mut args, "type=tmpfs,target=/tmp");
    push_str(&mut args, "--mount");
    push_str(&mut args, "type=tmpfs,target=/run");
    let ghost base = string_views(args@);
    if let Some(mount) = auth_mount {
        push_str(&mut args, "--mount");
        push_string(&mut args, mount.podman_mount_arg());
    }
    let ghost with_auth = string_views(args@);
    if let Some(web) = web {
        let port = decimal_string(web.port as u64);
        let mut label = CONTAINER_WEB_PORT_LABEL.to_owned();
        label.append("=");
        label.append(port.as_str());
        let mut port_env = "RM4DEV_OPENCODE_WEB_PORT=".to_owned();
        port_env.append(port.as_str());
        let mut password_env = "OPENCODE_SERVER_PASSWORD=".to_owned();
        password_env.append(web.password.as_str());
        let mut publish = "127.0.0.1:".to_owned();
        publish.append(port.as_str());
        publish.append(":");
        publish.append(port.as_str());
        push_str(&mut args, "--label");
        push_string(&mut args, label);
        push_str(&mut args, "--env");
        push_string(&mut args, port_env);
        push_str(&mut args, "--env");
        push_string(&mut args, password_env);
        push_str(&mut args, "--publish");
        push_string(&mut args, publish);
    }
    let ghost with_web = string_views(args@);
    let ghost ms = crate::cli::mount_views(mounts@);
    let mut i: usize = 0;
    assert(ms.subrange(0, 0) =~= Seq::<(Seq<char>, Seq<char>)>::empty());
    assert(with_web + mount_flags(ms.subrange(0, 0)) =~= with_web);
    while i < mounts.len()
        invariant
            i <= mounts.len(),
            ms == crate::cli::mount_views(mounts@),
            string_views(args@) == with_web + mount_flags(ms.subrange(0, i as int)),
        decreases mounts.len() - i,
    {
        push_str(&mut args, "--mount");
        push_string(&mut args, mounts[i].podman_mount_arg());
        proof {
            lemma_mount_flags_push(ms.subrange(0, i + 1));
            assert(ms.subrange(0, i + 1).drop_last() =~= ms.subrange(0, i as int));
            assert(ms.subrange(0, i + 1).last() == mounts@[i as int]@);
        }
        i = i + 1;
    }
    push_str(&mut args, image);
    proof {
        assert(ms.subrange(0, mounts.len() as int) =~= ms);
        let expected = run_args(
            name@,
            cpus as nat,
            match auth_mount {
                Some(m) => Some(m@),
                None => None,
            },
            ms,
            image@,
            match web {
                Some(w) => Some((w.port, w.password@)),
                None => None,
            },
        );
        assert(string_views(args@) =~= expected);
    }
    args
}

proof fn lemma_mount_flags_push(ms: Seq<(Seq<char>, Seq<char>)>)
    requires
        ms.len() > 0,
    ensures
        mount_flags(ms) == mount_flags(ms.drop_last()) + seq![
            "--mount"@,
            bind_mount_arg(ms.last().0, ms.last().1),
        ],
    decreases ms.len(),
{
    if ms.len() == 1 {
        assert(ms.drop_first() =~= Seq::<(Seq<char>, Seq<char>)>::empty());
        assert(ms.drop_last() =~= Seq::<(Seq<char>, Seq<char>)>::empty());
        assert(mount_flags(ms.drop_last()) =~= Seq::<Seq<char>>::empty());
        assert(mount_flags(ms) =~= seq!["--mount"@, bind_mount_arg(ms[0].0, ms[0].1)]);
    } else {
        lemma_mount_flags_push(ms.drop_first());
        assert(ms.drop_first().drop_last() =~= ms.drop_last().drop_first());
        assert(ms.drop_first().last() == ms.last());
        assert(ms.drop_last()[0] == ms[0]);
        assert(mount_flags(ms) =~= mount_flags(ms.drop_last()) + seq![
            "--mount"@,
            bind_mount_arg(ms.last().0, ms.last().1),
        ]);
    }
}

/// The CPU limit for a new container on a host with `total` hardware threads: a quarter of
/// them (rounded down) is kept for the host, and the container gets at least one.
pub open spec fn cpu_share(total: nat) -> nat {
    let kept = (total - total / 4) as nat;
    if kept < 1 {
        1
    } else {
        kept
    }
}

/// The CPU limit for a new container, given the host's available parallelism.
pub fn cpu_quota(total: usize) -> (r: usize)
    ensures
        r as nat == cpu_share(total as nat),
        r >= 1,
{
    let reserved = total / 4;
    let kept = total - reserved;
    if kept < 1 {
        1
    } else {
        kept
    }
}


/// The shell `agent enter` starts: the configured one, trimmed, unless that is empty or
/// unset, then `/bin/bash`.
pub open spec fn enter_shell_choice(shell: Option<Seq<char>>) -> Seq<char> {
    match shell {
        Some(s) => if trim(s).len() > 0 {
            trim(s)
        } else {
            "/bin/bash"@
        },
        None => "/bin/bash"@,
    }
}

/// The shell for `agent enter`, from the value of `RM4DEV_ENTER_SHELL` if it is set.
pub fn enter_shell_from_env(shell: Option<String>) -> (r: String)
    ensures
        r@ == enter_shell_choice(match shell {
            Some(s) => Some(s@),
            None => None,
        }),
{
    match shell {
        Some(value) => {
            let trimmed = crate::text::trim_str(value.as_str());
            if trimmed.as_str().unicode_len() > 0 {
                trimmed
            } else {
                "/bin/bash".to_owned()
            }
        },
        None => "/bin/bash".to_owned(),
    }
}

/// The `podman` arguments of `agent enter` for container `name` in state `state`, or the
/// error when it is not running.
pub open spec fn enter_args_result(name: Seq<char>, state: Seq<char>, shell: Seq<char>) -> Result<
    Seq<Seq<char>>,
    AppErrorView,
> {
    if state != "running"@ {
        Err(
            AppErrorView::Message(
                "container `"@ + name + "` is `"@ + state + "`; start it before using `enter`"@,
            ),
        )
    } else {
        Ok(seq!["exec"@, "--interactive"@, "--tty"@, name, shell, "-l"@])
    }
}

/// The arguments that open a login shell in a running container.
pub fn enter_args(name: &str, state: &str, shell: &str) -> (r: AppResult<Vec<String>>)
    ensures
        match (r, enter_args_result(name@, state@, shell@)) {
            (Ok(v), Ok(w)) => string_views(v@) == w,
            (Err(e), Err(f)) => e@ == f,
            _ => false,
        },
{
    if !chars_equal(&chars_of(state), "running") {
        let mut message = "container `".to_owned();
        message.append(name);
        message.append("` is `");
        message.append(state);
        message.append("`; start it before using `enter`");
        return Err(AppError::Message(message));
    }
    let mut args: Vec<String> = Vec::new();
    push_str(&mut args, "exec");
    push_str(&mut args, "--interactive");
    push_str(&mut args, "--tty");
    push_str(&mut args, name);
    push_str(&mut args, shell);
    push_str(&mut args, "-l");
    assert(string_views(args@) =~= seq!["exec"@, "--interactive"@, "--tty"@, name@, shell@, "-l"@]);
    Ok(args)
}

/// How `agent start` resumes container `name` in state `state`: attach to a running one,
/// start any other attached and interactive.
pub open spec fn resume_args_spec(name: Seq<char>, state: Seq<char>) -> Seq<Seq<char>> {
    if state == "running"@ {
        seq!["attach"@, name]
    } else {
        seq!["start"@, "--attach"@, "--interactive"@, name]
    }
}

/// The `podman` arguments that resume container `name` in state `state`.
pub fn resume_args(name: &str, state: &str) -> (r: Vec<String>)
    ensures
        string_views(r@) == resume_args_spec(name@, state@),
{
    let mut args: Vec<String> = Vec::new();
    if chars_equal(&chars_of(state), "running") {
        push_str(&mut args, "attach");
        push_str(&mut args, name);
        assert(string_views(args@) =~= seq!["attach"@, name@]);
    } else {
        push_str(&mut args, "start");
        push_str(&mut args, "--attach");
        push_str(&mut args, "--interactive");
        push_str(&mut args, name);
        assert(string_views(args@) =~= seq!["start"@, "--attach"@, "--interactive"@, name@]);
    }
    args
}

/// The address of OpenCode web published on `port`.
pub open spec fn web_url_spec(port: u16) -> Seq<char> {
    "http://127.0.0.1:"@ + decimal(port as nat)
}

/// What `agent attach` does.
#[derive(Debug, Clone, PartialEq, Eq)]
pub enum AttachAction {
    /// Attach the terminal to the container.
    Terminal,
    /// Wait for OpenCode web on `port`, then open `url` in a browser.
    Browser { port: u16, url: String },
}

/// Decides how `agent attach` proceeds: the terminal when web is declined or the container
/// has no web port, else the browser on that port. `web_port` is the container's web port,
/// looked up only when web is not declined.
pub fn attach_action(no_web: bool, web_port: Option<u16>) -> (r: AttachAction)
    ensures
        match r {
            AttachAction::Terminal => no_web || web_port is None,
            AttachAction::Browser { port, url } => !no_web && web_port == Some(port) && url@
                == web_url_spec(port),
        },
{
    if no_web {
        return AttachAction::Terminal;
    }
    match web_port {
        Some(port) => {
            let mut url = "http://127.0.0.1:".to_owned();
            let digits = decimal_string(port as u64);
            url.append(digits.as_str());
            AttachAction::Browser { port, url }
        },
        None => AttachAction::Terminal,
    }
}

/// How launching a browser program went.
#[derive(Debug, Clone, PartialEq, Eq)]
pub enum LaunchOutcome {
    /// It ran and reported success.
    Succeeded,
    /// It ran and reported failure.
    Failed,
    /// No such program is installed.
    NotFound,
    /// It could not be started for another reason, described here.
    Error(String),
}

/// The next step in opening a URL in a browser.
#[derive(Debug, PartialEq, Eq)]
pub enum BrowserAction {
    /// Run `program` with `args`, then report how it went.
    Launch { program: String, args: Vec<String> },
    /// Stop with this result.
    Done(AppResult<()>),
}

/// The browser launchers tried in turn, with their arguments for `url`.
pub open spec fn browser_candidate(url: Seq<char>, i: int) -> (Seq<char>, Seq<Seq<char>>) {
    if i == 0 {
        ("xdg-open"@, seq![url])
    } else if i == 1 {
        ("gio"@, seq!["open"@, url])
    } else if i == 2 {
        ("sensible-browser"@, seq![url])
    } else {
        ("open"@, seq![url])
    }
}

/// The name of the launcher tried at attempt `i`.
fn browser_program(i: usize) -> (r: String)
    requires
        i < 4,
    ensures
        r@ == (if i == 0 {
            "xdg-open"@
        } else if i == 1 {
            "gio"@
        } else if i == 2 {
            "sensible-browser"@
        } else {
            "open"@
        }),
{
    if i == 0 {
        "xdg-open".to_owned()
    } else if i == 1 {
        "gio".to_owned()
    } else if i == 2 {
        "sensible-browser".to_owned()
    } else {
        "open".to_owned()
    }
}

/// Decides the next step of opening `url` after `attempted` launchers were tried, `outcome`
/// being how the last of them went: success ends it, an unexpected launch error fails it, a
/// failure or a missing program moves on to the next launcher, and when all four were tried
/// it fails.
pub fn browser_step(url: &str, attempted: usize, outcome: Option<LaunchOutcome>) -> (r: BrowserAction)
    requires
        attempted <= 4,
        attempted == 0 <==> outcome is None,
    ensures
        match outcome {
            Some(LaunchOutcome::Succeeded) => r == BrowserAction::Done(Ok(())),
            Some(LaunchOutcome::Error(source)) => r matches BrowserAction::Done(Err(e)) && e@
                == AppErrorView::Io {
                context: "failed to execute `"@ + browser_candidate(url@, attempted - 1).0 + "`"@,
                source: source@,
            },
            _ => if attempted < 4 {
                r matches BrowserAction::Launch { program, args } && program@ == browser_candidate(
                    url@,
                    attempted as int,
                ).0 && string_views(args@) == browser_candidate(url@, attempted as int).1
            } else {
                r matches BrowserAction::Done(Err(e)) && e@ == AppErrorView::Message(
                    "could not open browser for `"@ + url@
                        + "`; tried xdg-open, gio open, sensible-browser, and open"@,
                )
            },
        },
{
    match outcome {
        Some(LaunchOutcome::Succeeded) => {
            return BrowserAction::Done(Ok(()));
        },
        Some(LaunchOutcome::Error(source)) => {
            let program = browser_program(attempted - 1);
            let mut context = "failed to execute `".to_owned();
            context.append(program.as_str());
            context.append("`");
            return BrowserAction::Done(Err(AppError::Io { context, source }));
        },
        _ => {},
    }
    if attempted < 4 {
        let program = browser_program(attempted);
        let mut args: Vec<String> = Vec::new();
        if attempted == 1 {
            push_str(&mut args, "open");
        }
        push_str(&mut args, url);
        assert(string_views(args@) =~= browser_candidate(url@, attempted as int).1);
        BrowserAction::Launch { program, args }
    } else {
        let mut message = "could not open browser for `".to_owned();
        message.append(url);
        message.append("`; tried xdg-open, gio open, sensible-browser, and open");
        BrowserAction::Done(Err(AppError::Message(message)))
    }
}

/// The next step while waiting for OpenCode web to listen.
#[derive(Debug, Clone, PartialEq, Eq)]
pub enum WaitAction {
    /// The port accepts connections.
    Ready,
    /// Pause, then try to connect again.
    Retry,
    /// Give up with this error.
    Fail(AppError),
}

/// Decides the next step of waiting for port `port` after one connection attempt:
/// `connected` tells whether it succeeded, `timed_out` whether the deadline of
/// `timeout_secs` seconds has passed.
pub fn wait_step(port: u16, timeout_secs: u64, connected: bool, timed_out: bool) -> (r: WaitAction)
    ensures
        connected ==> r == WaitAction::Ready,
        !connected && !timed_out ==> r == WaitAction::Retry,
        !connected && timed_out ==> (r matches WaitAction::Fail(e) && e@ == AppErrorView::Message(
            "OpenCode web did not start listening on port "@ + decimal(port as nat) + " within "@
                + decimal(timeout_secs as nat) + "s"@,
        )),
{
    if connected {
        return WaitAction::Ready;
    }
    if !timed_out {
        return WaitAction::Retry;
    }
    let mut message = "OpenCode web did not start listening on port ".to_owned();
    let p = decimal_string(port as u64);
    message.append(p.as_str());
    message.append(" within ");
    let t = decimal_string(timeout_secs);
    message.append(t.as_str());
    message.append("s");
    WaitAction::Fail(AppError::Message(message))
}

/// Where the shared OpenCode auth file lives inside the container.
pub const CONTAINER_AUTH_PATH: &'static str = "/root/.local/share/opencode/auth.json";

/// Where the shared OpenCode auth file lives under the home directory `home`.
pub open spec fn auth_cache_file(home: Seq<char>) -> Seq<char> {
    crate::paths::path_join(home, ".cache/rm4dev/opencode-auth.json"@)
}

/// The directory that holds the shared auth file under the home directory `home`.
pub open spec fn auth_cache_dir(home: Seq<char>) -> Seq<char> {
    crate::paths::path_join(home, ".cache/rm4dev"@)
}

/// The path of the shared auth file and of its directory, under the home directory `home`.
pub fn cached_auth_paths(home: &str) -> (r: (String, String))
    ensures
        r.0@ == auth_cache_file(home@),
        r.1@ == auth_cache_dir(home@),
{
    (
        crate::paths::join_path(home, ".cache/rm4dev/opencode-auth.json"),
        crate::paths::join_path(home, ".cache/rm4dev"),
    )
}

/// The bind mount that shares the resolved auth file `host` with a new container.
pub fn cached_auth_mount(host: String) -> (r: MountSpec)
    ensures
        r@ == (host@, CONTAINER_AUTH_PATH@),
{
    MountSpec { host, container: CONTAINER_AUTH_PATH.to_owned() }
}

/// The next step of creating container `name` as `args` asks: first a web port, unless web
/// is off; then the shared auth file, unless shared auth is off; then `podman run`.
#[derive(Debug, PartialEq, Eq)]
pub enum CreationStep {
    /// Allocate the OpenCode web port, then step again with it.
    AllocateWebPort,
    /// Resolve the shared auth file on the host, then step again with its path.
    ResolveAuthFile,
    /// Run `podman` with these arguments.
    Run(Vec<String>),
}

/// Decides the next step of creating container `name` as `args`, given the web port and the
/// auth file path found so far: the run arguments carry the web port with the password that
/// goes with the name unless web is off, and the auth mount unless shared auth is off.
pub fn creation_step(
    name: &str,
    cpus: usize,
    args: &CreateContainerArgs,
    image: &str,
    web_port: Option<u16>,
    auth_host: Option<String>,
) -> (r: CreationStep)
    ensures
        match r {
            CreationStep::AllocateWebPort => !args.no_web && web_port is None,
            CreationStep::ResolveAuthFile => {
                &&& args.no_web || web_port is Some
                &&& !args.no_shared_auth && auth_host is None
            },
            CreationStep::Run(v) => {
                &&& args.no_web || web_port is Some
                &&& args.no_shared_auth || auth_host is Some
                &&& string_views(v@) == run_args(
                    name@,
                    cpus as nat,
                    if args.no_shared_auth {
                        None
                    } else {
                        Some((auth_host.unwrap()@, CONTAINER_AUTH_PATH@))
                    },
                    crate::cli::mount_views(args.mounts@),
                    image@,
                    if args.no_web {
                        None
                    } else {
                        Some((web_port.unwrap(), web_password_of(name@)))
                    },
                )
            },
        },
{
    let web = if args.no_web {
        None
    } else {
        match web_port {
            None => {
                return CreationStep::AllocateWebPort;
            },
            Some(port) => Some(WebSettings { port, password: container_web_password(name) }),
        }
    };
    let auth = if args.no_shared_auth {
        None
    } else {
        match auth_host {
            None => {
                return CreationStep::ResolveAuthFile;
            },
            Some(host) => Some(cached_auth_mount(host)),
        }
    };
    let v = build_podman_run_args(name, cpus, auth.as_ref(), &args.mounts, image, web.as_ref());
    CreationStep::Run(v)
}

} // verus!
