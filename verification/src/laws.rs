use crate::agent::{
    container_table, image_column_width, mount_flags, name_column_width, password_column_width,
    port_column_width, run_args, table_header, table_row, widest, byte_len,
    host_ports_of, host_ports_of_column, listed_of_row, web_flags, RowView,
    names_contain, reserved_ports_of, start_plan_result, web_password_of, web_port_key,
    web_port_of_labels, cpu_share, existing_target_result, has_create_only_options,
    ListedView, StartPlanView, CONTAINER_WEB_PORT_LABEL,
};
use crate::cli::{create_args_result, mounts_result, CreateArgsView};
use crate::error::AppErrorView;
use crate::mounts::mount_result;
use crate::naming::{
    container_prefix, is_name_char, normalize_result, prefixed_name, timestamp_name,
    valid_container_name, CONTAINER_PREFIX,
};
use crate::text::{
    all_digits, contains_char, decimal, decimal_value, digit_char, digit_value, first_index,
    has_prefix, is_ascii_alnum, lemma_split_join, is_digit, is_separator, is_whitespace, lemma_first_index_at,
    parse_u16_spec, split_by, trim, trim_end, trim_start, unsigned_digits, Separator,
};
use vstd::prelude::*;
use vstd::string::*;

verus! {

proof fn lemma_trim_keeps_solid_ends(s: Seq<char>)
    requires
        s.len() > 0,
        !is_whitespace(s[0]),
        !is_whitespace(s.last()),
    ensures
        trim(s) == s,
{
    assert(trim_start(s) == s);
    assert(trim_end(s) == s);
}

proof fn lemma_trim_nonempty(s: Seq<char>)
    requires
        s.len() > 0,
        !is_whitespace(s[0]),
    ensures
        trim(s).len() > 0,
    decreases s.len(),
{
    assert(trim_start(s) == s);
    lemma_trim_end_nonempty(s);
}

proof fn lemma_trim_end_nonempty(s: Seq<char>)
    requires
        s.len() > 0,
        !is_whitespace(s[0]),
    ensures
        trim_end(s).len() > 0,
    decreases s.len(),
{
    if s.len() > 1 && is_whitespace(s.last()) {
        assert(s.drop_last()[0] == s[0]);
        lemma_trim_end_nonempty(s.drop_last());
    }
}

proof fn lemma_prefix_facts()
    ensures
        container_prefix().len() == 13,
        is_ascii_alnum(container_prefix()[0]),
        forall|i: int| 1 <= i < container_prefix().len() ==> is_name_char(#[trigger] container_prefix()[i]),
{
    reveal_strlit("rm4dev-agent-");
    assert(container_prefix() == CONTAINER_PREFIX@);
}

/// Normalizing a container name a second time changes nothing: a name that normalization
/// gives is kept as it is.
pub proof fn law_normalize_idempotent(input: Seq<char>)
    requires
        normalize_result(input) is Ok,
    ensures
        normalize_result(normalize_result(input)->Ok_0) == normalize_result(input),
{
    let n = prefixed_name(input);
    lemma_prefix_facts();
    if !has_prefix(input, container_prefix()) {
        assert(n.subrange(0, container_prefix().len() as int) =~= container_prefix());
    }
    assert(has_prefix(n, container_prefix()));
    assert(prefixed_name(n) == n);
    assert(valid_container_name(n));
    assert(!is_whitespace(n[0]));
    lemma_trim_nonempty(n);
}

/// Every name that normalization gives carries the container prefix and is a valid container
/// name.
pub proof fn law_normalized_names_are_agent_names(input: Seq<char>)
    requires
        normalize_result(input) is Ok,
    ensures
        has_prefix(normalize_result(input)->Ok_0, container_prefix()),
        valid_container_name(normalize_result(input)->Ok_0),
{
    lemma_prefix_facts();
    let n = prefixed_name(input);
    if !has_prefix(input, container_prefix()) {
        assert(n.subrange(0, container_prefix().len() as int) =~= container_prefix());
    }
}

/// A valid name that already carries the prefix is kept as it is.
pub proof fn law_prefixed_names_preserved(name: Seq<char>)
    requires
        has_prefix(name, container_prefix()),
        valid_container_name(name),
    ensures
        normalize_result(name) == Ok::<Seq<char>, AppErrorView>(name),
{
    assert(!is_whitespace(name[0]));
    lemma_trim_nonempty(name);
}

/// The web password of a container named `prefix + word` is `word`.
pub proof fn law_password_is_name_suffix(word: Seq<char>)
    ensures
        web_password_of(container_prefix() + word) == word,
{
    let n = container_prefix() + word;
    assert(n.subrange(0, container_prefix().len() as int) =~= container_prefix());
    assert(n.subrange(container_prefix().len() as int, n.len() as int) =~= word);
}

proof fn lemma_digit_char(d: nat)
    requires
        d < 10,
    ensures
        is_digit(digit_char(d)),
        digit_value(digit_char(d)) == d,
{
}

proof fn lemma_decimal_facts(n: nat)
    ensures
        decimal(n).len() > 0,
        all_digits(decimal(n)),
        decimal_value(decimal(n)) == n,
    decreases n,
{
    let s = decimal(n);
    if n < 10 {
        lemma_digit_char(n);
        assert(s.drop_last() =~= Seq::<char>::empty());
        assert(decimal_value(s.drop_last()) == 0);
        assert(s.last() == digit_char(n));
    } else {
        lemma_decimal_facts(n / 10);
        lemma_digit_char(n % 10);
        assert(s.drop_last() =~= decimal(n / 10));
        assert(s.last() == digit_char(n % 10));
        assert(n == (n / 10) * 10 + n % 10);
        assert forall|i: int| 0 <= i < s.len() implies is_digit(#[trigger] s[i]) by {
            if i < s.len() - 1 {
                assert(s[i] == decimal(n / 10)[i]);
            }
        }
    }
}

/// The decimal text of a port number parses back to the port.
pub proof fn law_port_text_round_trip(port: u16)
    ensures
        parse_u16_spec(decimal(port as nat)) == Some(port),
{
    lemma_decimal_facts(port as nat);
    let s = decimal(port as nat);
    assert(is_digit(s[0]));
    assert(unsigned_digits(s) == s);
}

/// Generated container names carry the prefix, are valid container names, and are kept as
/// they are by normalization.
pub proof fn law_generated_names_are_valid(seconds: nat)
    ensures
        has_prefix(timestamp_name(seconds), container_prefix()),
        valid_container_name(timestamp_name(seconds)),
        normalize_result(timestamp_name(seconds)) == Ok::<Seq<char>, AppErrorView>(
            timestamp_name(seconds),
        ),
{
    lemma_prefix_facts();
    lemma_decimal_facts(seconds);
    let n = timestamp_name(seconds);
    assert(n.subrange(0, container_prefix().len() as int) =~= container_prefix());
    assert forall|i: int| 1 <= i < n.len() implies is_name_char(#[trigger] n[i]) by {
        if i >= container_prefix().len() {
            assert(n[i] == decimal(seconds)[i - container_prefix().len()]);
            assert(is_digit(decimal(seconds)[i - container_prefix().len()]));
        }
    }
    law_prefixed_names_preserved(n);
}

/// The web port label that a new container is given reads back as its web port.
pub proof fn law_web_port_label_round_trip(name: Seq<char>, port: u16)
    ensures
        web_port_of_labels(name, web_port_key() + decimal(port as nat)) == Ok::<
            Option<u16>,
            AppErrorView,
        >(Some(port)),
{
    reveal_strlit("org.rm4dev.opencode.web-port");
    reveal_strlit("=");
    reveal_strlit("<none>");
    lemma_decimal_facts(port as nat);
    let key = web_port_key();
    let d = decimal(port as nat);
    let l = key + d;
    assert(key == CONTAINER_WEB_PORT_LABEL@ + "="@);
    assert(key.len() == 29);
    assert(is_digit(d[d.len() - 1]));
    assert(l.last() == d[d.len() - 1]);
    assert(l[0] == 'o');
    lemma_trim_keeps_solid_ends(l);
    assert(l.len() != "<none>"@.len() || l[0] != "<none>"@[0]);
    assert(l != "<none>"@);
    let p = |c: char| is_separator(Separator::CommaOrWhitespace, c);
    assert forall|j: int| 0 <= j < l.len() implies !p(#[trigger] l[j]) by {
        if j >= key.len() {
            assert(l[j] == d[j - key.len()]);
            assert(is_digit(d[j - key.len()]));
        }
    }
    lemma_first_index_at(l, p, l.len() as int);
    assert(split_by(l, Separator::CommaOrWhitespace) == seq![l]);
    let pieces = seq![l];
    assert(pieces[0] == l);
    assert(l.subrange(0, key.len() as int) =~= key);
    assert(l.subrange(key.len() as int, l.len() as int) =~= d);
    law_port_text_round_trip(port);
}

/// What `agent list` shows of a container created with OpenCode web: the port and the
/// password that creation put into the container's label and environment.
pub proof fn law_listing_shows_created_web_settings(
    name: Seq<char>,
    port: u16,
    image: Seq<char>,
    status: Seq<char>,
    ports: Seq<char>,
)
    ensures
        ({
            let flags = web_flags(port, web_password_of(name));
            let row = RowView { name, image, status, labels: flags[1], ports };
            &&& listed_of_row(row) == Ok::<ListedView, AppErrorView>(
                ListedView {
                    name,
                    image,
                    status,
                    web_port: Some(port),
                    web_password: Some(web_password_of(name)),
                    host_ports: host_ports_of_column(ports),
                },
            )
            &&& flags[5] == "OPENCODE_SERVER_PASSWORD="@ + web_password_of(name)
        }),
{
    let flags = web_flags(port, web_password_of(name));
    assert(flags[1] =~= web_port_key() + decimal(port as nat));
    law_web_port_label_round_trip(name, port);
}

proof fn lemma_host_ports_concat(x: Seq<Seq<char>>, y: Seq<Seq<char>>)
    ensures
        host_ports_of(x + y) == host_ports_of(x).union(host_ports_of(y)),
    decreases x.len(),
{
    if x.len() == 0 {
        assert(x + y =~= y);
        assert(host_ports_of(x).union(host_ports_of(y)) =~= host_ports_of(y));
    } else {
        assert((x + y).drop_first() =~= x.drop_first() + y);
        assert((x + y)[0] == x[0]);
        lemma_host_ports_concat(x.drop_first(), y);
        assert(host_ports_of(x + y) =~= host_ports_of(x).union(host_ports_of(y)));
    }
}

/// The host ports of two port columns joined by a comma are the host ports of the one and of
/// the other.
pub proof fn law_port_columns_join(a: Seq<char>, b: Seq<char>)
    ensures
        host_ports_of_column(a + ","@ + b) == host_ports_of_column(a).union(host_ports_of_column(b)),
{
    reveal_strlit(",");
    assert(a + ","@ + b =~= a + seq![','] + b);
    lemma_split_join(a, b, ',');
    lemma_host_ports_concat(
        crate::text::split_by(a, Separator::Char(',')),
        crate::text::split_by(b, Separator::Char(',')),
    );
}

/// What `agent start` decides: a container it resumes exists; a container it creates gets
/// exactly the requested options; without a name, create-only options or an empty host mean
/// a new container, and one existing container is resumed.
pub proof fn law_start_plan(existing: Seq<Seq<char>>, args: CreateArgsView)
    ensures
        start_plan_result(existing, args) matches Ok(StartPlanView::Resume(name)) ==> names_contain(
            existing,
            name,
        ),
        start_plan_result(existing, args) matches Ok(StartPlanView::Create(a)) ==> a == args,
        args.name is None && (has_create_only_options(args) || existing.len() == 0)
            ==> start_plan_result(existing, args) == Ok::<StartPlanView, AppErrorView>(
            StartPlanView::Create(args),
        ),
        args.name is None && !has_create_only_options(args) && existing.len() == 1
            ==> start_plan_result(existing, args) == Ok::<StartPlanView, AppErrorView>(
            StartPlanView::Resume(existing[0]),
        ),
        args.name matches Some(n) && !names_contain(existing, n) ==> start_plan_result(
            existing,
            args,
        ) == Ok::<StartPlanView, AppErrorView>(StartPlanView::Create(args)),
        args.name matches Some(n) && names_contain(existing, n) && has_create_only_options(args)
            ==> start_plan_result(existing, args) is Err,
        args.name matches Some(n) ==> ((exists|i: int| 0 <= i < existing.len() && existing[i] == n)
            && !args.no_shared_auth && !args.no_web && args.mounts.len() == 0
            ==> start_plan_result(existing, args) == Ok::<StartPlanView, AppErrorView>(
            StartPlanView::Resume(n),
        )),
        args.name matches Some(n) && (exists|i: int| 0 <= i < existing.len() && existing[i] == n)
            && (args.no_shared_auth || args.no_web || args.mounts.len() > 0)
            ==> start_plan_result(existing, args) is Err,
        args.name matches Some(n) && (forall|i: int| 0 <= i < existing.len() ==> existing[i] != n)
            ==> start_plan_result(existing, args) == Ok::<StartPlanView, AppErrorView>(
            StartPlanView::Create(args),
        ),
{
    if args.name is None && existing.len() == 1 {
        assert(names_contain(existing, existing[0]));
    }
}

/// A command aimed at an existing container only ever gets one that exists.
pub proof fn law_target_exists(existing: Seq<Seq<char>>, name: Option<Seq<char>>)
    ensures
        existing_target_result(existing, name) matches Ok(n) ==> names_contain(existing, n),
        name matches Some(n) ==> ((exists|i: int| 0 <= i < existing.len() && existing[i] == n)
            ==> existing_target_result(existing, name) == Ok::<Seq<char>, AppErrorView>(n)),
        name matches Some(n) && (forall|i: int| 0 <= i < existing.len() ==> existing[i] != n)
            ==> existing_target_result(existing, name) is Err,
        name is None && existing.len() == 1 ==> existing_target_result(existing, name)
            == Ok::<Seq<char>, AppErrorView>(existing[0]),
        name is None && existing.len() != 1 ==> existing_target_result(existing, name) is Err,
{
    if name is None && existing.len() == 1 {
        assert(names_contain(existing, existing[0]));
    }
}

/// A port that is not reserved is neither the web port nor a published host port of any
/// existing container.
pub proof fn law_free_port_is_unclaimed(cs: Seq<ListedView>, port: u16)
    requires
        !reserved_ports_of(cs).contains(port),
    ensures
        forall|i: int|
            0 <= i < cs.len() ==> #[trigger] cs[i].web_port != Some(port)
                && !cs[i].host_ports.contains(port),
{
}

/// The CPU limit is at least one and at most the host's threads, and only a quarter of them
/// (rounded down) is kept back.
pub proof fn law_cpu_share(total: nat)
    requires
        total >= 1,
    ensures
        1 <= cpu_share(total) <= total,
        cpu_share(total) == total - total / 4,
{
}

/// When the first positional argument of `agent new` or `agent start` contains `:`, it is a
/// mount and no name is given.
pub proof fn law_first_colon_argument_is_mount(
    args: Seq<Seq<char>>,
    no_shared_auth: bool,
    no_web: bool,
    resolved: Seq<Result<Seq<char>, Seq<char>>>,
)
    requires
        args.len() > 0,
        contains_char(args[0], ':'),
    ensures
        create_args_result(args, no_shared_auth, no_web, resolved) matches Ok(a) ==> a.name is None,
{
}


proof fn lemma_mount_flags_len(ms: Seq<(Seq<char>, Seq<char>)>)
    ensures
        mount_flags(ms).len() == 2 * ms.len(),
    decreases ms.len(),
{
    if ms.len() > 0 {
        lemma_mount_flags_len(ms.drop_first());
    }
}

proof fn lemma_mount_flags_at(ms: Seq<(Seq<char>, Seq<char>)>, i: int)
    requires
        0 <= i < ms.len(),
    ensures
        mount_flags(ms)[2 * i] == "--mount"@,
        mount_flags(ms)[2 * i + 1] == "type=bind,src="@ + ms[i].0 + ",target="@ + ms[i].1,
    decreases i,
{
    let rest = ms.drop_first();
    lemma_mount_flags_len(rest);
    let head = seq!["--mount"@, "type=bind,src="@ + ms[0].0 + ",target="@ + ms[0].1];
    assert(mount_flags(ms) == head + mount_flags(rest));
    if i == 0 {
        assert(mount_flags(ms)[0] == head[0]);
        assert(mount_flags(ms)[1] == head[1]);
    } else {
        lemma_mount_flags_at(rest, i - 1);
        assert(ms[i] == rest[i - 1]);
        assert(mount_flags(ms)[2 * i] == mount_flags(rest)[2 * (i - 1)]);
        assert(mount_flags(ms)[2 * i + 1] == mount_flags(rest)[2 * (i - 1) + 1]);
    }
}

/// The `podman run` arguments of a new container: the container's name and CPU limit in
/// their places, the shared auth mount when there is one, the web label, environment and
/// publication when web is on, then every requested bind mount in order, each as `--mount`
/// and its bind argument, and last the image.
pub proof fn law_run_args_carry_every_mount(
    name: Seq<char>,
    cpus: nat,
    auth_mount: Option<(Seq<char>, Seq<char>)>,
    mounts: Seq<(Seq<char>, Seq<char>)>,
    image: Seq<char>,
    web: Option<(u16, Seq<char>)>,
)
    ensures
        ({
            let r = run_args(name, cpus, auth_mount, mounts, image, web);
            let base = 12 + (if auth_mount is Some { 2int } else { 0int }) + (if web is Some {
                8int
            } else {
                0int
            });
            &&& r.len() == base + 2 * mounts.len() + 1
            &&& r[0] == "run"@ && r[3] == "--name"@ && r[4] == name && r[6] == "--cpus"@ && r[7]
                == decimal(cpus)
            &&& auth_mount matches Some(a) ==> r[12] == "--mount"@ && r[13] == "type=bind,src="@
                + a.0 + ",target="@ + a.1
            &&& web matches Some(w) ==> {
                &&& r[base - 8] == "--label"@
                &&& r[base - 7] == CONTAINER_WEB_PORT_LABEL@ + "="@ + decimal(w.0 as nat)
                &&& r[base - 3] == "OPENCODE_SERVER_PASSWORD="@ + w.1
                &&& r[base - 1] == "127.0.0.1:"@ + decimal(w.0 as nat) + ":"@ + decimal(
                    w.0 as nat,
                )
            }
            &&& forall|i: int| 0 <= i < mounts.len() ==> #[trigger] r[base + 2 * i] == "--mount"@
            &&& forall|i: int|
                0 <= i < mounts.len() ==> r[base + 2 * i + 1] == "type=bind,src="@ + (
                #[trigger] mounts[i]).0 + ",target="@ + mounts[i].1
            &&& r[r.len() - 1] == image
        }),
{
    let r = run_args(name, cpus, auth_mount, mounts, image, web);
    let p0 = seq![
        "run"@,
        "--interactive"@,
        "--tty"@,
        "--name"@,
        name,
        "--privileged"@,
        "--cpus"@,
        decimal(cpus),
        "--mount"@,
        "type=tmpfs,target=/tmp"@,
        "--mount"@,
        "type=tmpfs,target=/run"@,
    ];
    let pa: Seq<Seq<char>> = match auth_mount {
        Some(a) => seq!["--mount"@, "type=bind,src="@ + a.0 + ",target="@ + a.1],
        None => seq![],
    };
    let pw: Seq<Seq<char>> = match web {
        Some(w) => web_flags(w.0, w.1),
        None => seq![],
    };
    let pm = mount_flags(mounts);
    lemma_mount_flags_len(mounts);
    let pre = p0 + pa + pw;
    assert(r == pre + pm + seq![image]);
    let base = 12 + (if auth_mount is Some { 2int } else { 0int }) + (if web is Some {
        8int
    } else {
        0int
    });
    assert(pre.len() == base);
    assert(r[0] == p0[0] && r[3] == p0[3] && r[4] == p0[4] && r[6] == p0[6] && r[7] == p0[7]);
    if let Some(a) = auth_mount {
        assert(r[12] == pa[0] && r[13] == pa[1]);
    }
    if let Some(w) = web {
        assert(r[base - 8] == pw[0]);
        assert(r[base - 7] == pw[1]);
        assert(r[base - 3] == pw[5]);
        assert(r[base - 1] == pw[7]);
    }
    assert forall|i: int| 0 <= i < mounts.len() implies #[trigger] r[base + 2 * i] == "--mount"@ by {
        lemma_mount_flags_at(mounts, i);
        assert(r[base + 2 * i] == pm[2 * i]);
    }
    assert forall|i: int| 0 <= i < mounts.len() implies r[base + 2 * i + 1] == "type=bind,src="@
        + (#[trigger] mounts[i]).0 + ",target="@ + mounts[i].1 by {
        lemma_mount_flags_at(mounts, i);
        assert(r[base + 2 * i + 1] == pm[2 * i + 1]);
    }
    assert(r[r.len() - 1] == image);
}


proof fn lemma_mounts_result_ok(
    args: Seq<Seq<char>>,
    resolved: Seq<Result<Seq<char>, Seq<char>>>,
    i: int,
)
    requires
        mounts_result(args, resolved) is Ok,
        0 <= i < args.len(),
        resolved.len() == args.len(),
    ensures
        mounts_result(args, resolved)->Ok_0.len() == args.len(),
        mount_result(args[i], resolved[i]) == Ok::<(Seq<char>, Seq<char>), AppErrorView>(
            mounts_result(args, resolved)->Ok_0[i],
        ),
    decreases args.len(),
{
    lemma_mounts_result_len(args, resolved);
    let m = mount_result(args[0], resolved[0])->Ok_0;
    let rest = mounts_result(args.drop_first(), resolved.drop_first())->Ok_0;
    assert(mounts_result(args, resolved)->Ok_0 == seq![m] + rest);
    if i > 0 {
        lemma_mounts_result_ok(args.drop_first(), resolved.drop_first(), i - 1);
        assert(args.drop_first()[i - 1] == args[i]);
        assert(resolved.drop_first()[i - 1] == resolved[i]);
        assert((seq![m] + rest)[i] == rest[i - 1]);
    } else {
        assert((seq![m] + rest)[0] == m);
    }
}

proof fn lemma_mounts_result_len(args: Seq<Seq<char>>, resolved: Seq<Result<Seq<char>, Seq<char>>>)
    ensures
        mounts_result(args, resolved) matches Ok(m) ==> m.len() == args.len(),
    decreases args.len(),
{
    if args.len() > 0 {
        lemma_mounts_result_len(args.drop_first(), resolved.drop_first());
    }
}

/// A successful parse of the `agent new` / `agent start` arguments carries the flags it was
/// given unchanged; it has a name exactly when the first argument has no `:`, and then one
/// mount per further argument, else one mount per argument, each the mount its argument
/// gives.
pub proof fn law_create_args_keep_flags_and_mounts(
    args: Seq<Seq<char>>,
    no_shared_auth: bool,
    no_web: bool,
    resolved: Seq<Result<Seq<char>, Seq<char>>>,
)
    requires
        resolved.len() == args.len(),
    ensures
        create_args_result(args, no_shared_auth, no_web, resolved) matches Ok(a) ==> {
            let first_is_name = args.len() > 0 && !contains_char(args[0], ':');
            let skip: int = if first_is_name { 1 } else { 0 };
            &&& a.no_shared_auth == no_shared_auth
            &&& a.no_web == no_web
            &&& (a.name is Some <==> first_is_name)
            &&& first_is_name ==> a.name == Some(normalize_result(args[0])->Ok_0)
            &&& a.mounts.len() == args.len() - skip
            &&& forall|i: int|
                0 <= i < a.mounts.len() ==> mount_result(args[i + skip], resolved[i + skip])
                    == Ok::<(Seq<char>, Seq<char>), AppErrorView>(#[trigger] a.mounts[i])
        },
{
    if let Ok(a) = create_args_result(args, no_shared_auth, no_web, resolved) {
        if args.len() > 0 {
            let first_is_name = !contains_char(args[0], ':');
            if first_is_name {
                let xs = args.drop_first();
                let rs = resolved.drop_first();
                lemma_mounts_result_len(xs, rs);
                assert forall|i: int| 0 <= i < a.mounts.len() implies mount_result(
                    args[i + 1],
                    resolved[i + 1],
                ) == Ok::<(Seq<char>, Seq<char>), AppErrorView>(#[trigger] a.mounts[i]) by {
                    lemma_mounts_result_ok(xs, rs, i);
                    assert(xs[i] == args[i + 1]);
                    assert(rs[i] == resolved[i + 1]);
                }
            } else {
                lemma_mounts_result_len(args, resolved);
                assert forall|i: int| 0 <= i < a.mounts.len() implies mount_result(
                    args[i],
                    resolved[i],
                ) == Ok::<(Seq<char>, Seq<char>), AppErrorView>(#[trigger] a.mounts[i]) by {
                    lemma_mounts_result_ok(args, resolved, i);
                }
            }
        }
    }
}


proof fn lemma_widest(values: Seq<nat>, floor: nat)
    ensures
        widest(values, floor) >= floor,
        forall|i: int| 0 <= i < values.len() ==> widest(values, floor) >= #[trigger] values[i],
        widest(values, floor) == floor || exists|i: int|
            0 <= i < values.len() && widest(values, floor) == #[trigger] values[i],
    decreases values.len(),
{
    if values.len() > 0 {
        let rest = values.drop_first();
        lemma_widest(rest, floor);
        assert forall|i: int| 0 <= i < values.len() implies widest(values, floor)
            >= #[trigger] values[i] by {
            if i > 0 {
                assert(values[i] == rest[i - 1]);
            }
        }
        if widest(values, floor) != floor && widest(values, floor) != values[0] {
            let j = choose|j: int| 0 <= j < rest.len() && widest(rest, floor) == #[trigger] rest[j];
            assert(values[j + 1] == rest[j]);
        }
    }
}

/// The `agent list` table: a header, then one row per container in order, with every column
/// as wide as the widest entry of any container in it (and at least its floor), so the cells of
/// every row start where the header's do.
pub proof fn law_table_columns_fit(cs: Seq<ListedView>)
    requires
        cs.len() > 0,
    ensures
        ({
            let t = container_table(cs);
            let nw = name_column_width(cs);
            let iw = image_column_width(cs);
            let pw = port_column_width(cs);
            let ww = password_column_width(cs);
            &&& t.len() == cs.len() + 1
            &&& t[0] == table_header(nw, iw, pw, ww)
            &&& forall|k: int| 0 <= k < cs.len() ==> t[k + 1] == table_row(#[trigger] cs[k], nw, iw, pw, ww)
            &&& nw >= 4 && iw >= 5 && pw >= 4 && ww >= 8
            &&& forall|j: int|
                0 <= j < cs.len() ==> {
                    &&& nw >= byte_len((#[trigger] cs[j]).name)
                    &&& iw >= byte_len(cs[j].image)
                    &&& pw >= match cs[j].web_port {
                        Some(p) => decimal(p as nat).len(),
                        None => 4,
                    }
                    &&& ww >= match cs[j].web_password {
                        Some(p) => byte_len(p),
                        None => 8,
                    }
                }
            &&& nw == 4 || exists|j: int| 0 <= j < cs.len() && nw == byte_len((#[trigger] cs[j]).name)
            &&& iw == 5 || exists|j: int| 0 <= j < cs.len() && iw == byte_len((#[trigger] cs[j]).image)
            &&& pw == 4 || exists|j: int|
                0 <= j < cs.len() && ((#[trigger] cs[j]).web_port matches Some(p) && pw == decimal(
                    p as nat,
                ).len())
            &&& ww == 8 || exists|j: int|
                0 <= j < cs.len() && ((#[trigger] cs[j]).web_password matches Some(p) && ww
                    == byte_len(p))
        }),
{
    let names = cs.map_values(|c: ListedView| byte_len(c.name));
    let images = cs.map_values(|c: ListedView| byte_len(c.image));
    let ports = cs.map_values(
        |c: ListedView|
            match c.web_port {
                Some(p) => decimal(p as nat).len(),
                None => 4,
            },
    );
    let passwords = cs.map_values(
        |c: ListedView|
            match c.web_password {
                Some(p) => byte_len(p),
                None => 8,
            },
    );
    lemma_widest(names, 4);
    lemma_widest(images, 5);
    lemma_widest(ports, 4);
    lemma_widest(passwords, 8);
    let nw = name_column_width(cs);
    let iw = image_column_width(cs);
    let pw = port_column_width(cs);
    let ww = password_column_width(cs);
    assert forall|j: int| 0 <= j < cs.len() implies {
        &&& nw >= byte_len((#[trigger] cs[j]).name)
        &&& iw >= byte_len(cs[j].image)
        &&& pw >= match cs[j].web_port {
            Some(p) => decimal(p as nat).len(),
            None => 4,
        }
        &&& ww >= match cs[j].web_password {
            Some(p) => byte_len(p),
            None => 8,
        }
    } by {
        assert(names[j] == byte_len(cs[j].name));
        assert(images[j] == byte_len(cs[j].image));
        assert(ports[j] == (match cs[j].web_port {
            Some(p) => decimal(p as nat).len(),
            None => 4,
        }));
        assert(passwords[j] == (match cs[j].web_password {
            Some(p) => byte_len(p),
            None => 8,
        }));
    }
    if nw != 4 {
        let j = choose|j: int| 0 <= j < names.len() && nw == #[trigger] names[j];
        assert(names[j] == byte_len(cs[j].name));
    }
    if iw != 5 {
        let j = choose|j: int| 0 <= j < images.len() && iw == #[trigger] images[j];
        assert(images[j] == byte_len(cs[j].image));
    }
    if pw != 4 {
        let j = choose|j: int| 0 <= j < ports.len() && pw == #[trigger] ports[j];
        assert(ports[j] == (match cs[j].web_port {
            Some(p) => decimal(p as nat).len(),
            None => 4,
        }));
    }
    if ww != 8 {
        let j = choose|j: int| 0 <= j < passwords.len() && ww == #[trigger] passwords[j];
        assert(passwords[j] == (match cs[j].web_password {
            Some(p) => byte_len(p),
            None => 8,
        }));
    }
    let t = container_table(cs);
    assert forall|k: int| 0 <= k < cs.len() implies t[k + 1] == table_row(#[trigger] cs[k], nw, iw, pw, ww) by {
    }
}

} // verus!
