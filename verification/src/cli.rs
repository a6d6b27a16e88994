use crate::error::{result_view, AppError, AppErrorView, AppResult};
use crate::mounts::{mount_result, parse_mount_spec, resolution_view, MountSpec};
use crate::naming::{normalize_container_name, normalize_result};
use crate::text::{contains_char, string_views, trim, trim_str};
use crate::mounts::looks_like_mount_spec;
use vstd::prelude::*;
use vstd::string::*;

verus! {

/// The container an agent command is aimed at, if one was named.
#[derive(Debug, Clone, PartialEq, Eq)]
pub struct ContainerTarget {
    pub name: Option<String>,
    pub no_web: bool,
}

/// What `agent new` and `agent start` were asked to create.
#[derive(Debug, Clone, PartialEq, Eq)]
pub struct CreateContainerArgs {
    pub name: Option<String>,
    pub no_shared_auth: bool,
    pub no_web: bool,
    pub mounts: Vec<MountSpec>,
}

/// The image an `image` command works on; `None` means the default image.
#[derive(Debug, Clone, PartialEq, Eq)]
pub struct ImageCommandArgs {
    pub image: Option<String>,
}

/// A fully interpreted command line.
#[derive(Debug, Clone, PartialEq, Eq)]
pub enum CliCommand {
    AgentPrecheck,
    AgentList,
    AgentNew(CreateContainerArgs),
    AgentStart(CreateContainerArgs),
    AgentStop(ContainerTarget),
    AgentRemove(ContainerTarget),
    AgentAttach(ContainerTarget),
    AgentEnter(ContainerTarget),
    ImageBuild(ImageCommandArgs),
    ImageEnsure(ImageCommandArgs),
}

/// A command line as the argument parser delivers it, before names, mounts and image
/// references are checked.
#[derive(Debug, Clone, PartialEq, Eq)]
pub enum CliInvocation {
    AgentPrecheck,
    AgentList,
    AgentNew { args: Vec<String>, no_shared_auth: bool, no_web: bool },
    AgentStart { args: Vec<String>, no_shared_auth: bool, no_web: bool },
    AgentStop { name: Option<String>, no_web: bool },
    AgentRm { name: Option<String>, no_web: bool },
    AgentAttach { name: Option<String>, no_web: bool },
    AgentEnter { name: Option<String>, no_web: bool },
    ImageBuild { image: Option<String> },
    ImageEnsure { image: Option<String> },
}

pub open spec fn opt_view(o: Option<String>) -> Option<Seq<char>> {
    match o {
        Some(s) => Some(s@),
        None => None,
    }
}

/// The mathematical content of [`ContainerTarget`].
pub struct TargetView {
    pub name: Option<Seq<char>>,
    pub no_web: bool,
}

impl View for ContainerTarget {
    type V = TargetView;

    open spec fn view(&self) -> TargetView {
        TargetView { name: opt_view(self.name), no_web: self.no_web }
    }
}

/// The mathematical content of [`CreateContainerArgs`].
pub struct CreateArgsView {
    pub name: Option<Seq<char>>,
    pub no_shared_auth: bool,
    pub no_web: bool,
    pub mounts: Seq<(Seq<char>, Seq<char>)>,
}

pub open spec fn mount_views(m: Seq<MountSpec>) -> Seq<(Seq<char>, Seq<char>)> {
    m.map_values(|x: MountSpec| x@)
}

impl View for CreateContainerArgs {
    type V = CreateArgsView;

    open spec fn view(&self) -> CreateArgsView {
        CreateArgsView {
            name: opt_view(self.name),
            no_shared_auth: self.no_shared_auth,
            no_web: self.no_web,
            mounts: mount_views(self.mounts@),
        }
    }
}

impl View for ImageCommandArgs {
    type V = Option<Seq<char>>;

    open spec fn view(&self) -> Option<Seq<char>> {
        opt_view(self.image)
    }
}

/// The mathematical content of [`CliCommand`].
pub enum CliCommandView {
    AgentPrecheck,
    AgentList,
    AgentNew(CreateArgsView),
    AgentStart(CreateArgsView),
    AgentStop(TargetView),
    AgentRemove(TargetView),
    AgentAttach(TargetView),
    AgentEnter(TargetView),
    ImageBuild(Option<Seq<char>>),
    ImageEnsure(Option<Seq<char>>),
}

impl View for CliCommand {
    type V = CliCommandView;

    open spec fn view(&self) -> CliCommandView {
        match self {
            CliCommand::AgentPrecheck => CliCommandView::AgentPrecheck,
            CliCommand::AgentList => CliCommandView::AgentList,
            CliCommand::AgentNew(a) => CliCommandView::AgentNew(a@),
            CliCommand::AgentStart(a) => CliCommandView::AgentStart(a@),
            CliCommand::AgentStop(t) => CliCommandView::AgentStop(t@),
            CliCommand::AgentRemove(t) => CliCommandView::AgentRemove(t@),
            CliCommand::AgentAttach(t) => CliCommandView::AgentAttach(t@),
            CliCommand::AgentEnter(t) => CliCommandView::AgentEnter(t@),
            CliCommand::ImageBuild(i) => CliCommandView::ImageBuild(i@),
            CliCommand::ImageEnsure(i) => CliCommandView::ImageEnsure(i@),
        }
    }
}

/// What checking an optional image reference gives: `None` stays the default image, a
/// reference is trimmed and must not be empty.
pub open spec fn image_args_result(image: Option<Seq<char>>) -> Result<Option<Seq<char>>, AppErrorView> {
    match image {
        None => Ok(None),
        Some(i) => if trim(i).len() == 0 {
            Err(AppErrorView::Usage("image reference must not be empty"@))
        } else {
            Ok(Some(trim(i)))
        },
    }
}

/// Checks the image reference of `image build` and `image ensure`.
pub fn parse_image_args(image: Option<String>) -> (r: AppResult<ImageCommandArgs>)
    ensures
        result_view(r) == image_args_result(opt_view(image)),
{
    match image {
        None => Ok(ImageCommandArgs { image: None }),
        Some(image) => {
            let trimmed = trim_str(image.as_str());
            if trimmed.as_str().unicode_len() == 0 {
                Err(AppError::Usage("image reference must not be empty".to_owned()))
            } else {
                Ok(ImageCommandArgs { image: Some(trimmed) })
            }
        },
    }
}

/// What checking the target of `stop`, `rm`, `attach` or `enter` gives.
pub open spec fn target_result(name: Option<Seq<char>>, no_web: bool) -> Result<TargetView, AppErrorView> {
    match name {
        None => Ok(TargetView { name: None, no_web }),
        Some(n) => match normalize_result(n) {
            Ok(full) => Ok(TargetView { name: Some(full), no_web }),
            Err(e) => Err(e),
        },
    }
}

/// Normalizes the optional container name of a target command.
pub fn parse_target_args(name: Option<String>, no_web: bool) -> (r: AppResult<ContainerTarget>)
    ensures
        result_view(r) == target_result(opt_view(name), no_web),
{
    match name {
        None => Ok(ContainerTarget { name: None, no_web }),
        Some(n) => {
            let full = normalize_container_name(n.as_str())?;
            Ok(ContainerTarget { name: Some(full), no_web })
        },
    }
}

/// What parsing the mount arguments `args` gives, `resolved[i]` being the outcome of
/// resolving the host part of `args[i]`: the mounts, or the first error in order.
pub open spec fn mounts_result(
    args: Seq<Seq<char>>,
    resolved: Seq<Result<Seq<char>, Seq<char>>>,
) -> Result<Seq<(Seq<char>, Seq<char>)>, AppErrorView>
    decreases args.len(),
{
    if args.len() == 0 {
        Ok(seq![])
    } else {
        match mount_result(args[0], resolved[0]) {
            Err(e) => Err(e),
            Ok(m) => match mounts_result(args.drop_first(), resolved.drop_first()) {
                Err(e) => Err(e),
                Ok(rest) => Ok(seq![m] + rest),
            },
        }
    }
}

pub open spec fn resolution_views(r: Seq<Result<String, String>>) -> Seq<Result<Seq<char>, Seq<char>>> {
    r.map_values(|x: Result<String, String>| resolution_view(x))
}

/// What the positional arguments of `agent new` and `agent start` give: a first argument
/// without `:` is the container name, every other argument is a mount.
pub open spec fn create_args_result(
    args: Seq<Seq<char>>,
    no_shared_auth: bool,
    no_web: bool,
    resolved: Seq<Result<Seq<char>, Seq<char>>>,
) -> Result<CreateArgsView, AppErrorView> {
    if args.len() == 0 {
        Ok(CreateArgsView { name: None, no_shared_auth, no_web, mounts: seq![] })
    } else if contains_char(args[0], ':') {
        match mounts_result(args, resolved) {
            Ok(mounts) => Ok(CreateArgsView { name: None, no_shared_auth, no_web, mounts }),
            Err(e) => Err(e),
        }
    } else {
        match normalize_result(args[0]) {
            Err(e) => Err(e),
            Ok(name) => match mounts_result(args.drop_first(), resolved.drop_first()) {
                Ok(mounts) => Ok(CreateArgsView { name: Some(name), no_shared_auth, no_web, mounts }),
                Err(e) => Err(e),
            },
        }
    }
}

proof fn lemma_mounts_result_step(
    args: Seq<Seq<char>>,
    resolved: Seq<Result<Seq<char>, Seq<char>>>,
    i: int,
)
    requires
        0 <= i < args.len(),
        args.len() == resolved.len(),
    ensures
        mounts_result(args.subrange(i, args.len() as int), resolved.subrange(i, resolved.len() as int))
            == (match mount_result(args[i], resolved[i]) {
            Err(e) => Err(e),
            Ok(m) => match mounts_result(
                args.subrange(i + 1, args.len() as int),
                resolved.subrange(i + 1, resolved.len() as int),
            ) {
                Err(e) => Err(e),
                Ok(rest) => Ok(seq![m] + rest),
            },
        }),
{
    let a = args.subrange(i, args.len() as int);
    let r = resolved.subrange(i, resolved.len() as int);
    assert(a.drop_first() =~= args.subrange(i + 1, args.len() as int));
    assert(r.drop_first() =~= resolved.subrange(i + 1, resolved.len() as int));
    assert(a[0] == args[i]);
    assert(r[0] == resolved[i]);
}

/// Parses the mount arguments `args[from..]` in order, stopping at the first error.
fn parse_mounts_from(
    args: &Vec<String>,
    resolved: &Vec<Result<String, String>>,
    from: usize,
) -> (r: AppResult<Vec<MountSpec>>)
    requires
        args.len() == resolved.len(),
        from <= args.len(),
    ensures
        match (r, mounts_result(
            string_views(args@).subrange(from as int, args.len() as int),
            resolution_views(resolved@).subrange(from as int, args.len() as int),
        )) {
            (Ok(v), Ok(m)) => mount_views(v@) == m,
            (Err(e), Err(f)) => e@ == f,
            _ => false,
        },
{
    let ghost a = string_views(args@);
    let ghost rv = resolution_views(resolved@);
    let mut out: Vec<MountSpec> = Vec::new();
    let mut i = from;
    proof {
        assert(mount_views(out@) =~= Seq::<(Seq<char>, Seq<char>)>::empty());
    }
    while i < args.len()
        invariant
            args.len() == resolved.len(),
            from <= i <= args.len(),
            a == string_views(args@),
            rv == resolution_views(resolved@),
            mounts_result(a.subrange(from as int, a.len() as int), rv.subrange(from as int, rv.len() as int))
                == (match mounts_result(a.subrange(i as int, a.len() as int), rv.subrange(i as int, rv.len() as int)) {
                Err(e) => Err(e),
                Ok(rest) => Ok(mount_views(out@) + rest),
            }),
        decreases args.len() - i,
    {
        proof {
            lemma_mounts_result_step(a, rv, i as int);
        }
        let m = parse_mount_spec(args[i].as_str(), &resolved[i]);
        match m {
            Err(e) => {
                return Err(e);
            },
            Ok(spec) => {
                proof {
                    assert(mount_views(out@.push(spec)) =~= mount_views(out@).push(spec@));
                    let tail = mounts_result(
                        a.subrange(i + 1, a.len() as int),
                        rv.subrange(i + 1, rv.len() as int),
                    );
                    if let Ok(rest) = tail {
                        assert(mount_views(out@) + (seq![spec@] + rest) =~= mount_views(
                            out@.push(spec),
                        ) + rest);
                    }
                }
                out.push(spec);
            },
        }
        i = i + 1;
    }
    proof {
        let e = a.subrange(i as int, a.len() as int);
        assert(e.len() == 0);
        assert(mount_views(out@) + Seq::<(Seq<char>, Seq<char>)>::empty() =~= mount_views(out@));
    }
    Ok(out)
}

/// Interprets the positional arguments of `agent new` and `agent start`; `resolved[i]` is the
/// outcome of resolving the host part of `args[i]` on disk.
pub fn parse_create_args(
    args: &Vec<String>,
    no_shared_auth: bool,
    no_web: bool,
    resolved: &Vec<Result<String, String>>,
) -> (r: AppResult<CreateContainerArgs>)
    requires
        resolved.len() == args.len(),
    ensures
        result_view(r) == create_args_result(
            string_views(args@),
            no_shared_auth,
            no_web,
            resolution_views(resolved@),
        ),
{
    let ghost a = string_views(args@);
    let ghost rv = resolution_views(resolved@);
    if args.len() == 0 {
        let r = CreateContainerArgs { name: None, no_shared_auth, no_web, mounts: Vec::new() };
        assert(r@.mounts =~= Seq::<(Seq<char>, Seq<char>)>::empty());
        return Ok(r);
    }
    assert(a.subrange(0, a.len() as int) =~= a);
    assert(rv.subrange(0, rv.len() as int) =~= rv);
    assert(a.drop_first() =~= a.subrange(1, a.len() as int));
    assert(rv.drop_first() =~= rv.subrange(1, rv.len() as int));
    if looks_like_mount_spec(args[0].as_str()) {
        let mounts = parse_mounts_from(args, resolved, 0)?;
        Ok(CreateContainerArgs { name: None, no_shared_auth, no_web, mounts })
    } else {
        let name = normalize_container_name(args[0].as_str())?;
        let mounts = parse_mounts_from(args, resolved, 1)?;
        Ok(CreateContainerArgs { name: Some(name), no_shared_auth, no_web, mounts })
    }
}


/// What interpreting `inv` gives, `resolved` holding the resolution outcome of the host part
/// of each positional argument of `agent new` or `agent start`.
pub open spec fn command_result(
    inv: CliInvocation,
    resolved: Seq<Result<Seq<char>, Seq<char>>>,
) -> Result<CliCommandView, AppErrorView> {
    match inv {
        CliInvocation::AgentPrecheck => Ok(CliCommandView::AgentPrecheck),
        CliInvocation::AgentList => Ok(CliCommandView::AgentList),
        CliInvocation::AgentNew { args, no_shared_auth, no_web } => match create_args_result(
            string_views(args@),
            no_shared_auth,
            no_web,
            resolved,
        ) {
            Ok(a) => Ok(CliCommandView::AgentNew(a)),
            Err(e) => Err(e),
        },
        CliInvocation::AgentStart { args, no_shared_auth, no_web } => match create_args_result(
            string_views(args@),
            no_shared_auth,
            no_web,
            resolved,
        ) {
            Ok(a) => Ok(CliCommandView::AgentStart(a)),
            Err(e) => Err(e),
        },
        CliInvocation::AgentStop { name, no_web } => match target_result(opt_view(name), no_web) {
            Ok(t) => Ok(CliCommandView::AgentStop(t)),
            Err(e) => Err(e),
        },
        CliInvocation::AgentRm { name, no_web } => match target_result(opt_view(name), no_web) {
            Ok(t) => Ok(CliCommandView::AgentRemove(t)),
            Err(e) => Err(e),
        },
        CliInvocation::AgentAttach { name, no_web } => match target_result(opt_view(name), no_web) {
            Ok(t) => Ok(CliCommandView::AgentAttach(t)),
            Err(e) => Err(e),
        },
        CliInvocation::AgentEnter { name, no_web } => match target_result(opt_view(name), no_web) {
            Ok(t) => Ok(CliCommandView::AgentEnter(t)),
            Err(e) => Err(e),
        },
        CliInvocation::ImageBuild { image } => match image_args_result(opt_view(image)) {
            Ok(i) => Ok(CliCommandView::ImageBuild(i)),
            Err(e) => Err(e),
        },
        CliInvocation::ImageEnsure { image } => match image_args_result(opt_view(image)) {
            Ok(i) => Ok(CliCommandView::ImageEnsure(i)),
            Err(e) => Err(e),
        },
    }
}

/// Whether `resolved` has one resolution outcome per positional argument of `inv`.
pub open spec fn resolutions_fit(inv: CliInvocation, resolved: Seq<Result<String, String>>) -> bool {
    match inv {
        CliInvocation::AgentNew { args, .. } => resolved.len() == args.len(),
        CliInvocation::AgentStart { args, .. } => resolved.len() == args.len(),
        _ => true,
    }
}

/// Interprets a parsed command line: normalizes container names, checks mounts and image
/// references.
pub fn interpret_invocation(inv: CliInvocation, resolved: &Vec<Result<String, String>>) -> (r: AppResult<CliCommand>)
    requires
        resolutions_fit(inv, resolved@),
    ensures
        result_view(r) == command_result(inv, resolution_views(resolved@)),
{
    match inv {
        CliInvocation::AgentPrecheck => Ok(CliCommand::AgentPrecheck),
        CliInvocation::AgentList => Ok(CliCommand::AgentList),
        CliInvocation::AgentNew { args, no_shared_auth, no_web } => {
            Ok(CliCommand::AgentNew(parse_create_args(&args, no_shared_auth, no_web, resolved)?))
        },
        CliInvocation::AgentStart { args, no_shared_auth, no_web } => {
            Ok(CliCommand::AgentStart(parse_create_args(&args, no_shared_auth, no_web, resolved)?))
        },
        CliInvocation::AgentStop { name, no_web } => {
            Ok(CliCommand::AgentStop(parse_target_args(name, no_web)?))
        },
        CliInvocation::AgentRm { name, no_web } => {
            Ok(CliCommand::AgentRemove(parse_target_args(name, no_web)?))
        },
        CliInvocation::AgentAttach { name, no_web } => {
            Ok(CliCommand::AgentAttach(parse_target_args(name, no_web)?))
        },
        CliInvocation::AgentEnter { name, no_web } => {
            Ok(CliCommand::AgentEnter(parse_target_args(name, no_web)?))
        },
        CliInvocation::ImageBuild { image } => Ok(CliCommand::ImageBuild(parse_image_args(image)?)),
        CliInvocation::ImageEnsure { image } => Ok(CliCommand::ImageEnsure(parse_image_args(image)?)),
    }
}

/// How a command-line parse error is to be reported.
#[derive(Debug, Clone, Copy, PartialEq, Eq)]
pub enum ClapErrorKind {
    /// The user asked for help; the rendered text is the help.
    DisplayHelp,
    /// The user asked for the version.
    DisplayVersion,
    /// Any other kind: the command line was not acceptable.
    Other,
}

/// The process exit code for a parse error of the given kind: 0 when the user asked for help
/// or the version, 2 otherwise.
pub open spec fn cli_exit_code(kind: ClapErrorKind) -> i32 {
    match kind {
        ClapErrorKind::DisplayHelp | ClapErrorKind::DisplayVersion => 0,
        ClapErrorKind::Other => 2,
    }
}

/// The error that reports a parse failure of the given kind with the parser's message.
pub fn cli_error(message: String, kind: ClapErrorKind) -> (r: AppError)
    ensures
        r@ == (AppErrorView::Cli { message: message@, exit_code: cli_exit_code(kind) }),
{
    let exit_code = match kind {
        ClapErrorKind::DisplayHelp | ClapErrorKind::DisplayVersion => 0,
        ClapErrorKind::Other => 2,
    };
    AppError::Cli { message, exit_code }
}

} // verus!
