use crate::error::{result_view, AppError, AppErrorView, AppResult};
use crate::paths::{join_path, path_join};
use crate::text::string_views;
use vstd::prelude::*;
use vstd::string::*;

verus! {

/// The image that new containers run unless `RM4DEV_IMAGE` names another.
pub const DEFAULT_IMAGE: &'static str = "localhost/rm4dev-agent:nix-fedora";

/// The image new containers run, and whether it is built from the embedded context when it
/// is missing.
#[derive(Debug, Clone, PartialEq, Eq)]
pub struct RuntimeImage {
    pub image: String,
    pub auto_ensure: bool,
}

/// The runtime image given the value of `RM4DEV_IMAGE`: an explicit image is used as it is and
/// managed by the user; without one, the default image is used and built when missing.
pub fn runtime_image_from_env(image: Option<String>) -> (r: RuntimeImage)
    ensures
        match image {
            Some(i) => r.image@ == i@ && !r.auto_ensure,
            None => r.image@ == DEFAULT_IMAGE@ && r.auto_ensure,
        },
{
    match image {
        Some(image) => RuntimeImage { image, auto_ensure: false },
        None => RuntimeImage { image: DEFAULT_IMAGE.to_owned(), auto_ensure: true },
    }
}

/// The image an `image` command works on: the one named, else the default image.
pub fn resolve_image_ref(image: Option<&str>) -> (r: String)
    ensures
        r@ == match image {
            Some(i) => i@,
            None => DEFAULT_IMAGE@,
        },
{
    match image {
        Some(i) => i.to_owned(),
        None => DEFAULT_IMAGE.to_owned(),
    }
}

/// What `podman image exists` answers, given its exit code and error output: 0 means present,
/// 1 means absent, anything else is a failure of the command.
pub open spec fn image_exists_result(image: Seq<char>, status: Option<i32>, stderr: Seq<char>) -> Result<
    bool,
    AppErrorView,
> {
    if status == Some(0i32) {
        Ok(true)
    } else if status == Some(1i32) {
        Ok(false)
    } else {
        Err(
            AppErrorView::CommandFailed {
                program: "podman"@,
                args: seq!["image"@, "exists"@, image],
                status,
                stderr,
            },
        )
    }
}

/// Reads the answer of `podman image exists image`.
pub fn image_exists_outcome(image: &str, status: Option<i32>, stderr: String) -> (r: AppResult<bool>)
    ensures
        match (r, image_exists_result(image@, status, stderr@)) {
            (Ok(a), Ok(b)) => a == b,
            (Err(e), Err(f)) => e@ == f,
            _ => false,
        },
{
    match status {
        Some(0) => Ok(true),
        Some(1) => Ok(false),
        _ => {
            let args = image_exists_args(image);
            Err(AppError::CommandFailed { program: "podman".to_owned(), args, status, stderr })
        },
    }
}

/// The `podman` arguments that ask whether `image` exists locally.
pub fn image_exists_args(image: &str) -> (r: Vec<String>)
    ensures
        string_views(r@) == seq!["image"@, "exists"@, image@],
{
    let mut args: Vec<String> = Vec::new();
    args.push("image".to_owned());
    args.push("exists".to_owned());
    args.push(image.to_owned());
    assert(string_views(args@) =~= seq!["image"@, "exists"@, image@]);
    args
}

/// The `podman` arguments that build `image` from the build context in `context_dir`.
pub fn image_build_args(image: &str, context_dir: &str) -> (r: Vec<String>)
    ensures
        string_views(r@) == seq!["build"@, "--tag"@, image@, context_dir@],
{
    let mut args: Vec<String> = Vec::new();
    args.push("build".to_owned());
    args.push("--tag".to_owned());
    args.push(image.to_owned());
    args.push(context_dir.to_owned());
    assert(string_views(args@) =~= seq!["build"@, "--tag"@, image@, context_dir@]);
    args
}

/// Where embedded build contexts are unpacked: under `XDG_CACHE_HOME` when it is set, else
/// under `~/.cache`, else under the temporary directory.
pub open spec fn image_cache_dir_spec(
    xdg_cache_home: Option<Seq<char>>,
    home: Option<Seq<char>>,
    temp_dir: Seq<char>,
) -> Seq<char> {
    match xdg_cache_home {
        Some(x) => path_join(x, "rm4dev/images/nix-fedora"@),
        None => match home {
            Some(h) => path_join(h, ".cache/rm4dev/images/nix-fedora"@),
            None => path_join(temp_dir, "rm4dev/images/nix-fedora"@),
        },
    }
}

/// The directory that caches unpacked build contexts, given the values of `XDG_CACHE_HOME`
/// and `HOME` (when set) and the system's temporary directory.
pub fn image_cache_dir(xdg_cache_home: Option<&str>, home: Option<&str>, temp_dir: &str) -> (r: String)
    ensures
        r@ == image_cache_dir_spec(
            match xdg_cache_home {
                Some(x) => Some(x@),
                None => None,
            },
            match home {
                Some(h) => Some(h@),
                None => None,
            },
            temp_dir@,
        ),
{
    match xdg_cache_home {
        Some(x) => join_path(x, "rm4dev/images/nix-fedora"),
        None => match home {
            Some(h) => join_path(h, ".cache/rm4dev/images/nix-fedora"),
            None => join_path(temp_dir, "rm4dev/images/nix-fedora"),
        },
    }
}

} // verus!
