use crate::error::{result_view, AppError, AppErrorView, AppResult};
use crate::text::{chars_of, contains_char, has_prefix, rsplit_once_at, rsplit_once_chars, string_of};
use vstd::prelude::*;
use vstd::string::*;

verus! {

/// A bind mount: a host path (already resolved) and an absolute path inside the container.
#[derive(Debug, Clone, PartialEq, Eq)]
pub struct MountSpec {
    pub host: String,
    pub container: String,
}

impl View for MountSpec {
    type V = (Seq<char>, Seq<char>);

    open spec fn view(&self) -> (Seq<char>, Seq<char>) {
        (self.host@, self.container@)
    }
}

/// The `--mount` value that Podman takes for a bind mount.
pub open spec fn bind_mount_arg(host: Seq<char>, container: Seq<char>) -> Seq<char> {
    "type=bind,src="@ + host + ",target="@ + container
}

impl MountSpec {
    /// The `--mount` argument for this bind mount.
    pub fn podman_mount_arg(&self) -> (r: String)
        ensures
            r@ == bind_mount_arg(self.host@, self.container@),
    {
        let mut r = "type=bind,src=".to_owned();
        r.append(self.host.as_str());
        r.append(",target=");
        r.append(self.container.as_str());
        r
    }
}

/// Whether `candidate` reads as `host_path:container_path` rather than as a name.
pub fn looks_like_mount_spec(candidate: &str) -> (r: bool)
    ensures
        r == contains_char(candidate@, ':'),
{
    let chars = chars_of(candidate);
    let split = rsplit_once_chars(&chars, ':');
    proof {
        crate::text::lemma_last_index(chars@, crate::text::char_eq(':'));
        if contains_char(candidate@, ':') {
            let i = choose|i: int| 0 <= i < chars@.len() && chars@[i] == ':';
            assert(crate::text::char_eq(':')(chars@[i]));
        }
    }
    split.is_some()
}

/// The host part of a mount argument: everything before its last `:`.
pub open spec fn mount_host_part_spec(input: Seq<char>) -> Option<Seq<char>> {
    match rsplit_once_at(input, ':') {
        Some((host, _)) => Some(host),
        None => None,
    }
}

/// The host part of a mount argument, which the caller resolves before parsing it.
pub fn mount_host_part(input: &str) -> (r: Option<String>)
    ensures
        match r {
            Some(h) => mount_host_part_spec(input@) == Some(h@),
            None => mount_host_part_spec(input@) is None,
        },
{
    match rsplit_once_chars(&chars_of(input), ':') {
        Some((host, _)) => Some(string_of(&host)),
        None => None,
    }
}

/// What parsing the mount argument `input` gives, where `resolved` is the outcome of
/// resolving its host part on disk: the canonical path, or the system's error text.
pub open spec fn mount_result(input: Seq<char>, resolved: Result<Seq<char>, Seq<char>>) -> Result<
    (Seq<char>, Seq<char>),
    AppErrorView,
> {
    match rsplit_once_at(input, ':') {
        None => Err(
            AppErrorView::Usage(
                "invalid mount `"@ + input + "`; expected host_path:container_path"@,
            ),
        ),
        Some((host, container)) => {
            if host.len() == 0 || container.len() == 0 {
                Err(
                    AppErrorView::Usage(
                        "invalid mount `"@ + input
                            + "`; both host and container paths are required"@,
                    ),
                )
            } else if container[0] != '/' {
                Err(
                    AppErrorView::Usage(
                        "invalid mount `"@ + input + "`; container path must be absolute"@,
                    ),
                )
            } else {
                match resolved {
                    Ok(canonical) => Ok((canonical, container)),
                    Err(source) => Err(
                        AppErrorView::Io {
                            context: "failed to resolve mount source `"@ + host + "`"@,
                            source,
                        },
                    ),
                }
            }
        },
    }
}

/// The view of a host-path resolution outcome.
pub open spec fn resolution_view(r: Result<String, String>) -> Result<Seq<char>, Seq<char>> {
    match r {
        Ok(p) => Ok(p@),
        Err(e) => Err(e@),
    }
}

/// Parses `host_path:container_path`; `resolved` is the outcome of resolving the host part.
pub fn parse_mount_spec(input: &str, resolved: &Result<String, String>) -> (r: AppResult<MountSpec>)
    ensures
        result_view(r) == mount_result(input@, resolution_view(*resolved)),
{
    let Some((host, container)) = rsplit_once_chars(&chars_of(input), ':') else {
        let mut message = "invalid mount `".to_owned();
        message.append(input);
        message.append("`; expected host_path:container_path");
        return Err(AppError::Usage(message));
    };
    if host.len() == 0 || container.len() == 0 {
        let mut message = "invalid mount `".to_owned();
        message.append(input);
        message.append("`; both host and container paths are required");
        return Err(AppError::Usage(message));
    }
    if container[0] != '/' {
        let mut message = "invalid mount `".to_owned();
        message.append(input);
        message.append("`; container path must be absolute");
        return Err(AppError::Usage(message));
    }
    match resolved {
        Ok(canonical) => Ok(MountSpec { host: canonical.clone(), container: string_of(&container) }),
        Err(source) => {
            let mut context = "failed to resolve mount source `".to_owned();
            let host_text = string_of(&host);
            context.append(host_text.as_str());
            context.append("`");
            Err(AppError::Io { context, source: source.clone() })
        },
    }
}

} // verus!
