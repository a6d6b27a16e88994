use crate::error::{result_view, AppError, AppErrorView, AppResult};
use crate::text::{
    all_whitespace, ascii_alnum, chars_of, decimal, decimal_string, has_prefix, is_ascii_alnum,
    is_whitespace, starts_with_chars, trim, trim_str,
};
use std::time::{Duration, SystemTime, SystemTimeError};
use vstd::prelude::*;
use vstd::string::*;

verus! {

/// The prefix that marks a container as one of ours.
pub const CONTAINER_PREFIX: &'static str = "rm4dev-agent-";

/// The characters of [`CONTAINER_PREFIX`].
pub open spec fn container_prefix() -> Seq<char> {
    CONTAINER_PREFIX@
}

/// Whether `name` is acceptable to Podman as we use it: an ASCII letter or digit, then ASCII
/// letters, digits, `.`, `_` and `-`.
pub open spec fn valid_container_name(name: Seq<char>) -> bool {
    &&& name.len() > 0
    &&& is_ascii_alnum(name[0])
    &&& forall|i: int| 1 <= i < name.len() ==> is_name_char(#[trigger] name[i])
}

/// A character allowed after the first one of a container name.
pub open spec fn is_name_char(c: char) -> bool {
    is_ascii_alnum(c) || c == '.' || c == '_' || c == '-'
}

/// `input` with the container prefix put in front, unless it already starts with it.
pub open spec fn prefixed_name(input: Seq<char>) -> Seq<char> {
    if has_prefix(input, container_prefix()) {
        input
    } else {
        container_prefix() + input
    }
}

/// What normalizing `input` gives: the container name, or the usage error that explains
/// why `input` names no container.
pub open spec fn normalize_result(input: Seq<char>) -> Result<Seq<char>, AppErrorView> {
    if trim(input).len() == 0 {
        Err(AppErrorView::Usage("container name cannot be empty"@))
    } else if !valid_container_name(prefixed_name(input)) {
        Err(
            AppErrorView::Usage(
                "invalid container name `"@ + input + "`; use letters, numbers, `.`, `_`, or `-`"@,
            ),
        )
    } else {
        Ok(prefixed_name(input))
    }
}

/// Turns a user-supplied name into a container name: `alpha` becomes `rm4dev-agent-alpha`,
/// a name that already carries the prefix is kept.
pub fn normalize_container_name(input: &str) -> (r: AppResult<String>)
    ensures
        result_view(r) == normalize_result(input@),
{
    let trimmed = trim_str(input);
    if trimmed.as_str().unicode_len() == 0 {
        return Err(AppError::Usage("container name cannot be empty".to_owned()));
    }
    let chars = chars_of(input);
    let prefix = chars_of(CONTAINER_PREFIX);
    let normalized = if starts_with_chars(&chars, &prefix) {
        input.to_owned()
    } else {
        let mut n = CONTAINER_PREFIX.to_owned();
        n.append(input);
        n
    };
    if is_valid_container_name(normalized.as_str()) {
        Ok(normalized)
    } else {
        let mut message = "invalid container name `".to_owned();
        message.append(input);
        message.append("`; use letters, numbers, `.`, `_`, or `-`");
        Err(AppError::Usage(message))
    }
}

/// Whether `name` is a valid container name.
pub fn is_valid_container_name(name: &str) -> (r: bool)
    ensures
        r == valid_container_name(name@),
{
    let chars = chars_of(name);
    if chars.len() == 0 || !ascii_alnum(chars[0]) {
        return false;
    }
    let mut i: usize = 1;
    while i < chars.len()
        invariant
            1 <= i <= chars.len(),
            chars@ == name@,
            forall|j: int| 1 <= j < i ==> is_name_char(#[trigger] chars@[j]),
        decreases chars.len() - i,
    {
        let c = chars[i];
        if !(ascii_alnum(c) || c == '.' || c == '_' || c == '-') {
            assert(!is_name_char(chars@[i as int]));
            return false;
        }
        i = i + 1;
    }
    true
}

/// Whether `name` carries the container prefix.
pub fn is_agent_container_name(name: &str) -> (r: bool)
    ensures
        r == has_prefix(name@, container_prefix()),
{
    starts_with_chars(&chars_of(name), &chars_of(CONTAINER_PREFIX))
}

/// The name of a container created `seconds` after the Unix epoch.
pub open spec fn timestamp_name(seconds: nat) -> Seq<char> {
    container_prefix() + decimal(seconds)
}

/// The container name for a creation time, in seconds since the Unix epoch.
pub fn container_name_at(seconds: u64) -> (r: String)
    ensures
        r@ == timestamp_name(seconds as nat),
{
    let mut name = CONTAINER_PREFIX.to_owned();
    let digits = decimal_string(seconds);
    name.append(digits.as_str());
    name
}

/// std's `SystemTime`, a clock reading; opaque here.
#[verifier::external_type_specification]
#[verifier::external_body]
pub struct ExSystemTime(SystemTime);

/// std's `SystemTimeError`, returned when a clock reading precedes another; opaque here.
#[verifier::external_type_specification]
#[verifier::external_body]
pub struct ExSystemTimeError(SystemTimeError);

/// `SystemTime::now` reads the clock; nothing is stated of what it returns.
pub assume_specification[ SystemTime::now ]() -> SystemTime;

/// std `UNIX_EPOCH`, an opaque clock reading here; nothing is stated of it.
#[verifier::external_body]
fn unix_epoch() -> SystemTime {
    std::time::UNIX_EPOCH
}

/// `SystemTime::duration_since` compares two clock readings; nothing is stated of the result.
pub assume_specification[ SystemTime::duration_since ](
    this: &SystemTime,
    earlier: SystemTime,
) -> Result<Duration, SystemTimeError>;

/// `Duration::as_secs` gives the whole seconds of a duration; nothing is stated of it, since
/// no view of `Duration` exists here.
pub assume_specification[ Duration::as_secs ](this: &Duration) -> u64;

/// A fresh container name made from the current Unix time in seconds (zero when the clock
/// reads before the epoch).
pub fn generate_container_name() -> (r: String)
    ensures
        exists|seconds: u64| r@ == timestamp_name(seconds as nat),
{
    let now = SystemTime::now();
    let seconds = match now.duration_since(unix_epoch()) {
        Ok(elapsed) => elapsed.as_secs(),
        Err(_) => 0,
    };
    container_name_at(seconds)
}

} // verus!
