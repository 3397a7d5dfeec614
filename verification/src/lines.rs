//! What a single line of a process's diagnostic output says.

use crate::text::{contains_text, occurs_in};
use vstd::prelude::*;

verus! {

/// The pattern of the line in which the companion names the shell
/// configuration that it wrote: the key, and the path between double quotes.
pub const CONFIG_PATTERN: &'static str = "ssh_config=\"(?P<ssh_config>.*)\"";

/// The group of `CONFIG_PATTERN` that holds the path.
pub const CONFIG_GROUP: &'static str = "ssh_config";

/// Stands in the line by which the companion says that its listener is bound.
pub const LISTENING_MARKER: &'static str = "ssh: listening on";

/// Stands in the line by which the companion says that it knows the remote
/// instance's state.
pub const INSTANCE_UPDATE_MARKER: &'static str = "instance update";

/// Stands in the line by which the shell client says that the remote end
/// turned it away.
pub const REFUSED_MARKER: &'static str = "Connection refused";

/// What the group named `group` holds in the first match of the regular
/// expression `pattern` in `haystack`, as the `regex` crate finds it: nothing
/// where the pattern does not compile, where it matches nowhere, where it has
/// no such group, or where the group took no part in the match.
pub uninterp spec fn named_capture(
    pattern: Seq<char>,
    group: Seq<char>,
    haystack: Seq<char>,
) -> Option<Seq<char>>;

/// Compiles `pattern` with `regex::Regex::new`, searches `haystack` with
/// `Regex::captures`, and takes the group `group` with `Captures::name`.
///
/// Nothing here is proved. The contract claims that what comes back is
/// `named_capture` of the three texts, that is, that it depends on them alone,
/// and that a text which comes back is a part of `haystack`, as `Match::as_str`
/// hands out a slice of the haystack. It claims this of the one pattern that
/// this library searches for.
#[verifier::external_body]
fn capture_named(pattern: &str, group: &str, haystack: &str) -> (found: Option<String>)
    requires
        pattern@ == CONFIG_PATTERN@,
    ensures
        found.deep_view() == named_capture(pattern@, group@, haystack@),
        found matches Some(part) ==> occurs_in(haystack@, part@),
{
    let expression = regex::Regex::new(pattern).ok()?;
    let captures = expression.captures(haystack)?;
    let part = captures.name(group)?;
    Some(part.as_str().to_string())
}

/// The configuration path that `line` names, if it names one.
pub open spec fn config_in(line: Seq<char>) -> Option<Seq<char>> {
    named_capture(CONFIG_PATTERN@, CONFIG_GROUP@, line)
}

/// Looks in a line of the companion for the configuration path. The path is
/// handed back as it stands in the line; whether a file is there is not asked.
pub fn parse_line_for_config(line: &str) -> (config: Option<String>)
    ensures
        config.deep_view() == config_in(line@),
        config matches Some(path) ==> occurs_in(line@, path@),
{
    capture_named(CONFIG_PATTERN, CONFIG_GROUP, line)
}

/// Whether a line of the companion says that its listener is bound.
pub fn parse_line_for_listening(line: &str) -> (listening: bool)
    ensures
        listening == occurs_in(line@, LISTENING_MARKER@),
{
    contains_text(line, LISTENING_MARKER)
}

/// Whether a line of the companion says that the instance's state has arrived.
pub fn parse_line_for_instance_update(line: &str) -> (updated: bool)
    ensures
        updated == occurs_in(line@, INSTANCE_UPDATE_MARKER@),
{
    contains_text(line, INSTANCE_UPDATE_MARKER)
}

/// Whether a line of the shell client says that the connection was refused.
pub fn parse_line_for_refusal(line: &str) -> (refused: bool)
    ensures
        refused == occurs_in(line@, REFUSED_MARKER@),
{
    contains_text(line, REFUSED_MARKER)
}

} // verus!
