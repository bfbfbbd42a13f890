//! What the components of the extension share.

use crate::environment;
use crate::extension::config::CheckUpdates;
use crate::extension::config;
use crate::extension::platform::Os;
use crate::extension::platform;
use crate::json::{Json, JsonView};
use crate::json;
use crate::lsp_proxy::requests;
use crate::path;
use crate::text;
use crate::uri;
use vstd::prelude::*;
use vstd::string::*;

verus! {

broadcast use text::lemma_texts_push;

/// How long a check for a newer version counts, in seconds.
pub const UPDATE_CHECK_TTL_SECONDS: u64 = 86400;

/// How many names are tried for a file or directory that must be new.
pub const NAME_ATTEMPTS: u32 = 16;

/// The name of the file that records a check for a newer version.
pub open spec fn update_check_marker() -> Seq<char> {
    ".update_checked"@
}

/// The file that records the last check for a newer version of the component.
pub fn update_check_path(component_name: &str) -> (r: String)
    ensures
        r@ == path::joined(component_name@, update_check_marker()),
{
    path::join_path(component_name, ".update_checked")
}

/// Whether a check for a newer version was ever recorded, given what the file for that holds, where
/// it is there. What it holds does not matter.
pub fn has_checked_once(marker: &Option<Vec<u8>>) -> (r: bool)
    ensures
        r == marker is Some,
{
    marker.is_some()
}

/// A check for a newer version: what it found, and when, in seconds since 1970.
#[derive(Debug)]
pub struct UpdateCheckRecord {
    pub version: String,
    pub checked_at_unix_seconds: u64,
}

/// The version that `record` holds still counts at `now`: it was found less than
/// `UPDATE_CHECK_TTL_SECONDS` ago, and not later than `now`.
pub open spec fn fresh(record: UpdateCheckRecord, now: u64) -> bool {
    &&& record.checked_at_unix_seconds <= now
    &&& now - record.checked_at_unix_seconds < UPDATE_CHECK_TTL_SECONDS
    &&& record.version@.len() > 0
}

/// The version that `record` holds, where it still counts at `now`.
pub fn fresh_cached_version_at(record: Option<UpdateCheckRecord>, now: u64) -> (r: Option<String>)
    ensures
        text::optional(r) == match record {
            Some(record) => if fresh(record, now) {
                Some(record.version@)
            } else {
                None
            },
            None => None,
        },
{
    match record {
        Some(record) => {
            if record.checked_at_unix_seconds > now {
                return None;
            }
            let age = now - record.checked_at_unix_seconds;
            if !record.version.as_str().is_empty() && age < UPDATE_CHECK_TTL_SECONDS {
                Some(record.version)
            } else {
                None
            }
        },
        None => None,
    }
}

/// The version that `record` holds, where it still counts at `now`, which is not known where the
/// clock is wrong.
pub fn fresh_cached_version(record: Option<UpdateCheckRecord>, now: Option<u64>) -> (r: Option<
    String,
>)
    ensures
        text::optional(r) == match (record, now) {
            (Some(record), Some(now)) => if fresh(record, now) {
                Some(record.version@)
            } else {
                None
            },
            _ => None,
        },
{
    match now {
        Some(now) => fresh_cached_version_at(record, now),
        None => None,
    }
}

/// A version that was recorded counts for `UPDATE_CHECK_TTL_SECONDS` and no longer, and not before
/// it was recorded.
pub proof fn lemma_freshness(record: UpdateCheckRecord, now: u64)
    requires
        record.version@.len() > 0,
    ensures
        fresh(record, now) <==> record.checked_at_unix_seconds <= now
            < record.checked_at_unix_seconds + UPDATE_CHECK_TTL_SECONDS,
{
}

/// The name of the temporary file through which the record `file_name` is written.
pub open spec fn temporary_name(file_name: Seq<char>, nonce: u64, attempt: u32) -> Seq<char> {
    file_name + "."@ + text::decimal(nonce as nat) + "."@ + text::decimal(attempt as nat) + ".tmp"@
}

fn number_text(n: u64) -> (r: String)
    ensures
        r@ == text::decimal(n as nat),
{
    text::string_of(&text::decimal_chars(n))
}

/// The name of the temporary file through which the record `file_name` is written.
pub fn temporary_record_name(file_name: &str, nonce: u64, attempt: u32) -> (r: String)
    ensures
        r@ == temporary_name(file_name@, nonce, attempt),
{
    let mut r = file_name.to_owned();
    r.append(".");
    r.append(number_text(nonce).as_str());
    r.append(".");
    r.append(number_text(attempt as u64).as_str());
    r.append(".tmp");
    r
}

/// The temporary files of different attempts have different names.
pub proof fn lemma_temporary_names_differ(file_name: Seq<char>, nonce: u64, a: u32, b: u32)
    requires
        a != b,
    ensures
        temporary_name(file_name, nonce, a) != temporary_name(file_name, nonce, b),
{
    let head = file_name + "."@ + text::decimal(nonce as nat) + "."@;
    let left = temporary_name(file_name, nonce, a);
    let right = temporary_name(file_name, nonce, b);
    reveal_strlit(".tmp");
    if left == right {
        let n = text::decimal(a as nat).len();
        assert(left.len() == right.len());
        assert(left.subrange(head.len() as int, (head.len() + n) as int) =~= text::decimal(a as nat));
        assert(right.subrange(head.len() as int, (head.len() + n) as int) =~= text::decimal(b as nat));
        text::lemma_decimal_injective(a as nat, b as nat);
    }
}

/// What happened to the temporary file of a record.
pub enum RecordEvent {
    Created,
    AlreadyExists,
    CreateFailed(String),
    /// It was written and took the place of the record.
    Replaced,
    ReplaceFailed(String),
}

/// What to do next to write a record.
pub enum RecordStep {
    /// Try the temporary file of this attempt.
    Create(u32),
    /// Write the temporary file and put it in the place of the record.
    Replace,
    Done,
    Fail(String),
    /// Remove the temporary file, then fail.
    CleanUp(String),
}

/// What to do once `event` has happened in the attempt `attempt` to write a record. `record` and
/// `temporary` are the files as they are shown.
pub fn record_step(attempt: u32, event: RecordEvent, record: &str, temporary: &str) -> (r:
    RecordStep)
    ensures
        (match event {
            RecordEvent::Created => r is Replace,
            RecordEvent::AlreadyExists => if attempt + 1 < NAME_ATTEMPTS {
                r == RecordStep::Create((attempt + 1) as u32)
            } else {
                r matches RecordStep::Fail(error) && error@
                    == "Failed to allocate a temporary update-check record for "@ + record@
            },
            RecordEvent::CreateFailed(reason) => r matches RecordStep::Fail(error) && error@
                == "Failed to create temporary update-check record "@ + temporary@ + ": "@
                + reason@,
            RecordEvent::Replaced => r is Done,
            RecordEvent::ReplaceFailed(reason) => r matches RecordStep::CleanUp(error) && error@
                == "Failed to replace update-check record "@ + record@ + ": "@ + reason@,
        }),
{
    match event {
        RecordEvent::Created => RecordStep::Replace,
        RecordEvent::AlreadyExists => if attempt < NAME_ATTEMPTS - 1 {
            RecordStep::Create(attempt + 1)
        } else {
            let mut error = "Failed to allocate a temporary update-check record for ".to_owned();
            error.append(record);
            RecordStep::Fail(error)
        },
        RecordEvent::CreateFailed(reason) => {
            let mut error = "Failed to create temporary update-check record ".to_owned();
            error.append(temporary);
            error.append(": ");
            error.append(reason.as_str());
            RecordStep::Fail(error)
        },
        RecordEvent::Replaced => RecordStep::Done,
        RecordEvent::ReplaceFailed(reason) => {
            let mut error = "Failed to replace update-check record ".to_owned();
            error.append(record);
            error.append(": ");
            error.append(reason.as_str());
            RecordStep::CleanUp(error)
        },
    }
}

/// What stands where a directory is wanted.
pub enum PathState {
    Directory,
    Other,
    Missing,
    Unknown(String),
}

/// What to do for a directory that is wanted.
pub enum PathStep {
    Done,
    Create,
    Fail(String),
}

/// What to do for the wanted directory `shown`, given what stands there.
pub fn path_step(state: PathState, shown: &str) -> (r: PathStep)
    ensures
        (match state {
            PathState::Directory => r is Done,
            PathState::Missing => r is Create,
            PathState::Other => r matches PathStep::Fail(error) && error@
                == "File exists but is not a path: "@ + shown@,
            PathState::Unknown(reason) => r matches PathStep::Fail(error) && error@ == reason@,
        }),
{
    match state {
        PathState::Directory => PathStep::Done,
        PathState::Missing => PathStep::Create,
        PathState::Other => {
            let mut error = "File exists but is not a path: ".to_owned();
            error.append(shown);
            PathStep::Fail(error)
        },
        PathState::Unknown(reason) => PathStep::Fail(reason),
    }
}

/// Where Java comes from.
pub enum JavaSource {
    /// This program.
    Program(String),
    /// It is to be downloaded.
    Download,
    /// It is not there.
    Missing(String),
}

/// The Java program below `home`.
pub open spec fn java_in(home: Seq<char>, os: Os) -> Seq<char> {
    path::joined(path::joined(home, "bin"@), platform::exec_name("java"@, os))
}

/// Where Java comes from: the home directory that the settings or the environment name, or else
/// `on_path`, the program that the shell finds, or else a download, where the settings allow it.
pub fn get_java_executable(
    configuration: &Option<Json>,
    environment: &Vec<(String, String)>,
    os: Os,
    on_path: Option<String>,
) -> (r: JavaSource)
    ensures
        ({
            let configured = requests::optional(*configuration);
            match config::java_home(configured, environment::variables(environment@), os) {
                Some(home) => r matches JavaSource::Program(program) && program@ == java_in(
                    home,
                    os,
                ),
                None => match on_path {
                    Some(found) => r matches JavaSource::Program(program) && program@ == found@,
                    None => if config::flag_setting(configured, "jdk_auto_download"@, false) {
                        r is Download
                    } else {
                        r matches JavaSource::Missing(error) && error@
                            == "Could not find Java executable in JAVA_HOME or on PATH"@
                    },
                },
            }
        }),
{
    if let Some(home) = config::get_java_home(configuration, environment, os) {
        let bin = path::join_path(home.as_str(), "bin");
        let name = platform::get_java_exec_name(os);
        return JavaSource::Program(path::join_path(bin.as_str(), name.as_str()));
    }
    if let Some(found) = on_path {
        return JavaSource::Program(found);
    }
    if config::is_java_autodownload(configuration) {
        return JavaSource::Download;
    }
    JavaSource::Missing("Could not find Java executable in JAVA_HOME or on PATH".to_owned())
}

/// The directory for all programs that the extension downloads.
pub open spec fn native_bin_dir() -> Seq<char> {
    "bin"@
}

/// The tag of the release that belongs to the version `package_version` of the extension.
pub fn extension_release_version(package_version: &str) -> (r: String)
    ensures
        r@ == "v"@ + package_version@,
{
    let mut r = "v".to_owned();
    r.append(package_version);
    r
}

/// The program `executable` of the release `release` below `install_dir`.
pub open spec fn released_binary(
    install_dir: Seq<char>,
    release: Seq<char>,
    executable: Seq<char>,
) -> Seq<char> {
    path::joined(path::joined(install_dir, release), executable)
}

/// There is a file at `path` among the entries that are there; a directory is none.
pub open spec fn file_among(entries: Seq<(String, EntryKind)>, path: Seq<char>) -> bool {
    exists|i: int|
        0 <= i < entries.len() && (#[trigger] entries[i]).0@ == path && entries[i].1
            == EntryKind::File
}

/// The program `executable` below `install_dir`, of the entries that are there: a file that was put
/// there by hand, or else that of the release `release`, and no other.
pub open spec fn native_binary(
    install_dir: Seq<char>,
    release: Seq<char>,
    executable: Seq<char>,
    entries: Seq<(String, EntryKind)>,
) -> Option<Seq<char>> {
    if file_among(entries, path::joined(install_dir, executable)) {
        Some(path::joined(install_dir, executable))
    } else if file_among(entries, released_binary(install_dir, release, executable)) {
        Some(released_binary(install_dir, release, executable))
    } else {
        None
    }
}

fn is_file_among(entries: &Vec<(String, EntryKind)>, path: &str) -> (r: bool)
    ensures
        r == file_among(entries@, path@),
{
    let mut i: usize = 0;
    while i < entries.len()
        invariant
            i <= entries@.len(),
            forall|j: int|
                0 <= j < i ==> !((#[trigger] entries@[j]).0@ == path@ && entries@[j].1
                    == EntryKind::File),
        decreases entries@.len() - i,
    {
        if text::same_text(entries[i].0.as_str(), path) && entries[i].1 == EntryKind::File {
            assert(entries@[i as int].0@ == path@);
            return true;
        }
        i += 1;
    }
    false
}

/// The program `executable` below `install_dir`, of the entries that are there: a file that was put
/// there by hand, or else that of the release `release`.
pub fn find_native_binary_in(
    install_dir: &str,
    release: &str,
    executable: &str,
    entries: &Vec<(String, EntryKind)>,
) -> (r: Option<String>)
    ensures
        text::optional(r) == native_binary(install_dir@, release@, executable@, entries@),
{
    let development = path::join_path(install_dir, executable);
    if is_file_among(entries, development.as_str()) {
        return Some(development);
    }
    let directory = path::join_path(install_dir, release);
    let released = path::join_path(directory.as_str(), executable);
    if is_file_among(entries, released.as_str()) {
        return Some(released);
    }
    None
}

/// The program `executable` that the extension has installed, of the entries that are there: a file
/// that was put there by hand, or else that of the release `release`.
pub fn find_native_binary(
    release: &str,
    executable: &str,
    entries: &Vec<(String, EntryKind)>,
) -> (r: Option<String>)
    ensures
        text::optional(r) == native_binary(native_bin_dir(), release@, executable@, entries@),
{
    find_native_binary_in("bin", release, executable, entries)
}

/// The outside crate's regular expressions.
#[verifier::external_type_specification]
#[verifier::external_body]
pub struct ExRegex(regex::Regex);

/// What is wrong with `pattern`, where it is no regular expression: the text of the error that
/// `regex::Regex::new` gives.
pub uninterp spec fn regex_complaint(pattern: Seq<char>) -> Option<Seq<char>>;

/// The pattern that `regex::Regex::new` made `regex` from.
pub uninterp spec fn regex_source(regex: regex::Regex) -> Seq<char>;

/// What the group `group` of the regular expression `pattern` matches in `text`, match by match.
pub uninterp spec fn regex_captures(
    pattern: Seq<char>,
    group: Seq<char>,
    text: Seq<char>,
) -> Seq<Option<Seq<char>>>;

/// What the captures hold.
pub open spec fn capture_views(captures: Seq<Option<String>>) -> Seq<Option<Seq<char>>> {
    Seq::new(captures.len(), |i: int| text::optional(captures[i]))
}

/// `regex::Regex::new`: the regular expression that `pattern` is, under the name `regex_source`, or
/// the text of the error where it is none, under the name `regex_complaint`.
#[verifier::external_body]
fn compiled(pattern: &str) -> (r: Result<regex::Regex, String>)
    ensures
        (match r {
            Ok(regex) => regex_complaint(pattern@) is None && regex_source(regex) == pattern@,
            Err(error) => regex_complaint(pattern@) == Some(error@),
        }),
{
    regex::Regex::new(pattern).map_err(|error| error.to_string())
}

/// `captures_iter` of a regular expression that `compiled` made: for each match in `text`, from the
/// left, what its group named `group` matched, under the name `regex_captures`.
#[verifier::external_body]
fn named_captures(regex: &regex::Regex, group: &str, text: &str) -> (r: Vec<Option<String>>)
    ensures
        capture_views(r@) == regex_captures(regex_source(*regex), group@, text@),
{
    regex.captures_iter(text).map(
        |captures| captures.name(group).map(|found| found.as_str().to_string()),
    ).collect()
}

/// The number that `s` stands for, where it has one of 32 bits.
pub open spec fn small_number(s: Option<Seq<char>>) -> Option<u32> {
    match s {
        Some(s) => match text::number_value(s) {
            Some(n) => if n <= u32::MAX {
                Some(n as u32)
            } else {
                None
            },
            None => None,
        },
        None => None,
    }
}

/// The first of `captures` that is a number of 32 bits.
pub open spec fn first_number(captures: Seq<Option<Seq<char>>>) -> Option<u32>
    decreases captures.len(),
{
    if captures.len() == 0 {
        None
    } else {
        match small_number(captures[0]) {
            Some(n) => Some(n),
            None => first_number(captures.drop_first()),
        }
    }
}

/// The first of `captures` that is a number of 32 bits.
pub fn first_major_version(captures: &Vec<Option<String>>) -> (r: Option<u32>)
    ensures
        r == first_number(capture_views(captures@)),
{
    let ghost all = capture_views(captures@);
    let mut i: usize = 0;
    assert(all.skip(0) =~= all);
    while i < captures.len()
        invariant
            i <= captures@.len(),
            all == capture_views(captures@),
            first_number(all) == first_number(all.skip(i as int)),
        decreases captures@.len() - i,
    {
        let ghost rest = all.skip(i as int);
        assert(rest[0] == text::optional(captures@[i as int]));
        assert(rest.drop_first() =~= all.skip(i + 1));
        if let Some(found) = &captures[i] {
            let chars = text::chars_of(found.as_str());
            if let Some(n) = text::parse_u64(&chars) {
                if n <= u32::MAX as u64 {
                    return Some(n as u32);
                }
            }
        }
        i += 1;
    }
    None
}

/// How Java says what version it is.
pub open spec fn version_pattern() -> Seq<char> {
    "version\\s\"(?P<major>\\d+)(\\.\\d+\\.\\d+(_\\d+)?)?"@
}

/// The major version of Java, given what it says of its version.
pub fn get_java_major_version(output: &str) -> (r: Result<u32, String>)
    ensures
        (match regex_complaint(version_pattern()) {
            None => match first_number(regex_captures(version_pattern(), "major"@, output@)) {
                Some(n) => r == Ok::<u32, String>(n),
                None => r matches Err(error) && error@
                    == "Failed to determine Java major version"@,
            },
            Some(complaint) => r matches Err(error) && error@
                == "Invalid regex for Java version parsing: "@ + complaint,
        }),
{
    let regex = match compiled("version\\s\"(?P<major>\\d+)(\\.\\d+\\.\\d+(_\\d+)?)?") {
        Ok(regex) => regex,
        Err(error) => {
            let mut message = "Invalid regex for Java version parsing: ".to_owned();
            message.append(error.as_str());
            return Err(message);
        },
    };
    match first_major_version(&named_captures(&regex, "major", output)) {
        Some(n) => Ok(n),
        None => Err("Failed to determine Java major version".to_owned()),
    }
}

/// The address of the tags of the repository `repo`.
pub fn tags_url(repo: &str) -> (r: String)
    ensures
        r@ == "https://api.github.com/repos/"@ + repo@ + "/tags"@,
{
    let mut r = "https://api.github.com/repos/".to_owned();
    r.append(repo);
    r.append("/tags");
    r
}

/// The first of `variables` with the name `name` that is not empty.
pub open spec fn full_value(variables: Seq<(Seq<char>, Seq<char>)>, name: Seq<char>) -> Option<
    Seq<char>,
>
    decreases variables.len(),
{
    if variables.len() == 0 {
        None
    } else if variables[0].0 == name && variables[0].1.len() > 0 {
        Some(variables[0].1)
    } else {
        full_value(variables.drop_first(), name)
    }
}

fn full_variable<'a>(shell_env: &'a Vec<(String, String)>, name: &str) -> (r: Option<&'a str>)
    ensures
        (match r {
            Some(value) => full_value(environment::variables(shell_env@), name@) == Some(value@),
            None => full_value(environment::variables(shell_env@), name@) is None,
        }),
{
    let ghost all = environment::variables(shell_env@);
    let mut i: usize = 0;
    assert(all.skip(0) =~= all);
    while i < shell_env.len()
        invariant
            i <= shell_env@.len(),
            all == environment::variables(shell_env@),
            full_value(all, name@) == full_value(all.skip(i as int), name@),
        decreases shell_env@.len() - i,
    {
        let ghost rest = all.skip(i as int);
        assert(rest[0] == all[i as int]);
        assert(rest.drop_first() =~= all.skip(i + 1));
        if text::same_text(shell_env[i].0.as_str(), name) && !shell_env[i].1.as_str().is_empty() {
            return Some(shell_env[i].1.as_str());
        }
        i += 1;
    }
    None
}

/// The token for requests to GitHub, where the environment holds one: `GITHUB_TOKEN`, or else
/// `GH_TOKEN`.
pub fn github_token(shell_env: &Vec<(String, String)>) -> (r: Option<&str>)
    ensures
        ({
            let all = environment::variables(shell_env@);
            let token = match full_value(all, "GITHUB_TOKEN"@) {
                Some(token) => Some(token),
                None => full_value(all, "GH_TOKEN"@),
            };
            match r {
                Some(found) => token == Some(found@),
                None => token is None,
            }
        }),
{
    match full_variable(shell_env, "GITHUB_TOKEN") {
        Some(token) => Some(token),
        None => full_variable(shell_env, "GH_TOKEN"),
    }
}

/// The name of the tag `index` of the answer `tags`.
pub open spec fn tag_name(tags: JsonView, index: int) -> Option<Seq<char>> {
    match tags {
        JsonView::Array(items) => if 0 <= index < items.len() {
            match items[index].get("name"@) {
                Some(JsonView::Str(name)) => Some(name),
                _ => None,
            }
        } else {
            None
        },
        _ => None,
    }
}

/// The version that a tag of this name stands for: the name without its first character, which is
/// one of one byte, such as the `v` of a version.
pub open spec fn tag_version(name: Seq<char>) -> Option<Seq<char>> {
    if name.len() > 0 && name[0] <= '\u{7f}' {
        Some(name.drop_first())
    } else {
        None
    }
}

/// The version that the tag `index` of the answer `tags` stands for.
pub open spec fn version_at(tags: JsonView, index: int) -> Option<Seq<char>> {
    match tag_name(tags, index) {
        Some(name) => tag_version(name),
        None => None,
    }
}

fn name_at(tags: &Json, index: usize) -> (r: Option<&String>)
    ensures
        (match r {
            Some(name) => tag_name(tags@, index as int) == Some(name@),
            None => tag_name(tags@, index as int) is None,
        }),
{
    broadcast use json::group_json_views;

    match tags {
        Json::Array(items) => {
            if index >= items.len() {
                return None;
            }
            match items[index].get("name") {
                Some(Json::Str(name)) => Some(name),
                _ => None,
            }
        },
        _ => None,
    }
}

/// The version that the tag `index` of the answer `tags` stands for: its name without the first
/// character. There is none where the name is not made so.
pub fn get_tag_at(tags: &Json, index: usize) -> (r: Option<String>)
    ensures
        text::optional(r) == version_at(tags@, index as int),
{
    let name = match name_at(tags, index) {
        Some(name) => name,
        None => return None,
    };
    let chars = text::chars_of(name.as_str());
    if chars.len() == 0 || chars[0] > '\u{7f}' {
        return None;
    }
    let mut version: Vec<char> = Vec::new();
    let mut i: usize = 1;
    while i < chars.len()
        invariant
            1 <= i <= chars@.len(),
            version@ == chars@.subrange(1, i as int),
        decreases chars@.len() - i,
    {
        version.push(chars[i]);
        i += 1;
        assert(chars@.subrange(1, i as int) =~= chars@.subrange(1, i - 1).push(chars@[i - 1]));
    }
    assert(version@ =~= name@.drop_first());
    Some(text::string_of(&version))
}

/// The answer `tags` is one that GitHub gives: its first tag stands for a version, and so does the
/// second, where it has a name.
pub open spec fn well_formed_tags(tags: JsonView) -> bool {
    version_at(tags, 0) is Some && (tag_name(tags, 1) is Some ==> version_at(tags, 1) is Some)
}

/// The two latest versions in the answer `tags` of GitHub, of which the second may be missing.
pub fn latest_versions(tags: &Json) -> (r: Result<(String, Option<String>), String>)
    ensures
        (match r {
            Ok((latest, second)) => well_formed_tags(tags@) && version_at(tags@, 0) == Some(latest@)
                && text::optional(second) == version_at(tags@, 1),
            Err(error) => !well_formed_tags(tags@) && error@ == "Malformed GitHub tags response"@,
        }),
{
    let second = get_tag_at(tags, 1);
    match get_tag_at(tags, 0) {
        Some(latest) => if second.is_some() || name_at(tags, 1).is_none() {
            Ok((latest, second))
        } else {
            Err("Malformed GitHub tags response".to_owned())
        },
        None => Err("Malformed GitHub tags response".to_owned()),
    }
}

/// The answer of GitHub that `body` holds.
pub fn tags_response(body: &[u8]) -> (r: Result<Json, String>)
    ensures
        (match r {
            Ok(tags) => json::parsed_json(body@) == Some(tags@),
            Err(error) => json::parsed_json(body@) is None && error@
                == "Failed to deserialize GitHub tags response: "@ + json::json_complaint(body@),
        }),
{
    match Json::parse_or_complain(body) {
        Ok(tags) => Ok(tags),
        Err(complaint) => {
            let mut error = "Failed to deserialize GitHub tags response: ".to_owned();
            error.append(complaint.as_str());
            Err(error)
        },
    }
}

/// The parts of `path` between backslashes, each behind a slash and percent-encoded, up to the part
/// number `n`.
pub open spec fn encoded_parts(parts: Seq<Seq<char>>, n: int) -> Seq<char>
    decreases n,
{
    if n <= 0 || n > parts.len() {
        Seq::empty()
    } else {
        encoded_parts(parts, n - 1) + "/"@ + uri::encoded_path(parts[n - 1])
    }
}

/// The URI of the file or directory `path`, which is a Unix path where it begins with a slash, and
/// else a Windows path.
pub open spec fn workspace_uri(path: Seq<char>) -> Seq<char> {
    if text::starts_with(path, "/"@) {
        "file://"@ + uri::encoded_path(path)
    } else {
        let parts = text::split(path, '\\');
        "file://"@ + encoded_parts(parts, parts.len() as int)
    }
}

/// The URI of the file or directory `path`, which is a Unix path where it begins with a slash, and
/// else a Windows path.
pub fn path_to_file_uri(path: &str) -> (r: String)
    ensures
        r@ == workspace_uri(path@),
{
    let chars = text::chars_of(path);
    let root = text::chars_of("/");
    let mut r = "file://".to_owned();
    if text::has_prefix(&chars, &root) {
        r.append(uri::encode_path(&chars).as_str());
        return r;
    }
    let parts = text::split_text(&chars, '\\');
    let ghost all = text::char_texts(parts@);
    let mut i: usize = 0;
    assert(r@ =~= "file://"@ + encoded_parts(all, 0));
    while i < parts.len()
        invariant
            i <= parts@.len(),
            all == text::char_texts(parts@),
            r@ == "file://"@ + encoded_parts(all, i as int),
        decreases parts@.len() - i,
    {
        let ghost before = r@;
        r.append("/");
        r.append(uri::encode_path(&parts[i]).as_str());
        i += 1;
        assert(r@ =~= "file://"@ + encoded_parts(all, i as int));
    }
    r
}

proof fn lemma_encoded_concat(a: Seq<u8>, b: Seq<u8>)
    ensures
        uri::percent_encoded(a + b) == uri::percent_encoded(a) + uri::percent_encoded(b),
    decreases a.len(),
{
    if a.len() == 0 {
        assert(a + b =~= b);
        assert(uri::percent_encoded(a) + uri::percent_encoded(b) =~= uri::percent_encoded(b));
    } else {
        assert((a + b).drop_first() =~= a.drop_first() + b);
        lemma_encoded_concat(a.drop_first(), b);
        assert(uri::percent_encoded(a + b) =~= uri::percent_encoded(a) + uri::percent_encoded(b));
    }
}

proof fn lemma_encoded_path_push(path: Seq<char>, c: char)
    ensures
        uri::encoded_path(path.push(c)) == uri::encoded_path(path) + uri::encoded_path(seq![c]),
{
    assert(path.push(c) =~= path + seq![c]);
    text::lemma_encode_concat(path, seq![c]);
    lemma_encoded_concat(
        vstd::utf8::encode_utf8(path),
        vstd::utf8::encode_utf8(seq![c]),
    );
}

proof fn lemma_encoded_slash()
    ensures
        uri::encoded_path(seq!['/']) == "/"@,
{
    reveal_strlit("/");
    let slash = seq!['/'];
    assert(vstd::utf8::is_ascii_chars(slash));
    vstd::utf8::is_ascii_chars_encode_utf8(slash);
    let bytes = vstd::utf8::encode_utf8(slash);
    assert(slash[0] as u8 == bytes[0]);
    assert(bytes.drop_first() =~= Seq::empty());
    assert(uri::percent_encoded(bytes.drop_first()) =~= Seq::empty());
    assert(uri::percent_encoded(bytes) =~= "/"@);
}

proof fn lemma_encoded_parts_of_split(path: Seq<char>)
    ensures
        ({
            let parts = text::split(path, '\\');
            encoded_parts(parts, parts.len() as int) == "/"@ + uri::encoded_path(
                uri::swapped(path, '\\', '/'),
            )
        }),
    decreases path.len(),
{
    let parts = text::split(path, '\\');
    let swapped = uri::swapped(path, '\\', '/');
    text::lemma_split(path, '\\');
    if path.len() == 0 {
        assert(swapped =~= path);
        assert(encoded_parts(parts, 0) =~= Seq::empty());
        assert(parts[0] =~= path);
        assert(encoded_parts(parts, 1) =~= "/"@ + uri::encoded_path(path));
    } else {
        let shorter = path.drop_last();
        let earlier = text::split(shorter, '\\');
        text::lemma_split(shorter, '\\');
        lemma_encoded_parts_of_split(shorter);
        assert(swapped.drop_last() =~= uri::swapped(shorter, '\\', '/'));
        assert(swapped =~= swapped.drop_last().push(swapped.last()));
        lemma_encoded_path_push(swapped.drop_last(), swapped.last());
        let n = earlier.len() as int;
        if path.last() == '\\' {
            lemma_encoded_slash();
            lemma_encoded_parts_prefix(earlier, parts, n);
            assert(parts[n] =~= Seq::empty());
            assert(uri::encoded_path(parts[n]) =~= Seq::empty()) by {
                assert(vstd::utf8::encode_utf8(parts[n]) =~= Seq::empty());
            }
            assert(encoded_parts(parts, n + 1) =~= "/"@ + uri::encoded_path(swapped));
        } else {
            lemma_encoded_parts_prefix(earlier, parts, n - 1);
            lemma_encoded_path_push(earlier.last(), path.last());
            assert(parts[n - 1] == earlier[n - 1].push(path.last()));
            assert(encoded_parts(parts, n) =~= encoded_parts(earlier, n) + uri::encoded_path(
                seq![path.last()],
            ));
            assert(encoded_parts(parts, n) =~= "/"@ + uri::encoded_path(swapped));
        }
    }
}

proof fn lemma_encoded_parts_prefix(a: Seq<Seq<char>>, b: Seq<Seq<char>>, n: int)
    requires
        0 <= n <= a.len(),
        n <= b.len(),
        forall|i: int| 0 <= i < n ==> a[i] == b[i],
    ensures
        encoded_parts(a, n) == encoded_parts(b, n),
    decreases n,
{
    if n > 0 {
        lemma_encoded_parts_prefix(a, b, n - 1);
    }
}

/// The extension and the proxy agree on the URI of a path: of any Unix path, and of a Windows path
/// that does not begin with a separator.
pub proof fn lemma_same_uri(path: Seq<char>)
    ensures
        text::starts_with(path, "/"@) ==> workspace_uri(path) == uri::file_uri(path, false),
        !text::starts_with(path, "/"@) && !text::starts_with(path, "\\"@) ==> workspace_uri(path)
            == uri::file_uri(path, true),
{
    reveal_strlit("/");
    reveal_strlit("//");
    reveal_strlit("\\");
    reveal_strlit("//?/UNC/");
    reveal_strlit("//?/");
    reveal_strlit("file://");
    reveal_strlit("file:///");
    if !text::starts_with(path, "/"@) && !text::starts_with(path, "\\"@) {
        let swapped = uri::swapped(path, '\\', '/');
        lemma_encoded_parts_of_split(path);
        assert(path.len() > 0 ==> path[0] != '/' && path[0] != '\\') by {
            if path.len() > 0 && path[0] == '/' {
                assert(path.subrange(0, 1) =~= "/"@);
            }
            if path.len() > 0 && path[0] == '\\' {
                assert(path.subrange(0, 1) =~= "\\"@);
            }
        }
        assert(swapped.len() > 0 ==> swapped[0] != '/');
        assert(!text::starts_with(swapped, "//?/UNC/"@)) by {
            if text::starts_with(swapped, "//?/UNC/"@) {
                assert(swapped.subrange(0, 8)[0] == '/');
            }
        }
        assert(!text::starts_with(swapped, "//?/"@)) by {
            if text::starts_with(swapped, "//?/"@) {
                assert(swapped.subrange(0, 4)[0] == '/');
            }
        }
        assert(!text::starts_with(swapped, "//"@)) by {
            if text::starts_with(swapped, "//"@) {
                assert(swapped.subrange(0, 2)[0] == '/');
            }
        }
        assert(!text::starts_with(swapped, "/"@)) by {
            if text::starts_with(swapped, "/"@) {
                assert(swapped.subrange(0, 1)[0] == '/');
            }
        }
        assert("file://"@ + ("/"@ + uri::encoded_path(swapped)) =~= "file:///"@
            + uri::encoded_path(swapped));
    }
}

/// What an entry of a directory is.
#[derive(Clone, Copy, Debug, PartialEq, Eq, Structural)]
pub enum EntryKind {
    File,
    Directory,
    Other,
}

/// What to do with an entry of a directory.
#[derive(Clone, Copy, Debug, PartialEq, Eq, Structural)]
pub enum Removal {
    Keep,
    File,
    Directory,
}

/// What becomes of the entry `name`, which is a `kind`, where only the entry `kept` is to stay. A
/// name that is no text is none that is kept.
pub fn removal_of_others(name: &Option<String>, kind: EntryKind, kept: &str) -> (r: Removal)
    ensures
        r == if text::optional(*name) == Some(kept@) {
            Removal::Keep
        } else {
            match kind {
                EntryKind::File => Removal::File,
                EntryKind::Directory => Removal::Directory,
                EntryKind::Other => Removal::Keep,
            }
        },
{
    if let Some(name) = name {
        if text::same_text(name.as_str(), kept) {
            return Removal::Keep;
        }
    }
    match kind {
        EntryKind::File => Removal::File,
        EntryKind::Directory => Removal::Directory,
        EntryKind::Other => Removal::Keep,
    }
}

/// What becomes of the entry `name`, which is a `kind`, where of the directories only `kept` is to
/// stay.
pub fn removal_of_other_directories(name: &Option<String>, kind: EntryKind, kept: &str) -> (r:
    Removal)
    ensures
        r == if text::optional(*name) != Some(kept@) && kind == EntryKind::Directory {
            Removal::Directory
        } else {
            Removal::Keep
        },
{
    if let Some(name) = name {
        if text::same_text(name.as_str(), kept) {
            return Removal::Keep;
        }
    }
    match kind {
        EntryKind::Directory => Removal::Directory,
        _ => Removal::Keep,
    }
}

/// What is installed (`local`), where it is to be used, or nothing, where the component is to be
/// downloaded, or why neither is possible.
pub open spec fn policy(
    configuration: Option<JsonView>,
    local: Option<String>,
    component_name: Seq<char>,
    checked_once: bool,
) -> Result<Option<String>, Seq<char>> {
    match (config::check_updates(configuration), local) {
        (CheckUpdates::Always, _) => Ok(None),
        (_, Some(path)) => Ok(Some(path)),
        (CheckUpdates::Never, None) => Err(
            "Update checks disabled (never) and no local installation found"@ + " for "@
                + component_name,
        ),
        (CheckUpdates::Once, None) => if checked_once {
            Err(
                "Update check already performed once and no local installation found"@ + " for "@
                    + component_name,
            )
        } else {
            Ok(None)
        },
    }
}

/// Says whether to use what is installed (`local`) or to download, given when to look for newer
/// versions and whether that was ever done. Fails where there is nothing to use and nothing may be
/// downloaded.
pub fn should_use_local_or_download(
    configuration: &Option<Json>,
    local: Option<String>,
    component_name: &str,
    checked_once: bool,
) -> (r: Result<Option<String>, String>)
    ensures
        (match policy(
            requests::optional(*configuration),
            local,
            component_name@,
            checked_once,
        ) {
            Ok(found) => r == Ok::<Option<String>, String>(found),
            Err(error) => r matches Err(reason) && reason@ == error,
        }),
{
    match config::get_check_updates(configuration) {
        CheckUpdates::Never => match local {
            Some(path) => Ok(Some(path)),
            None => {
                let mut error =
                    "Update checks disabled (never) and no local installation found".to_owned();
                error.append(" for ");
                error.append(component_name);
                Err(error)
            },
        },
        CheckUpdates::Once => match local {
            Some(path) => Ok(Some(path)),
            None => if checked_once {
                let mut error =
                    "Update check already performed once and no local installation found".to_owned();
                error.append(" for ");
                error.append(component_name);
                Err(error)
            } else {
                Ok(None)
            },
        },
        CheckUpdates::Always => Ok(None),
    }
}

/// Arguments, as one text or as a list.
#[derive(Debug)]
pub enum ArgsStringOrList {
    String(String),
    List(Vec<String>),
}

/// What an `ArgsStringOrList` holds.
pub enum ArgsView {
    Text(Seq<char>),
    List(Seq<Seq<char>>),
}

impl View for ArgsStringOrList {
    type V = ArgsView;

    open spec fn view(&self) -> ArgsView {
        match self {
            ArgsStringOrList::String(s) => ArgsView::Text(s@),
            ArgsStringOrList::List(list) => ArgsView::List(text::texts(list@)),
        }
    }
}

impl Clone for ArgsStringOrList {
    fn clone(&self) -> (r: Self)
        ensures
            r@ == self@,
    {
        match self {
            ArgsStringOrList::String(s) => ArgsStringOrList::String(s.clone()),
            ArgsStringOrList::List(list) => {
                let mut copy: Vec<String> = Vec::new();
                let mut i: usize = 0;
                while i < list.len()
                    invariant
                        i <= list@.len(),
                        copy@.len() == i,
                        forall|j: int| 0 <= j < i ==> (#[trigger] copy@[j])@ == list@[j]@,
                    decreases list@.len() - i,
                {
                    copy.push(list[i].clone());
                    i += 1;
                }
                assert(text::texts(copy@) =~= text::texts(list@));
                ArgsStringOrList::List(copy)
            },
        }
    }
}

/// `argument`, in quotes where it holds a space.
pub open spec fn quoted(argument: Seq<char>) -> Seq<char> {
    if argument.contains(' ') {
        seq!['"'] + argument + seq!['"']
    } else {
        argument
    }
}

/// Each of `arguments`, in quotes where it holds a space.
pub open spec fn all_quoted(arguments: Seq<Seq<char>>) -> Seq<Seq<char>> {
    arguments.map_values(|argument: Seq<char>| quoted(argument))
}

impl ArgsStringOrList {
    /// The arguments as one text: those of a list with spaces between them, and in quotes where
    /// they hold spaces themselves.
    pub fn to_text(&self) -> (r: String)
        ensures
            r@ == match self@ {
                ArgsView::Text(s) => s,
                ArgsView::List(list) => text::join(all_quoted(list), ' '),
            },
    {
        match self {
            ArgsStringOrList::String(s) => s.clone(),
            ArgsStringOrList::List(list) => {
                let ghost all = text::texts(list@);
                let space = text::chars_of(" ");
                proof {
                    reveal_strlit(" ");
                }
                let mut parts: Vec<Vec<char>> = Vec::new();
                let mut i: usize = 0;
                assert(text::char_texts(parts@) =~= all_quoted(all.take(0)));
                while i < list.len()
                    invariant
                        i <= list@.len(),
                        all == text::texts(list@),
                        space@ == seq![' '],
                        text::char_texts(parts@) == all_quoted(all.take(i as int)),
                    decreases list@.len() - i,
                {
                    let chars = text::chars_of(list[i].as_str());
                    let ghost before = text::char_texts(parts@);
                    let mut part: Vec<char> = Vec::new();
                    let spaced = has_char(&chars, ' ');
                    if spaced {
                        part.push('"');
                    }
                    text::push_all(&mut part, &chars);
                    if spaced {
                        part.push('"');
                    }
                    assert(part@ =~= quoted(all[i as int]));
                    parts.push(part);
                    i += 1;
                    assert(text::char_texts(parts@) =~= before.push(part@));
                    assert(all_quoted(all.take(i as int)) =~= all_quoted(all.take(i - 1)).push(
                        quoted(all[i - 1]),
                    ));
                }
                assert(all.take(i as int) =~= all);
                text::string_of(&text::join_text(&parts, ' '))
            },
        }
    }
}

fn has_char(chars: &Vec<char>, c: char) -> (r: bool)
    ensures
        r == chars@.contains(c),
{
    let mut i: usize = 0;
    while i < chars.len()
        invariant
            i <= chars@.len(),
            forall|j: int| 0 <= j < i ==> chars@[j] != c,
        decreases chars@.len() - i,
    {
        if chars[i] == c {
            return true;
        }
        i += 1;
    }
    false
}

/// A version that was recorded counts for a day.
pub proof fn lemma_fresh_for_a_day(record: UpdateCheckRecord, now: u64)
    ensures
        fresh(record, now) <==> record.version@.len() > 0 && record.checked_at_unix_seconds <= now
            && now < record.checked_at_unix_seconds + 24 * 60 * 60,
{
}

/// What is installed is used unless newer versions are always looked for. Where nothing is installed,
/// the component is downloaded, unless newer versions are never looked for, or were already looked for
/// once and are to be no more.
pub proof fn lemma_policy(
    configuration: Option<JsonView>,
    local: Option<String>,
    component_name: Seq<char>,
    checked_once: bool,
)
    ensures
        ({
            let decided = policy(configuration, local, component_name, checked_once);
            let when = config::check_updates(configuration);
            &&& when == CheckUpdates::Always ==> decided == Ok::<Option<String>, Seq<char>>(None)
            &&& when != CheckUpdates::Always && local is Some ==> decided == Ok::<
                Option<String>,
                Seq<char>,
            >(local)
            &&& when == CheckUpdates::Once && local is None && !checked_once ==> decided == Ok::<
                Option<String>,
                Seq<char>,
            >(None)
            &&& decided is Err <==> local is None && (when == CheckUpdates::Never || when
                == CheckUpdates::Once && checked_once)
        }),
{
}

/// A program that was put into place by hand is preferred to that of the release, and nothing is used
/// that is not a file.
pub proof fn lemma_native_binary(
    install_dir: Seq<char>,
    release: Seq<char>,
    executable: Seq<char>,
    entries: Seq<(String, EntryKind)>,
    i: int,
)
    requires
        0 <= i < entries.len(),
    ensures
        ({
            let by_hand = path::joined(install_dir, executable);
            let released = path::joined(path::joined(install_dir, release), executable);
            let found = native_binary(install_dir, release, executable, entries);
            &&& entries[i].1 == EntryKind::File && entries[i].0@ == by_hand ==> found == Some(
                by_hand,
            )
            &&& entries[i].1 == EntryKind::File && entries[i].0@ == released ==> found == Some(
                by_hand,
            ) || found == Some(released)
            &&& found matches Some(program) ==> {
                &&& program == by_hand || program == released
                &&& exists|j: int|
                    0 <= j < entries.len() && (#[trigger] entries[j]).0@ == program && entries[j].1
                        == EntryKind::File
            }
        }),
{
}

/// The version of Java is the first of the numbers that were found that fits into 32 bits.
pub proof fn lemma_first_number(captures: Seq<Option<Seq<char>>>)
    ensures
        (match first_number(captures) {
            Some(n) => exists|i: int|
                0 <= i < captures.len() && (#[trigger] captures[i] matches Some(s)
                    && text::number_value(s) == Some(n as nat)) && forall|j: int|
                    0 <= j < i ==> !(#[trigger] captures[j] matches Some(s) && (text::number_value(
                        s,
                    ) matches Some(m) && m <= u32::MAX)),
            None => forall|j: int|
                0 <= j < captures.len() ==> !(#[trigger] captures[j] matches Some(s) && (
                text::number_value(s) matches Some(m) && m <= u32::MAX)),
        }),
    decreases captures.len(),
{
    if captures.len() > 0 {
        if small_number(captures[0]) is None {
            let rest = captures.drop_first();
            lemma_first_number(rest);
            assert forall|j: int| 0 < j < captures.len() implies #[trigger] captures[j] == rest[j
                - 1] by {}
            if let Some(n) = first_number(rest) {
                let i = choose|i: int|
                    0 <= i < rest.len() && (#[trigger] rest[i] matches Some(s)
                        && text::number_value(s) == Some(n as nat)) && forall|j: int|
                        0 <= j < i ==> !(#[trigger] rest[j] matches Some(s) && (text::number_value(
                            s,
                        ) matches Some(m) && m <= u32::MAX));
                assert(captures[i + 1] == rest[i]);
            }
        } else {
            assert(captures[0] is Some);
        }
    }
}

/// The version of a tag is what follows its first letter, such as the `v` of `v1.2`, which is any ASCII
/// character.
pub proof fn lemma_tag_versions(tags: Seq<JsonView>, i: int, letter: char, version: Seq<char>)
    requires
        0 <= i < tags.len(),
        (letter as u32) < 128,
        tags[i].get("name"@) == Some(JsonView::Str(seq![letter] + version)),
    ensures
        version_at(JsonView::Array(tags), i) == Some(version),
        version_at(JsonView::Array(tags), tags.len() as int) is None,
{
    assert((seq![letter] + version).drop_first() =~= version);
}

/// The value of a variable that must not be empty is that of the first of the variables with its name
/// that is not.
pub proof fn lemma_full_value(variables: Seq<(Seq<char>, Seq<char>)>, name: Seq<char>)
    ensures
        (match full_value(variables, name) {
            Some(value) => value.len() > 0 && exists|i: int|
                0 <= i < variables.len() && #[trigger] variables[i] == (name, value) && forall|
                    j: int,
                |
                    0 <= j < i ==> (#[trigger] variables[j]).0 != name || variables[j].1.len() == 0,
            None => forall|i: int|
                0 <= i < variables.len() ==> (#[trigger] variables[i]).0 != name
                    || variables[i].1.len() == 0,
        }),
    decreases variables.len(),
{
    if variables.len() > 0 {
        if variables[0].0 == name && variables[0].1.len() > 0 {
            assert(variables[0] == (name, variables[0].1));
        } else {
            let rest = variables.drop_first();
            lemma_full_value(rest, name);
            assert forall|i: int| 0 < i < variables.len() implies #[trigger] variables[i] == rest[i
                - 1] by {}
            if let Some(value) = full_value(rest, name) {
                let i = choose|i: int|
                    0 <= i < rest.len() && #[trigger] rest[i] == (name, value) && forall|j: int|
                        0 <= j < i ==> (#[trigger] rest[j]).0 != name || rest[j].1.len() == 0;
                assert(variables[i + 1] == (name, value));
            }
        }
    }
}

/// Arguments that hold no space and no quotation mark come back from the one text that they are put
/// into, and one that holds a space stands there in quotation marks.
pub proof fn lemma_arguments_in_one_text(arguments: Seq<Seq<char>>)
    requires
        arguments.len() > 0,
    ensures
        (forall|i: int| 0 <= i < arguments.len() ==> !(#[trigger] arguments[i]).contains(' '))
            ==> text::split(text::join(all_quoted(arguments), ' '), ' ') == arguments,
        forall|i: int|
            0 <= i < arguments.len() && (#[trigger] arguments[i]).contains(' ') ==> all_quoted(
                arguments,
            )[i] == seq!['"'] + arguments[i] + seq!['"'],
{
    if forall|i: int| 0 <= i < arguments.len() ==> !(#[trigger] arguments[i]).contains(' ') {
        assert(all_quoted(arguments) =~= arguments);
        text::lemma_split_join(arguments, ' ');
    }
}

/// Where nothing is installed and nothing may be downloaded, the reason names the component and says
/// which of the two settings forbids it.
pub proof fn lemma_policy_reasons(
    configuration: Option<JsonView>,
    component_name: Seq<char>,
    checked_once: bool,
)
    ensures
        ({
            let decided = policy(configuration, None, component_name, checked_once);
            let when = config::check_updates(configuration);
            &&& when == CheckUpdates::Never ==> (decided matches Err(reason) && reason
                == "Update checks disabled (never) and no local installation found for "@
                + component_name)
            &&& when == CheckUpdates::Once && checked_once ==> (decided matches Err(reason)
                && reason
                == "Update check already performed once and no local installation found for "@
                + component_name)
        }),
{
    reveal_strlit(" for ");
    reveal_strlit("Update checks disabled (never) and no local installation found");
    reveal_strlit("Update checks disabled (never) and no local installation found for ");
    reveal_strlit("Update check already performed once and no local installation found");
    reveal_strlit("Update check already performed once and no local installation found for ");
    assert("Update checks disabled (never) and no local installation found"@ + " for "@
        + component_name =~= "Update checks disabled (never) and no local installation found for "@
        + component_name);
    assert("Update check already performed once and no local installation found"@ + " for "@
        + component_name
        =~= "Update check already performed once and no local installation found for "@
        + component_name);
}

/// The check for a newer version is recorded in the directory of the component.
pub proof fn lemma_update_check_file(component_name: Seq<char>)
    requires
        component_name.len() > 0,
        component_name.last() != '/',
    ensures
        path::joined(component_name, update_check_marker()) == component_name
            + "/.update_checked"@,
{
    reveal_strlit(".update_checked");
    reveal_strlit("/.update_checked");
    path::lemma_joined(component_name, update_check_marker());
    assert(component_name + seq!['/'] + ".update_checked"@ =~= component_name
        + "/.update_checked"@);
}

} // verus!
