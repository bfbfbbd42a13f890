//! The settings of the extension.

use crate::environment;
use crate::extension::platform::Os;
use crate::json::{Json, JsonView};
use crate::lsp_proxy::requests;
use crate::text;
use vstd::prelude::*;
use vstd::string::*;

verus! {

/// When to look for newer versions of what is installed.
#[derive(Clone, Copy, Debug, PartialEq, Eq, Structural)]
pub enum CheckUpdates {
    Always,
    Once,
    Never,
}

impl Default for CheckUpdates {
    fn default() -> (r: Self)
        ensures
            r == CheckUpdates::Always,
    {
        CheckUpdates::Always
    }
}

/// `path` with the home directory in place of each tilde; as it is on Windows. There is none where
/// the home directory is not known.
pub open spec fn expanded(
    variables: Seq<(Seq<char>, Seq<char>)>,
    os: Os,
    path: Seq<char>,
) -> Option<Seq<char>> {
    match os {
        Os::Windows => Some(path),
        _ => match environment::value_of(variables, "HOME"@) {
            Some(home) => Some(text::replace_all(path, "~"@, home)),
            None => None,
        },
    }
}

/// `path` with the home directory in place of each tilde; as it is on Windows. Fails where the home
/// directory is not known.
pub fn expand_home_path(environment: &Vec<(String, String)>, os: Os, path: String) -> (r: Result<
    String,
    String,
>)
    ensures
        (match r {
            Ok(full) => expanded(environment::variables(environment@), os, path@) == Some(full@),
            Err(error) => expanded(environment::variables(environment@), os, path@) is None
                && error@ == "Failed to expand ~"@,
        }),
{
    if let Os::Windows = os {
        return Ok(path);
    }
    match environment::variable(environment, "HOME") {
        Some(home) => {
            let chars = text::chars_of(path.as_str());
            let tilde = text::chars_of("~");
            let home_chars = text::chars_of(home.as_str());
            Ok(text::string_of(&text::replace_text(&chars, &tilde, &home_chars)))
        },
        None => Err("Failed to expand ~".to_owned()),
    }
}

/// The setting `key`.
pub open spec fn setting(configuration: Option<JsonView>, key: Seq<char>) -> Option<JsonView> {
    match configuration {
        Some(configuration) => configuration.get(key),
        None => None,
    }
}

/// The setting `key`, where it is a text.
pub open spec fn text_setting(configuration: Option<JsonView>, key: Seq<char>) -> Option<Seq<char>> {
    match setting(configuration, key) {
        Some(value) => value.as_str(),
        None => None,
    }
}

/// The setting `key`, where it is a text that can be expanded to a path.
pub open spec fn path_setting(
    configuration: Option<JsonView>,
    key: Seq<char>,
    variables: Seq<(Seq<char>, Seq<char>)>,
    os: Os,
) -> Option<Seq<char>> {
    match text_setting(configuration, key) {
        Some(path) => expanded(variables, os, path),
        None => None,
    }
}

fn setting_of<'a>(configuration: &'a Option<Json>, key: &str) -> (r: Option<&'a Json>)
    ensures
        (match r {
            Some(value) => setting(requests::optional(*configuration), key@) == Some(value@),
            None => setting(requests::optional(*configuration), key@) is None,
        }),
{
    match configuration {
        Some(configuration) => configuration.get(key),
        None => None,
    }
}

fn text_setting_of(configuration: &Option<Json>, key: &str) -> (r: Option<String>)
    ensures
        text::optional(r) == text_setting(requests::optional(*configuration), key@),
{
    match setting_of(configuration, key) {
        Some(Json::Str(value)) => Some(value.clone()),
        _ => None,
    }
}

/// The path that the setting `key` names, where it names one.
pub fn configured_path(
    configuration: &Option<Json>,
    key: &str,
    environment: &Vec<(String, String)>,
    os: Os,
) -> (r: Option<String>)
    ensures
        text::optional(r) == path_setting(
            requests::optional(*configuration),
            key@,
            environment::variables(environment@),
            os,
        ),
{
    match text_setting_of(configuration, key) {
        Some(path) => match expand_home_path(environment, os, path) {
            Ok(path) => Some(path),
            Err(_) => None,
        },
        None => None,
    }
}

/// The Java home directory in the settings, under its present name or its former one.
pub open spec fn java_home_setting(configuration: Option<JsonView>) -> Option<Seq<char>> {
    match configuration {
        Some(configuration) => match configuration.get("java_home"@) {
            Some(value) => value.as_str(),
            None => match configuration.get2("java"@, "home"@) {
                Some(value) => value.as_str(),
                None => None,
            },
        },
        None => None,
    }
}

/// The Java home directory: that of the settings, or else that of the environment.
pub open spec fn java_home(
    configuration: Option<JsonView>,
    variables: Seq<(Seq<char>, Seq<char>)>,
    os: Os,
) -> Option<Seq<char>> {
    let configured = match java_home_setting(configuration) {
        Some(path) => expanded(variables, os, path),
        None => None,
    };
    match configured {
        Some(path) => Some(path),
        None => match environment::value_of(variables, "JAVA_HOME"@) {
            Some(path) => if path.len() > 0 {
                Some(path)
            } else {
                None
            },
            None => None,
        },
    }
}

/// The Java home directory: that of the settings, or else that of the environment.
pub fn get_java_home(
    configuration: &Option<Json>,
    environment: &Vec<(String, String)>,
    os: Os,
) -> (r: Option<String>)
    ensures
        text::optional(r) == java_home(
            requests::optional(*configuration),
            environment::variables(environment@),
            os,
        ),
{
    if let Some(configuration) = configuration {
        let value = match configuration.get("java_home") {
            Some(value) => Some(value),
            None => configuration.get2("java", "home"),
        };
        if let Some(Json::Str(path)) = value {
            if let Ok(path) = expand_home_path(environment, os, path.clone()) {
                return Some(path);
            }
        }
    }
    match environment::variable(environment, "JAVA_HOME") {
        Some(path) => if path.as_str().is_empty() {
            None
        } else {
            Some(path.clone())
        },
        None => None,
    }
}

/// Why the directory for the data of the language server cannot be used.
pub open spec fn data_directory_problem(configuration: Option<JsonView>) -> Option<Seq<char>> {
    match setting(configuration, "data_directory"@) {
        Some(JsonView::Str(path)) => if text::trim(path).len() == 0 {
            Some("JDTLS data_directory must not be empty"@)
        } else {
            None
        },
        Some(_) => Some("JDTLS data_directory must be a string"@),
        None => None,
    }
}

/// The directory for the data of the language server that the settings name, where they name one.
pub fn configured_jdtls_data_directory(configuration: &Option<Json>) -> (r: Result<
    Option<String>,
    String,
>)
    ensures
        (match r {
            Ok(directory) => data_directory_problem(requests::optional(*configuration)) is None
                && text::optional(directory) == text_setting(
                requests::optional(*configuration),
                "data_directory"@,
            ),
            Err(error) => data_directory_problem(requests::optional(*configuration)) == Some(
                error@,
            ),
        }),
{
    match setting_of(configuration, "data_directory") {
        Some(Json::Str(path)) => {
            let chars = text::chars_of(path.as_str());
            if text::trimmed(&chars).len() == 0 {
                Err("JDTLS data_directory must not be empty".to_owned())
            } else {
                Ok(Some(path.clone()))
            }
        },
        Some(_) => Err("JDTLS data_directory must be a string".to_owned()),
        None => Ok(None),
    }
}

/// `c` is a letter of the Latin alphabet.
pub open spec fn is_letter(c: char) -> bool {
    'a' <= c <= 'z' || 'A' <= c <= 'Z'
}

/// `path` begins at a root: on Windows a drive (`C:\`, `C:/`) or a server (`\\server`,
/// `//server`).
pub open spec fn is_absolute(path: Seq<char>, os: Os) -> bool {
    match os {
        Os::Windows => {
            ||| text::starts_with(path, "\\\\"@)
            ||| text::starts_with(path, "//"@)
            ||| path.len() >= 3 && is_letter(path[0]) && path[1] == ':' && (path[2] == '/'
                || path[2] == '\\')
        },
        _ => text::starts_with(path, "/"@),
    }
}

/// Whether `path` begins at a root.
pub fn is_absolute_data_directory(path: &str, os: Os) -> (r: bool)
    ensures
        r == is_absolute(path@, os),
{
    let chars = text::chars_of(path);
    match os {
        Os::Windows => {
            let backslashes = text::chars_of("\\\\");
            let slashes = text::chars_of("//");
            if text::has_prefix(&chars, &backslashes) || text::has_prefix(&chars, &slashes) {
                return true;
            }
            if chars.len() < 3 {
                return false;
            }
            let drive = chars[0];
            (('a' <= drive && drive <= 'z') || ('A' <= drive && drive <= 'Z')) && chars[1] == ':'
                && (chars[2] == '/' || chars[2] == '\\')
        },
        _ => {
            let root = text::chars_of("/");
            text::has_prefix(&chars, &root)
        },
    }
}

/// `path`, where it begins at a root.
pub fn validate_jdtls_data_directory(path: String, os: Os) -> (r: Result<String, String>)
    ensures
        (match r {
            Ok(same) => is_absolute(path@, os) && same@ == path@,
            Err(error) => !is_absolute(path@, os) && error@
                == "JDTLS data_directory must be an absolute path: "@ + path@,
        }),
{
    if is_absolute_data_directory(path.as_str(), os) {
        Ok(path)
    } else {
        let mut error = "JDTLS data_directory must be an absolute path: ".to_owned();
        error.append(path.as_str());
        Err(error)
    }
}

/// The directory below which the language server keeps its data for each worktree, where the
/// settings name one.
pub fn get_jdtls_data_directory(
    configuration: &Option<Json>,
    environment: &Vec<(String, String)>,
    os: Os,
) -> (r: Result<Option<String>, String>)
    ensures
        ({
            let configured = requests::optional(*configuration);
            match data_directory_problem(configured) {
                Some(problem) => r matches Err(error) && error@ == problem,
                None => match text_setting(configured, "data_directory"@) {
                    None => r matches Ok(None),
                    Some(path) => match expanded(environment::variables(environment@), os, path) {
                        None => r matches Err(error) && error@
                            == "Failed to expand JDTLS data_directory: "@ + "Failed to expand ~"@,
                        Some(full) => if is_absolute(full, os) {
                            r matches Ok(Some(directory)) && directory@ == full
                        } else {
                            r matches Err(error) && error@
                                == "JDTLS data_directory must be an absolute path: "@ + full
                        },
                    },
                },
            }
        }),
{
    let directory = match configured_jdtls_data_directory(configuration) {
        Ok(Some(directory)) => directory,
        Ok(None) => return Ok(None),
        Err(error) => return Err(error),
    };
    let path = match expand_home_path(environment, os, directory) {
        Ok(path) => path,
        Err(error) => {
            let mut message = "Failed to expand JDTLS data_directory: ".to_owned();
            message.append(error.as_str());
            return Err(message);
        },
    };
    match validate_jdtls_data_directory(path, os) {
        Ok(path) => Ok(Some(path)),
        Err(error) => Err(error),
    }
}

/// The setting `key`, where it is a truth value, or else `default`.
pub open spec fn flag_setting(configuration: Option<JsonView>, key: Seq<char>, default: bool) -> bool {
    match setting(configuration, key) {
        Some(JsonView::Bool(enabled)) => enabled,
        _ => default,
    }
}

/// Whether Java is downloaded where it is missing.
pub fn is_java_autodownload(configuration: &Option<Json>) -> (r: bool)
    ensures
        r == flag_setting(requests::optional(*configuration), "jdk_auto_download"@, false),
{
    match setting_of(configuration, "jdk_auto_download") {
        Some(Json::Bool(enabled)) => *enabled,
        _ => false,
    }
}

/// The setting for Lombok, under its present name or its former one.
pub open spec fn lombok_setting(configuration: Option<JsonView>) -> Option<JsonView> {
    match configuration {
        Some(configuration) => match configuration.get("lombok_support"@) {
            Some(value) => Some(value),
            None => match configuration.get2("java"@, "jdt"@) {
                Some(jdt) => match jdt.get2("ls"@, "lombokSupport"@) {
                    Some(support) => support.get("enabled"@),
                    None => None,
                },
                None => None,
            },
        },
        None => None,
    }
}

/// Whether Lombok is used.
pub fn is_lombok_enabled(configuration: &Option<Json>) -> (r: bool)
    ensures
        r == match lombok_setting(requests::optional(*configuration)) {
            Some(JsonView::Bool(enabled)) => enabled,
            _ => true,
        },
{
    let configuration = match configuration {
        Some(configuration) => configuration,
        None => return true,
    };
    let value = match configuration.get("lombok_support") {
        Some(value) => Some(value),
        None => match configuration.get2("java", "jdt") {
            Some(jdt) => match jdt.get2("ls", "lombokSupport") {
                Some(support) => support.get("enabled"),
                None => None,
            },
            None => None,
        },
    };
    match value {
        Some(Json::Bool(enabled)) => *enabled,
        _ => true,
    }
}

/// `s` in lower case, as Unicode defines it.
pub uninterp spec fn lowercase(s: Seq<char>) -> Seq<char>;

/// `str::to_lowercase`: the lower-case equivalent that Unicode defines, under the name `lowercase`.
#[verifier::external_body]
fn lowercase_of(s: &str) -> (r: String)
    ensures
        r@ == lowercase(s@),
{
    s.to_lowercase()
}

/// What `mode`, in lower case, says of when to look for newer versions.
pub open spec fn update_mode(mode: Seq<char>) -> CheckUpdates {
    if mode == "once"@ {
        CheckUpdates::Once
    } else if mode == "never"@ {
        CheckUpdates::Never
    } else {
        CheckUpdates::Always
    }
}

/// What `mode`, in lower case, says of when to look for newer versions.
pub fn check_updates_mode(mode: &str) -> (r: CheckUpdates)
    ensures
        r == update_mode(mode@),
{
    if text::same_text(mode, "once") {
        CheckUpdates::Once
    } else if text::same_text(mode, "never") {
        CheckUpdates::Never
    } else {
        CheckUpdates::Always
    }
}

/// When to look for newer versions.
pub open spec fn check_updates(configuration: Option<JsonView>) -> CheckUpdates {
    match text_setting(configuration, "check_updates"@) {
        Some(mode) => update_mode(lowercase(mode)),
        None => CheckUpdates::Always,
    }
}

/// When to look for newer versions: always, unless the settings say otherwise.
pub fn get_check_updates(configuration: &Option<Json>) -> (r: CheckUpdates)
    ensures
        r == check_updates(requests::optional(*configuration)),
{
    match text_setting_of(configuration, "check_updates") {
        Some(mode) => check_updates_mode(lowercase_of(mode.as_str()).as_str()),
        None => CheckUpdates::Always,
    }
}

/// The program that starts the language server, where the settings name one.
pub fn get_jdtls_launcher(
    configuration: &Option<Json>,
    environment: &Vec<(String, String)>,
    os: Os,
) -> (r: Option<String>)
    ensures
        text::optional(r) == path_setting(
            requests::optional(*configuration),
            "jdtls_launcher"@,
            environment::variables(environment@),
            os,
        ),
{
    configured_path(configuration, "jdtls_launcher", environment, os)
}

/// The largest heap of the language server (such as "2G", "4096m"), which it is started with as
/// `-Xmx`, where the settings give it.
pub fn get_max_memory(configuration: &Option<Json>) -> (r: Option<String>)
    ensures
        text::optional(r) == text_setting(requests::optional(*configuration), "max_memory"@),
{
    text_setting_of(configuration, "max_memory")
}

/// The first heap of the language server (such as "512m"): that of the settings, or else "1G".
pub open spec fn min_memory(configuration: Option<JsonView>) -> Seq<char> {
    match text_setting(configuration, "min_memory"@) {
        Some(first) => first,
        None => "1G"@,
    }
}

/// The first heap of the language server (such as "512m"), which it is started with as `-Xms`. It
/// defaults to "1G".
pub fn get_min_memory(configuration: &Option<Json>) -> (r: Option<String>)
    ensures
        text::optional(r) == Some(min_memory(requests::optional(*configuration))),
{
    match text_setting_of(configuration, "min_memory") {
        Some(first) => Some(first),
        None => Some("1G".to_owned()),
    }
}

/// The Lombok library, where the settings name one.
pub fn get_lombok_jar(
    configuration: &Option<Json>,
    environment: &Vec<(String, String)>,
    os: Os,
) -> (r: Option<String>)
    ensures
        text::optional(r) == path_setting(
            requests::optional(*configuration),
            "lombok_jar"@,
            environment::variables(environment@),
            os,
        ),
{
    configured_path(configuration, "lombok_jar", environment, os)
}

/// The library of the Java debugger, where the settings name one.
pub fn get_java_debug_jar(
    configuration: &Option<Json>,
    environment: &Vec<(String, String)>,
    os: Os,
) -> (r: Option<String>)
    ensures
        text::optional(r) == path_setting(
            requests::optional(*configuration),
            "java_debug_jar"@,
            environment::variables(environment@),
            os,
        ),
{
    configured_path(configuration, "java_debug_jar", environment, os)
}

/// The proxy program, where the settings name one.
pub fn get_lsp_proxy_path(
    configuration: &Option<Json>,
    environment: &Vec<(String, String)>,
    os: Os,
) -> (r: Option<String>)
    ensures
        text::optional(r) == path_setting(
            requests::optional(*configuration),
            "lsp_proxy_path"@,
            environment::variables(environment@),
            os,
        ),
{
    configured_path(configuration, "lsp_proxy_path", environment, os)
}

/// The Gradle bridge program, where the settings name one.
pub fn get_gradle_bridge_path(
    configuration: &Option<Json>,
    environment: &Vec<(String, String)>,
    os: Os,
) -> (r: Option<String>)
    ensures
        text::optional(r) == path_setting(
            requests::optional(*configuration),
            "gradle_bridge_path"@,
            environment::variables(environment@),
            os,
        ),
{
    configured_path(configuration, "gradle_bridge_path", environment, os)
}

/// The directory with the Bazel bundles, where the settings name one.
pub fn get_bazel_path(
    configuration: &Option<Json>,
    environment: &Vec<(String, String)>,
    os: Os,
) -> (r: Option<String>)
    ensures
        text::optional(r) == path_setting(
            requests::optional(*configuration),
            "bazel_path"@,
            environment::variables(environment@),
            os,
        ),
{
    configured_path(configuration, "bazel_path", environment, os)
}

/// The home directory stands for each tilde of a path, but on Windows; it has to be known even where
/// there is no tilde.
pub proof fn lemma_home_expanded(
    variables: Seq<(Seq<char>, Seq<char>)>,
    os: Os,
    start: Seq<char>,
    end: Seq<char>,
)
    requires
        !start.contains('~'),
    ensures
        expanded(variables, Os::Windows, start) == Some(start),
        os != Os::Windows ==> (match environment::value_of(variables, "HOME"@) {
            Some(home) => {
                &&& expanded(variables, os, start) == Some(start)
                &&& expanded(variables, os, end) matches Some(rest) && expanded(
                    variables,
                    os,
                    start + seq!['~'] + end,
                ) == Some(start + home + rest)
            },
            None => expanded(variables, os, start) is None,
        }),
{
    reveal_strlit("~");
    let tilde = "~"@;
    assert(tilde =~= seq!['~']);
    if let Some(home) = environment::value_of(variables, "HOME"@) {
        assert(!text::contains_text(start, tilde)) by {
            if text::contains_text(start, tilde) {
                let i = choose|i: int| #[trigger] text::occurs_at(start, tilde, i);
                assert(start.subrange(i, i + 1)[0] == '~');
                assert(start[i] == '~');
            }
        }
        text::lemma_replace_absent(start, tilde, home);
        let whole = start + tilde + end;
        assert forall|i: int| 0 <= i < start.len() implies !#[trigger] text::occurs_at(
            whole,
            tilde,
            i,
        ) by {
            if text::occurs_at(whole, tilde, i) {
                assert(whole.subrange(i, i + 1)[0] == '~');
                assert(start[i] == '~');
            }
        }
        text::lemma_replace_first(start, tilde, end, home);
    }
}

/// The Java home directory is that of the setting `java_home`, or else that of its former name `home`
/// below `java`, where it is a text that can be expanded; or else that of the variable `JAVA_HOME`,
/// where that is not empty.
pub proof fn lemma_java_home(
    settings: JsonView,
    variables: Seq<(Seq<char>, Seq<char>)>,
    os: Os,
    path: Seq<char>,
)
    requires
        expanded(variables, os, path) is Some,
    ensures
        settings.get("java_home"@) == Some(JsonView::Str(path)) ==> java_home(
            Some(settings),
            variables,
            os,
        ) == expanded(variables, os, path),
        settings.get("java_home"@) is None && settings.get2("java"@, "home"@) == Some(
            JsonView::Str(path),
        ) ==> java_home(Some(settings), variables, os) == expanded(variables, os, path),
        ({
            let named = match environment::value_of(variables, "JAVA_HOME"@) {
                Some(home) => if home.len() > 0 {
                    Some(home)
                } else {
                    None
                },
                None => None,
            };
            &&& java_home(None, variables, os) == named
            &&& settings.get("java_home"@) is None && settings.get2("java"@, "home"@) is None
                ==> java_home(Some(settings), variables, os) == named
        }),
{
}

/// Newer versions are looked for always, unless the setting `check_updates` is `once` or `never`, in
/// whatever case.
pub proof fn lemma_check_updates(configuration: Option<JsonView>)
    ensures
        ({
            let mode = match configuration {
                Some(settings) => match settings.get("check_updates"@) {
                    Some(JsonView::Str(mode)) => Some(lowercase(mode)),
                    _ => None,
                },
                None => None,
            };
            &&& check_updates(configuration) == CheckUpdates::Once <==> mode == Some("once"@)
            &&& check_updates(configuration) == CheckUpdates::Never <==> mode == Some("never"@)
            &&& check_updates(configuration) == CheckUpdates::Always <==> mode != Some("once"@)
                && mode != Some("never"@)
        }),
{
    reveal_strlit("once");
    reveal_strlit("never");
    assert("once"@.len() != "never"@.len());
}

/// A path begins at a root where it begins with a slash; on Windows where it begins with two
/// separators of one kind, or with a letter, a colon and a separator.
pub proof fn lemma_absolute_paths(path: Seq<char>)
    ensures
        is_absolute(path, Os::Linux) <==> path.len() > 0 && path[0] == '/',
        is_absolute(path, Os::Mac) <==> path.len() > 0 && path[0] == '/',
        is_absolute(path, Os::Windows) <==> {
            ||| path.len() >= 2 && path[0] == '/' && path[1] == '/'
            ||| path.len() >= 2 && path[0] == '\\' && path[1] == '\\'
            ||| path.len() >= 3 && ('a' <= path[0] <= 'z' || 'A' <= path[0] <= 'Z') && path[1] == ':'
                && (path[2] == '/' || path[2] == '\\')
        },
{
    reveal_strlit("/");
    reveal_strlit("//");
    reveal_strlit("\\\\");
    if path.len() >= 1 {
        let one = path.subrange(0, 1);
        assert(one[0] == path[0]);
        assert(path[0] == '/' ==> one =~= "/"@);
    }
    if path.len() >= 2 {
        let two = path.subrange(0, 2);
        assert(two[0] == path[0] && two[1] == path[1]);
        assert(path[0] == '/' && path[1] == '/' ==> two =~= "//"@);
        assert(path[0] == '\\' && path[1] == '\\' ==> two =~= "\\\\"@);
    }
}

/// The directory for the data of the language server has to be a text that is not blank.
pub proof fn lemma_data_directory_problems(configuration: Option<JsonView>)
    ensures
        data_directory_problem(configuration) is None <==> match configuration {
            Some(settings) => match settings.get("data_directory"@) {
                Some(JsonView::Str(path)) => !text::is_blank(path),
                Some(_) => false,
                None => true,
            },
            None => true,
        },
{
    if let Some(settings) = configuration {
        if let Some(JsonView::Str(path)) = settings.get("data_directory"@) {
            text::lemma_trim_blank(path);
        }
    }
}

/// Lombok is ruled by the setting `lombok_support`, or else by its former name `enabled` below
/// `java`, `jdt`, `ls` and `lombokSupport`.
pub proof fn lemma_lombok_setting(settings: JsonView)
    ensures
        lombok_setting(None) is None,
        settings.get("lombok_support"@) is Some ==> lombok_setting(Some(settings)) == settings.get(
            "lombok_support"@,
        ),
        settings.get("lombok_support"@) is None ==> lombok_setting(Some(settings)) == match (
        settings.get2("java"@, "jdt"@)) {
            Some(jdt) => match jdt.get2("ls"@, "lombokSupport"@) {
                Some(support) => support.get("enabled"@),
                None => None,
            },
            None => None,
        },
{
}

} // verus!
