//! The Java language server and Lombok: how they are installed and started.

use crate::codec;
use crate::environment;
use crate::extension::config;
use crate::extension::downloadable;
use crate::extension::platform::{Architecture, Os};
use crate::extension::util::{EntryKind, Removal};
use crate::extension::util;
use crate::json::{Json, JsonView};
use crate::lsp_proxy::requests;
use crate::path;
use crate::text;
use vstd::prelude::*;
use vstd::slice::*;
use vstd::string::*;

verus! {

broadcast use text::lemma_texts_push;

/// The Java language server.
pub struct Jdtls {
    /// Where it is installed, once that is known.
    pub cached_path: Option<String>,
}

impl Jdtls {
    /// Not known to be installed.
    pub fn new() -> (r: Self)
        ensures
            r.cached_path is None,
    {
        Jdtls { cached_path: None }
    }

    /// Whether it is known where it is installed.
    pub fn loaded(&self) -> (r: bool)
        ensures
            r == self.cached_path is Some,
    {
        self.cached_path.is_some()
    }
}

/// Lombok.
pub struct Lombok {
    /// Where it is installed, once that is known.
    pub cached_path: Option<String>,
}

impl Lombok {
    /// Not known to be installed.
    pub fn new() -> (r: Self)
        ensures
            r.cached_path is None,
    {
        Lombok { cached_path: None }
    }

    /// Whether it is known where it is installed.
    pub fn loaded(&self) -> (r: bool)
        ensures
            r == self.cached_path is Some,
    {
        self.cached_path.is_some()
    }
}

/// The file name of Lombok in the version `version`.
pub open spec fn lombok_file(version: Seq<char>) -> Seq<char> {
    "lombok-"@ + version + ".jar"@
}

/// The file name of Lombok in the version `version`.
pub fn lombok_jar_name(version: &str) -> (r: String)
    ensures
        r@ == lombok_file(version@),
{
    let mut r = "lombok-".to_owned();
    r.append(version);
    r.append(".jar");
    r
}

/// The address of Lombok in the version `version`.
pub fn lombok_url(version: &str) -> (r: String)
    ensures
        r@ == "https://projectlombok.org/downloads/"@ + lombok_file(version@),
{
    let mut r = "https://projectlombok.org/downloads/".to_owned();
    r.append(lombok_jar_name(version).as_str());
    r
}

/// What to do next to install Lombok.
pub enum LombokStep {
    /// It is there.
    Use(String),
    /// Download the file at `url` to `to`.
    Download { url: String, to: String },
    Fail(String),
}

/// The file of Lombok in the version `version`.
pub open spec fn lombok_path(version: Seq<char>) -> Seq<char> {
    path::joined("lombok"@, lombok_file(version))
}

/// What to do first to install the version `version` of Lombok, given whether its file is there.
pub fn lombok_step(version: &str, is_file: bool) -> (r: LombokStep)
    ensures
        (match r {
            LombokStep::Use(path) => is_file && path@ == lombok_path(version@),
            LombokStep::Download { url, to } => !is_file && url@
                == "https://projectlombok.org/downloads/"@ + lombok_file(version@) && to@
                == lombok_path(version@),
            LombokStep::Fail(_) => false,
        }),
{
    let path = path::join_path("lombok", lombok_jar_name(version).as_str());
    if is_file {
        LombokStep::Use(path)
    } else {
        LombokStep::Download { url: lombok_url(version), to: path }
    }
}

/// What to do once the version `version` of Lombok is downloaded or that failed.
pub fn lombok_downloaded(version: &str, downloaded: Result<(), String>) -> (r: LombokStep)
    ensures
        (match downloaded {
            Ok(()) => r matches LombokStep::Use(path) && path@ == lombok_path(version@),
            Err(reason) => r matches LombokStep::Fail(error) && error@
                == "Failed to download Lombok from "@ + ("https://projectlombok.org/downloads/"@
                + lombok_file(version@)) + ": "@ + reason@,
        }),
{
    match downloaded {
        Ok(()) => LombokStep::Use(path::join_path("lombok", lombok_jar_name(version).as_str())),
        Err(reason) => {
            let mut error = "Failed to download Lombok from ".to_owned();
            error.append(lombok_url(version).as_str());
            error.append(": ");
            error.append(reason.as_str());
            LombokStep::Fail(error)
        },
    }
}

/// What a JVM memory size counts in.
pub open spec fn memory_unit(last: char) -> Option<u64> {
    if last == 'g' || last == 'G' {
        Some(1073741824)
    } else if last == 'm' || last == 'M' {
        Some(1048576)
    } else if last == 'k' || last == 'K' {
        Some(1024)
    } else {
        None
    }
}

/// How many bytes the JVM memory size `s` stands for (such as "2G", "512m", "1024k"), where they can
/// be counted with 64 bits.
pub open spec fn memory_bytes(s: Seq<char>) -> Option<u64> {
    let size = text::trim(s);
    if size.len() == 0 {
        None
    } else {
        let (digits, unit) = match memory_unit(size.last()) {
            Some(unit) => (size.drop_last(), unit),
            None => (size, 1u64),
        };
        match text::number_value(digits) {
            Some(n) => if n * unit <= u64::MAX {
                Some((n * unit) as u64)
            } else {
                None
            },
            None => None,
        }
    }
}

/// How many bytes the JVM memory size `s` stands for (such as "2G", "512m", "1024k"), where they can
/// be counted with 64 bits.
pub fn parse_memory_value(s: &str) -> (r: Option<u64>)
    ensures
        r == memory_bytes(s@),
{
    let chars = text::chars_of(s);
    let size = text::trimmed(&chars);
    if size.len() == 0 {
        return None;
    }
    let last = size[size.len() - 1];
    let unit: u64 = if last == 'g' || last == 'G' {
        1073741824
    } else if last == 'm' || last == 'M' {
        1048576
    } else if last == 'k' || last == 'K' {
        1024
    } else {
        1
    };
    let digits = if unit > 1 {
        slice_subrange(size, 0, size.len() - 1)
    } else {
        size
    };
    assert(unit > 1 ==> digits@ =~= size@.drop_last());
    proof {
        if let Some(n) = text::number_value(digits@) {
            assert(n <= n * unit) by (nonlinear_arith)
                requires
                    unit >= 1,
            ;
        }
    }
    match text::parse_u64(digits) {
        Some(n) => n.checked_mul(unit),
        None => None,
    }
}

/// The first and the largest heap of the language server: those of the settings, the other way
/// round where the first is larger than the largest.
pub open spec fn heap_bounds(configuration: Option<JsonView>) -> (Seq<char>, Option<Seq<char>>) {
    let first = config::min_memory(configuration);
    match config::text_setting(configuration, "max_memory"@) {
        Some(largest) => match (memory_bytes(first), memory_bytes(largest)) {
            (Some(first_bytes), Some(largest_bytes)) => if first_bytes > largest_bytes {
                (largest, Some(first))
            } else {
                (first, Some(largest))
            },
            _ => (first, Some(largest)),
        },
        None => (first, None),
    }
}

/// The heap of the language server never begins larger than it may become, where both sizes can
/// be read.
pub proof fn lemma_heap_bounds_ordered(configuration: Option<JsonView>)
    ensures
        ({
            let (first, largest) = heap_bounds(configuration);
            largest matches Some(largest) ==> (memory_bytes(first) matches Some(a) ==> (
            memory_bytes(largest) matches Some(b) ==> a <= b))
        }),
{
}

fn heap_sizes(configuration: &Option<Json>) -> (r: (String, Option<String>))
    ensures
        (r.0@, text::optional(r.1)) == heap_bounds(requests::optional(*configuration)),
{
    let first = config::get_min_memory(configuration).unwrap();
    match config::get_max_memory(configuration) {
        Some(largest) => {
            let swap = match (
                parse_memory_value(first.as_str()),
                parse_memory_value(largest.as_str()),
            ) {
                (Some(first_bytes), Some(largest_bytes)) => first_bytes > largest_bytes,
                _ => false,
            };
            if swap {
                (largest, Some(first))
            } else {
                (first, Some(largest))
            }
        },
        None => (first, None),
    }
}

/// Which Java the language server is started with.
pub enum LaunchJava {
    /// The one that was found.
    Found,
    /// One that is to be downloaded.
    Download,
    /// None: that which was found is too old.
    TooOld(String),
}

/// Which Java the language server is started with, given the major version of the one that was
/// found: one that is too old is replaced by a download, where the settings allow it.
pub fn launch_java(java_major_version: u32, configuration: &Option<Json>) -> (r: LaunchJava)
    ensures
        r is Found <==> java_major_version >= 21,
        r is Download <==> java_major_version < 21 && config::flag_setting(
            requests::optional(*configuration),
            "jdk_auto_download"@,
            false,
        ),
        r matches LaunchJava::TooOld(error) ==> error@
            == "JDTLS requires at least Java version 21 to run. You can either specify a different JDK to use by configuring lsp.jdtls.settings.java_home to point to a different JDK, or set lsp.jdtls.settings.jdk_auto_download to true to let the extension automatically download one for you."@,
{
    if java_major_version >= 21 {
        LaunchJava::Found
    } else if config::is_java_autodownload(configuration) {
        LaunchJava::Download
    } else {
        LaunchJava::TooOld(
            "JDTLS requires at least Java version 21 to run. You can either specify a different JDK to use by configuring lsp.jdtls.settings.java_home to point to a different JDK, or set lsp.jdtls.settings.jdk_auto_download to true to let the extension automatically download one for you.".to_owned(),
        )
    }
}

/// The arguments for the heap of the language server.
pub open spec fn heap_args(configuration: Option<JsonView>) -> Seq<Seq<char>> {
    let (first, largest) = heap_bounds(configuration);
    match largest {
        Some(largest) => seq!["-Xms"@ + first, "-Xmx"@ + largest],
        None => seq!["-Xms"@ + first],
    }
}

/// Java, and the options with which it runs the language server.
pub open spec fn base_args(java: Seq<char>, shared_config: Seq<char>) -> Seq<Seq<char>> {
    seq![
        java,
        "-Declipse.application=org.eclipse.jdt.ls.core.id1"@,
        "-Dosgi.bundles.defaultStartLevel=4"@,
        "-Declipse.product=org.eclipse.jdt.ls.core.product"@,
        "-Dosgi.checkConfiguration=true"@,
        "-Dosgi.sharedConfiguration.area="@ + shared_config,
        "-Dosgi.sharedConfiguration.area.readOnly=true"@,
        "-Dosgi.configuration.cascaded=true"@,
        "-Djava.import.generatesMetadataFilesAtProjectRoot=false"@,
        "-Djava.net.preferIPv4Stack=true"@,
    ]
}

/// The modules that the language server needs.
pub open spec fn module_args() -> Seq<Seq<char>> {
    seq![
        "--add-modules=ALL-SYSTEM"@,
        "--add-opens"@,
        "java.base/java.util=ALL-UNNAMED"@,
        "--add-opens"@,
        "java.base/java.lang=ALL-UNNAMED"@,
    ]
}

/// The limits that have to be lifted for a Java that is new enough.
pub open spec fn limit_args(java_major_version: u32) -> Seq<Seq<char>> {
    if java_major_version >= 24 {
        seq!["-Djdk.xml.maxGeneralEntitySizeLimit=0"@, "-Djdk.xml.totalEntitySizeLimit=0"@]
    } else {
        Seq::empty()
    }
}

/// The command that starts the language server: Java, the options for it, those that the user gives
/// (`jvm_args`), the launcher and the directory for the data of the language server.
pub open spec fn launch_args(
    java: Seq<char>,
    shared_config: Seq<char>,
    configuration: Option<JsonView>,
    jvm_args: Seq<Seq<char>>,
    launcher: Seq<char>,
    data: Seq<char>,
    java_major_version: u32,
) -> Seq<Seq<char>> {
    base_args(java, shared_config) + heap_args(configuration) + module_args() + jvm_args + seq![
        "-jar"@,
        launcher,
        "-data"@,
        data,
    ] + limit_args(java_major_version)
}

fn push_args(args: &mut Vec<String>, more: &Vec<String>)
    ensures
        text::texts(final(args)@) == text::texts(old(args)@) + text::texts(more@),
{
    let ghost before = text::texts(args@);
    let ghost added = text::texts(more@);
    let mut i: usize = 0;
    assert(before + added.take(0) =~= before);
    while i < more.len()
        invariant
            i <= more@.len(),
            added == text::texts(more@),
            text::texts(args@) == before + added.take(i as int),
        decreases more@.len() - i,
    {
        args.push(more[i].clone());
        i += 1;
        assert(added.take(i as int) =~= added.take(i - 1).push(added[i - 1]));
    }
    assert(added.take(i as int) =~= added);
}

fn base_list(java: &str, shared_config: &str) -> (args: Vec<String>)
    ensures
        text::texts(args@) == base_args(java@, shared_config@),
{
    let mut area = "-Dosgi.sharedConfiguration.area=".to_owned();
    area.append(shared_config);
    let mut args: Vec<String> = Vec::new();
    args.push(java.to_owned());
    args.push("-Declipse.application=org.eclipse.jdt.ls.core.id1".to_owned());
    args.push("-Dosgi.bundles.defaultStartLevel=4".to_owned());
    args.push("-Declipse.product=org.eclipse.jdt.ls.core.product".to_owned());
    args.push("-Dosgi.checkConfiguration=true".to_owned());
    args.push(area);
    args.push("-Dosgi.sharedConfiguration.area.readOnly=true".to_owned());
    args.push("-Dosgi.configuration.cascaded=true".to_owned());
    args.push("-Djava.import.generatesMetadataFilesAtProjectRoot=false".to_owned());
    args.push("-Djava.net.preferIPv4Stack=true".to_owned());
    assert(text::texts(args@) =~= base_args(java@, shared_config@));
    args
}

fn heap_list(configuration: &Option<Json>) -> (args: Vec<String>)
    ensures
        text::texts(args@) == heap_args(requests::optional(*configuration)),
{
    let (first, largest) = heap_sizes(configuration);
    let mut args: Vec<String> = Vec::new();
    let mut first_arg = "-Xms".to_owned();
    first_arg.append(first.as_str());
    args.push(first_arg);
    if let Some(largest) = largest {
        let mut largest_arg = "-Xmx".to_owned();
        largest_arg.append(largest.as_str());
        args.push(largest_arg);
    }
    assert(text::texts(args@) =~= heap_args(requests::optional(*configuration)));
    args
}

fn module_list() -> (args: Vec<String>)
    ensures
        text::texts(args@) == module_args(),
{
    let mut args: Vec<String> = Vec::new();
    args.push("--add-modules=ALL-SYSTEM".to_owned());
    args.push("--add-opens".to_owned());
    args.push("java.base/java.util=ALL-UNNAMED".to_owned());
    args.push("--add-opens".to_owned());
    args.push("java.base/java.lang=ALL-UNNAMED".to_owned());
    assert(text::texts(args@) =~= module_args());
    args
}

fn last_list(launcher: &str, data: &str, java_major_version: u32) -> (args: Vec<String>)
    ensures
        text::texts(args@) == seq!["-jar"@, launcher@, "-data"@, data@] + limit_args(
            java_major_version,
        ),
{
    let mut args: Vec<String> = Vec::new();
    args.push("-jar".to_owned());
    args.push(launcher.to_owned());
    args.push("-data".to_owned());
    args.push(data.to_owned());
    if java_major_version >= 24 {
        args.push("-Djdk.xml.maxGeneralEntitySizeLimit=0".to_owned());
        args.push("-Djdk.xml.totalEntitySizeLimit=0".to_owned());
    }
    assert(text::texts(args@) =~= seq!["-jar"@, launcher@, "-data"@, data@] + limit_args(
        java_major_version,
    ));
    args
}

/// The command that starts the language server.
pub fn build_jdtls_launch_args(
    java: &str,
    shared_config: &str,
    configuration: &Option<Json>,
    jvm_args: Vec<String>,
    launcher: &str,
    data: &str,
    java_major_version: u32,
) -> (r: Vec<String>)
    ensures
        text::texts(r@) == launch_args(
            java@,
            shared_config@,
            requests::optional(*configuration),
            text::texts(jvm_args@),
            launcher@,
            data@,
            java_major_version,
        ),
{
    let mut args = base_list(java, shared_config);
    push_args(&mut args, &heap_list(configuration));
    push_args(&mut args, &module_list());
    push_args(&mut args, &jvm_args);
    let ghost before = text::texts(args@);
    push_args(&mut args, &last_list(launcher, data, java_major_version));
    assert(text::texts(args@) =~= before + seq!["-jar"@, launcher@, "-data"@, data@] + limit_args(
        java_major_version,
    ));
    args
}

/// The file name of the program that starts the language server.
pub open spec fn binary_name(os: Os) -> Seq<char> {
    match os {
        Os::Windows => "jdtls.bat"@,
        _ => "jdtls"@,
    }
}

/// The file name of the program that starts the language server.
pub fn get_binary_name(os: Os) -> (r: &'static str)
    ensures
        r@ == binary_name(os),
{
    match os {
        Os::Windows => "jdtls.bat",
        _ => "jdtls",
    }
}

/// The directory with the configuration of the language server for the machine.
pub open spec fn shared_config_directory(os: Os, architecture: Architecture) -> Seq<char> {
    match (os, architecture) {
        (Os::Mac, Architecture::Aarch64) => "config_mac_arm"@,
        (Os::Mac, _) => "config_mac"@,
        (Os::Linux, Architecture::Aarch64) => "config_linux_arm"@,
        (Os::Linux, _) => "config_linux"@,
        (Os::Windows, _) => "config_win"@,
    }
}

/// The directory with the configuration of the language server for the machine.
pub fn get_shared_config_directory_name(os: Os, architecture: Architecture) -> (r: &'static str)
    ensures
        r@ == shared_config_directory(os, architecture),
{
    match (os, architecture) {
        (Os::Mac, Architecture::Aarch64) => "config_mac_arm",
        (Os::Mac, _) => "config_mac",
        (Os::Linux, Architecture::Aarch64) => "config_linux_arm",
        (Os::Linux, _) => "config_linux",
        (Os::Windows, _) => "config_win",
    }
}

/// The program that starts the language server, below `install_path`.
pub open spec fn binary_path(install_path: Seq<char>, name: Seq<char>) -> Seq<char> {
    path::joined(path::joined(install_path, "bin"@), name)
}

/// The program that starts the language server, below `install_path`.
pub fn jdtls_binary_path(install_path: &str, name: &str) -> (r: String)
    ensures
        r@ == binary_path(install_path@, name@),
{
    path::join_path(path::join_path(install_path, "bin").as_str(), name)
}

/// What is known of the files of an installation of the language server.
pub struct InstallFiles {
    /// The program that starts it is a file.
    pub binary: bool,
    /// The directory with its configuration for the machine is there.
    pub config: bool,
    /// The launcher without a version in its name is a file.
    pub plain_launcher: bool,
    /// The entries of the directory with the launcher, each with whether it is a file, or why they
    /// could not be read. The name of an entry need not be a text.
    pub plugins: Result<Vec<(Option<String>, bool)>, String>,
}

/// An entry of the directory with the launcher is the launcher.
pub open spec fn is_launcher(entry: (Option<String>, bool)) -> bool {
    entry.1 && (text::optional(entry.0) matches Some(name) && text::starts_with(
        name,
        "org.eclipse.equinox.launcher_"@,
    ) && text::ends_with(name, ".jar"@))
}

/// The place of the first of `entries` that is the launcher; the end where none is.
pub open spec fn launcher_index(entries: Seq<(Option<String>, bool)>) -> int
    decreases entries.len(),
{
    if entries.len() == 0 || is_launcher(entries[0]) {
        0
    } else {
        1 + launcher_index(entries.drop_first())
    }
}

/// The launcher below `base`, or why there is none.
pub open spec fn launcher_in(base: Seq<char>, files: InstallFiles) -> Result<Seq<char>, Seq<char>> {
    let plugins = path::joined(base, "plugins"@);
    if files.plain_launcher {
        Ok(path::joined(plugins, "org.eclipse.equinox.launcher.jar"@))
    } else {
        match files.plugins {
            Ok(entries) => if launcher_index(entries@) < entries@.len() {
                Ok(
                    path::joined(
                        plugins,
                        text::optional(entries@[launcher_index(entries@)].0)->Some_0,
                    ),
                )
            } else {
                Err("Cannot find equinox launcher"@)
            },
            Err(error) => Err("Failed to read plugins directory: "@ + error@),
        }
    }
}

/// The launcher below `base`: the one without a version in its name, or else the first with one.
pub fn find_equinox_launcher(base: &str, files: &InstallFiles) -> (r: Result<String, String>)
    ensures
        (match r {
            Ok(launcher) => launcher_in(base@, *files) == Ok::<Seq<char>, Seq<char>>(launcher@),
            Err(error) => launcher_in(base@, *files) == Err::<Seq<char>, Seq<char>>(error@),
        }),
{
    let plugins = path::join_path(base, "plugins");
    if files.plain_launcher {
        return Ok(path::join_path(plugins.as_str(), "org.eclipse.equinox.launcher.jar"));
    }
    let entries = match &files.plugins {
        Ok(entries) => entries,
        Err(error) => {
            let mut message = "Failed to read plugins directory: ".to_owned();
            message.append(error.as_str());
            return Err(message);
        },
    };
    let prefix = text::chars_of("org.eclipse.equinox.launcher_");
    let suffix = text::chars_of(".jar");
    let mut i: usize = 0;
    assert(entries@.skip(0) =~= entries@);
    while i < entries.len()
        invariant
            i <= entries@.len(),
            !files.plain_launcher,
            files.plugins == Ok::<Vec<(Option<String>, bool)>, String>(*entries),
            plugins@ == path::joined(base@, "plugins"@),
            prefix@ == "org.eclipse.equinox.launcher_"@,
            suffix@ == ".jar"@,
            launcher_index(entries@) == i + launcher_index(entries@.skip(i as int)),
        decreases entries@.len() - i,
    {
        let ghost rest = entries@.skip(i as int);
        assert(rest[0] == entries@[i as int]);
        assert(rest.drop_first() =~= entries@.skip(i + 1));
        if entries[i].1 {
            if let Some(name) = &entries[i].0 {
                let chars = text::chars_of(name.as_str());
                if text::has_prefix(&chars, &prefix) && text::has_suffix(&chars, &suffix) {
                    assert(is_launcher(rest[0]));
                    return Ok(path::join_path(plugins.as_str(), name.as_str()));
                }
            }
        }
        i += 1;
    }
    Err("Cannot find equinox launcher".to_owned())
}

/// The installation is complete.
pub open spec fn complete(files: InstallFiles) -> bool {
    files.binary && files.config && launcher_in(Seq::empty(), files) is Ok
}

/// Whether an installation is complete: it has the program that starts the language server, its
/// configuration for the machine, and its launcher.
pub fn is_complete_jdtls_install(files: &InstallFiles) -> (r: bool)
    ensures
        r == complete(*files),
{
    files.binary && files.config && find_equinox_launcher("", files).is_ok()
}

/// An entry of the directory where the versions of the Java language server are installed.
pub struct JdtlsEntry {
    pub path: String,
    pub is_directory: bool,
    /// What is there of an installation.
    pub files: InstallFiles,
    /// When it was made, where that is known.
    pub created: Option<i128>,
}

/// When the entries were made, of those that are complete installations.
pub open spec fn installation_times(entries: Seq<JdtlsEntry>) -> Seq<Option<i128>> {
    Seq::new(
        entries.len(),
        |i: int|
            if entries[i].is_directory && complete(entries[i].files) {
                entries[i].created
            } else {
                None
            },
    )
}

impl Jdtls {
    /// The newest complete installation among the entries, the last of those that are equally new.
    pub fn find_local(entries: Vec<JdtlsEntry>) -> (r: Option<String>)
        ensures
            text::optional(r) == match downloadable::newest_index(
                installation_times(entries@),
                entries@.len() as int,
            ) {
                Some(i) => Some(entries@[i].path@),
                None => None,
            },
    {
        let mut candidates: Vec<(String, Option<i128>)> = Vec::new();
        let mut i: usize = 0;
        while i < entries.len()
            invariant
                i <= entries@.len(),
                candidates@.len() == i,
                forall|j: int|
                    0 <= j < i ==> (#[trigger] candidates@[j]).0@ == entries@[j].path@
                        && candidates@[j].1 == installation_times(entries@)[j],
            decreases entries@.len() - i,
        {
            let entry = &entries[i];
            let created = if entry.is_directory && is_complete_jdtls_install(&entry.files) {
                entry.created
            } else {
                None
            };
            candidates.push((entry.path.clone(), created));
            i += 1;
        }
        proof {
            assert(downloadable::creation_times(candidates@) == installation_times(entries@));
            downloadable::lemma_newest(installation_times(entries@), entries@.len() as int);
        }
        downloadable::newest(&candidates)
    }
}

/// An entry of the directory where Lombok is installed.
pub struct LombokEntry {
    pub path: String,
    /// Its name, where that is a text.
    pub name: Option<String>,
    pub is_file: bool,
    /// When it was made, where that is known.
    pub created: Option<i128>,
}

/// Whether a file of this name has the extension `jar`; one that only consists of it has not.
pub open spec fn jar_name(name: Seq<char>) -> bool {
    text::ends_with(name, ".jar"@) && name != ".jar"@
}

/// When the entries were made, of those that are archives of classes.
pub open spec fn jar_times(entries: Seq<LombokEntry>) -> Seq<Option<i128>> {
    Seq::new(
        entries.len(),
        |i: int|
            if entries[i].is_file && entries[i].name is Some && jar_name(
                entries[i].name->Some_0@,
            ) {
                entries[i].created
            } else {
                None
            },
    )
}

/// Whether a file of this name has the extension `jar`.
fn is_jar_name(name: &str) -> (r: bool)
    ensures
        r == jar_name(name@),
{
    text::has_suffix(text::chars_of(name).as_slice(), text::chars_of(".jar").as_slice())
        && !text::same_text(name, ".jar")
}

impl Lombok {
    /// The newest archive of classes among the entries, the last of those that are equally new.
    pub fn find_local(entries: Vec<LombokEntry>) -> (r: Option<String>)
        ensures
            text::optional(r) == match downloadable::newest_index(
                jar_times(entries@),
                entries@.len() as int,
            ) {
                Some(i) => Some(entries@[i].path@),
                None => None,
            },
    {
        let mut candidates: Vec<(String, Option<i128>)> = Vec::new();
        let mut i: usize = 0;
        while i < entries.len()
            invariant
                i <= entries@.len(),
                candidates@.len() == i,
                forall|j: int|
                    0 <= j < i ==> (#[trigger] candidates@[j]).0@ == entries@[j].path@
                        && candidates@[j].1 == jar_times(entries@)[j],
            decreases entries@.len() - i,
        {
            let entry = &entries[i];
            let is_jar = match &entry.name {
                Some(name) => entry.is_file && is_jar_name(name.as_str()),
                None => false,
            };
            let created = if is_jar {
                entry.created
            } else {
                None
            };
            candidates.push((entry.path.clone(), created));
            i += 1;
        }
        proof {
            assert(downloadable::creation_times(candidates@) == jar_times(entries@));
            downloadable::lemma_newest(jar_times(entries@), entries@.len() as int);
        }
        downloadable::newest(&candidates)
    }
}

/// Whether an installation is complete does not depend on where it is.
pub proof fn lemma_complete_anywhere(base: Seq<char>, files: InstallFiles)
    ensures
        complete(files) == (files.binary && files.config && launcher_in(base, files) is Ok),
{
}

/// The version `version` below `prefix`, where it is complete.
pub fn installed_jdtls_version(prefix: &str, version: &str, files: &InstallFiles) -> (r: Option<
    String,
>)
    ensures
        text::optional(r) == if complete(*files) {
            Some(path::joined(prefix@, version@))
        } else {
            None
        },
{
    if is_complete_jdtls_install(files) {
        Some(path::join_path(prefix, version))
    } else {
        None
    }
}

/// The address that names the build of the version `version`.
pub fn milestone_url(version: &str) -> (r: String)
    ensures
        r@ == milestone_address(version@),
{
    let mut r = "https://download.eclipse.org/jdtls/milestones/".to_owned();
    r.append(version);
    r.append("/latest.txt");
    r
}

/// The address of the version `version`, given what the address that names its build says.
pub fn jdtls_download_url(version: &str, milestone: &str) -> (r: String)
    ensures
        r@ == build_address(version@, milestone@),
{
    let chars = text::chars_of(milestone);
    let mut r = "https://www.eclipse.org/downloads/download.php?file=/jdtls/milestones/".to_owned();
    r.append(version);
    r.append("/");
    r.append(text::string_of(text::without_trailing_space(&chars)).as_str());
    r
}

/// The SHA-1 digest of `input` in hexadecimal.
pub open spec fn sha1_hex(input: Seq<char>) -> Seq<char> {
    codec::lower_hex(codec::sha1_digest(vstd::utf8::encode_utf8(input)))
}

/// The SHA-1 digest of `input` in hexadecimal.
pub fn get_sha1_hex(input: &str) -> (r: String)
    ensures
        r@ == sha1_hex(input@),
{
    codec::hex_of(&codec::sha1_of(input.as_bytes()))
}

/// `n` in decimal, for a number of 128 bits.
fn wide_decimal(n: u128) -> (r: Vec<char>)
    ensures
        r@ == text::decimal(n as nat),
    decreases n,
{
    let last = (48 + (n % 10) as u8) as char;
    if n < 10 {
        let mut r: Vec<char> = Vec::new();
        r.push(last);
        assert(r@ =~= text::decimal(n as nat));
        r
    } else {
        let mut r = wide_decimal(n / 10);
        r.push(last);
        r
    }
}

/// The name of the directory in which the version `version` is unpacked in the attempt `attempt`.
pub open spec fn staging_name(version: Seq<char>, nonce: u128, attempt: u32) -> Seq<char> {
    "."@ + sha1_hex(version) + "."@ + text::decimal(nonce as nat) + "."@ + text::decimal(
        attempt as nat,
    ) + ".tmp"@
}

/// The directory below `prefix` in which the version `version` is unpacked in the attempt
/// `attempt`.
pub open spec fn staging_directory(
    prefix: Seq<char>,
    version: Seq<char>,
    nonce: u128,
    attempt: u32,
) -> Seq<char> {
    path::joined(prefix, staging_name(version, nonce, attempt))
}

/// The directory below `prefix` in which the version `version` is unpacked in the attempt
/// `attempt`.
pub fn staging_path(prefix: &str, version: &str, nonce: u128, attempt: u32) -> (r: String)
    ensures
        r@ == staging_directory(prefix@, version@, nonce, attempt),
{
    let mut name = ".".to_owned();
    name.append(get_sha1_hex(version).as_str());
    name.append(".");
    name.append(text::string_of(&wide_decimal(nonce)).as_str());
    name.append(".");
    name.append(text::string_of(&text::decimal_chars(attempt as u64)).as_str());
    name.append(".tmp");
    path::join_path(prefix, name.as_str())
}

/// The first attempt whose directory is not there, of those that `taken` tells of.
pub open spec fn free_attempt(taken: Seq<bool>) -> int
    decreases taken.len(),
{
    if taken.len() == 0 || !taken[0] {
        0
    } else {
        1 + free_attempt(taken.drop_first())
    }
}

/// A directory below `prefix` in which the version `version` can be unpacked: the first that is not
/// there, given for each attempt whether it is.
pub fn jdtls_staging_path(prefix: &str, version: &str, nonce: u128, taken: &Vec<bool>) -> (r: Result<
    String,
    String,
>)
    requires
        taken@.len() == util::NAME_ATTEMPTS,
    ensures
        (match r {
            Ok(directory) => free_attempt(taken@) < taken@.len() && directory@
                == staging_directory(prefix@, version@, nonce, free_attempt(taken@) as u32),
            Err(error) => free_attempt(taken@) == taken@.len() && error@
                == "Failed to allocate a JDTLS staging directory for "@ + version@,
        }),
{
    let mut i: usize = 0;
    assert(taken@.skip(0) =~= taken@);
    while i < taken.len()
        invariant
            i <= taken@.len(),
            taken@.len() == util::NAME_ATTEMPTS,
            free_attempt(taken@) == i + free_attempt(taken@.skip(i as int)),
        decreases taken@.len() - i,
    {
        let ghost rest = taken@.skip(i as int);
        assert(rest[0] == taken@[i as int]);
        assert(rest.drop_first() =~= taken@.skip(i + 1));
        if !taken[i] {
            return Ok(staging_path(prefix, version, nonce, i as u32));
        }
        i += 1;
    }
    let mut error = "Failed to allocate a JDTLS staging directory for ".to_owned();
    error.append(version);
    Err(error)
}

/// What to do to put an unpacked installation in its place.
pub enum PromoteStep {
    /// The unpacked installation is not needed: remove it.
    RemoveStaging,
    /// Remove what is in its place, then move it there.
    Replace,
    /// Move it to its place.
    Move,
    Fail(String),
}

/// What to do to put an unpacked installation in its place, given whether it is complete, whether
/// what is in its place is, and whether there is anything. `shown` is where it was unpacked, as
/// that is shown.
pub fn promote_staged_jdtls(
    staged_complete: bool,
    installed_complete: bool,
    installed_exists: bool,
    shown: &str,
) -> (r: PromoteStep)
    ensures
        !staged_complete ==> (r matches PromoteStep::Fail(error) && error@
            == "Downloaded JDTLS installation is incomplete at "@ + shown@),
        staged_complete && installed_complete ==> r is RemoveStaging,
        staged_complete && !installed_complete && installed_exists ==> r is Replace,
        staged_complete && !installed_complete && !installed_exists ==> r is Move,
{
    if !staged_complete {
        let mut error = "Downloaded JDTLS installation is incomplete at ".to_owned();
        error.append(shown);
        return PromoteStep::Fail(error);
    }
    if installed_complete {
        PromoteStep::RemoveStaging
    } else if installed_exists {
        PromoteStep::Replace
    } else {
        PromoteStep::Move
    }
}

/// What to do once an unpacked installation could not be moved to its place, for `reason`, given
/// whether there is a complete one by now: another process may have put it there.
pub fn after_failed_move(installed_complete: bool, shown: &str, reason: &str) -> (r: PromoteStep)
    ensures
        installed_complete ==> r is RemoveStaging,
        !installed_complete ==> (r matches PromoteStep::Fail(error) && error@
            == "Failed to promote JDTLS staging directory "@ + shown@ + ": "@ + reason@),
{
    if installed_complete {
        PromoteStep::RemoveStaging
    } else {
        let mut error = "Failed to promote JDTLS staging directory ".to_owned();
        error.append(shown);
        error.append(": ");
        error.append(reason);
        PromoteStep::Fail(error)
    }
}

/// What becomes of the entry `name` among the installations, where only the version `version` is
/// to stay: other installations go, but not those that are being unpacked.
pub open spec fn old_removal(
    name: Option<Seq<char>>,
    kind: EntryKind,
    version: Seq<char>,
) -> Removal {
    match name {
        Some(name) => if name != version && !text::starts_with(name, "."@) && kind
            == EntryKind::Directory {
            Removal::Directory
        } else {
            Removal::Keep
        },
        None => Removal::Keep,
    }
}

/// What becomes of the entry `name` among the installations, where only the version `version` is
/// to stay.
pub fn removal_of_old_installations(name: &Option<String>, kind: EntryKind, version: &str) -> (r:
    Removal)
    ensures
        r == old_removal(text::optional(*name), kind, version@),
{
    let name = match name {
        Some(name) => name,
        None => return Removal::Keep,
    };
    let chars = text::chars_of(name.as_str());
    let dot = text::chars_of(".");
    if text::same_text(name.as_str(), version) || text::has_prefix(&chars, &dot) {
        return Removal::Keep;
    }
    match kind {
        EntryKind::Directory => Removal::Directory,
        _ => Removal::Keep,
    }
}

/// A directory in which an installation is being unpacked is not removed with the old
/// installations, whichever version is to stay, and is not the directory of a version whose name
/// has no leading dot.
pub proof fn lemma_staging_survives_cleanup(
    version: Seq<char>,
    nonce: u128,
    attempt: u32,
    kind: EntryKind,
    kept: Seq<char>,
)
    ensures
        old_removal(Some(staging_name(version, nonce, attempt)), kind, kept) == Removal::Keep,
        !text::starts_with(kept, "."@) ==> staging_name(version, nonce, attempt) != kept,
{
    reveal_strlit(".");
    assert(staging_name(version, nonce, attempt).subrange(0, 1) =~= "."@);
}

/// The directory below which caches go, where the environment tells of one.
pub open spec fn cache_home(variables: Seq<(Seq<char>, Seq<char>)>, os: Os) -> Option<Seq<char>> {
    match os {
        Os::Windows => environment::value_of(variables, "APPDATA"@),
        _ => match environment::value_of(variables, "XDG_CACHE_HOME"@) {
            Some(directory) => Some(directory),
            None => match environment::value_of(variables, "HOME"@) {
                Some(home) => Some(
                    if os == Os::Mac {
                        path::joined(path::joined(home, "Library"@), "Caches"@)
                    } else {
                        path::joined(home, ".cache"@)
                    },
                ),
                None => None,
            },
        },
    }
}

/// The name of the directory for the data of the language server for the worktree `root`.
pub open spec fn data_directory_name(root: Seq<char>) -> Seq<char> {
    "jdtls-"@ + sha1_hex(root)
}

/// The directory for the data of the language server for the worktree `root`: below that for
/// caches, or else below the current directory. `current` is the latter, or why it is not known.
pub fn get_jdtls_data_path(
    environment: &Vec<(String, String)>,
    os: Os,
    root: &str,
    current: Result<String, String>,
) -> (r: Result<String, String>)
    ensures
        (match cache_home(environment::variables(environment@), os) {
            Some(home) => r matches Ok(directory) && directory@ == path::joined(
                home,
                data_directory_name(root@),
            ),
            None => match current {
                Ok(here) => r matches Ok(directory) && directory@ == path::joined(
                    path::joined(here@, "caches"@),
                    data_directory_name(root@),
                ),
                Err(reason) => r matches Err(error) && error@
                    == "Failed to get current directory: "@ + reason@,
            },
        }),
{
    let home = match os {
        Os::Windows => match environment::variable(environment, "APPDATA") {
            Some(directory) => Some(directory.clone()),
            None => None,
        },
        _ => match environment::variable(environment, "XDG_CACHE_HOME") {
            Some(directory) => Some(directory.clone()),
            None => match environment::variable(environment, "HOME") {
                Some(home) => Some(
                    match os {
                        Os::Mac => path::join_path(
                            path::join_path(home.as_str(), "Library").as_str(),
                            "Caches",
                        ),
                        _ => path::join_path(home.as_str(), ".cache"),
                    },
                ),
                None => None,
            },
        },
    };
    let base = match home {
        Some(home) => home,
        None => match current {
            Ok(here) => path::join_path(here.as_str(), "caches"),
            Err(reason) => {
                let mut error = "Failed to get current directory: ".to_owned();
                error.append(reason.as_str());
                return Err(error);
            },
        },
    };
    let mut name = "jdtls-".to_owned();
    name.append(get_sha1_hex(root).as_str());
    Ok(path::join_path(base.as_str(), name.as_str()))
}

/// How far the installation of a version of the language server has come.
#[derive(Clone, Copy, Debug, PartialEq, Eq, Structural)]
pub enum InstallPhase {
    /// The version that is in its place is looked at.
    Checking,
    /// The name of its build is asked for.
    Naming,
    /// It is downloaded and unpacked.
    Unpacking,
    /// Its program is made executable.
    Enabling,
    /// What was unpacked is looked at.
    Inspecting,
    /// What was unpacked is removed, since it is not needed.
    Discarding,
    /// What is in its place is removed.
    Clearing,
    /// It is moved to its place.
    Moving,
    Done,
}

/// The installation of a version of the language server below `prefix`.
pub struct JdtlsInstallation {
    pub prefix: String,
    pub version: String,
    pub binary_name: String,
    pub phase: InstallPhase,
    /// Where it is unpacked, once that is known.
    pub staging: String,
    /// Where it is downloaded from, once that is known.
    pub url: String,
}

/// What a `JdtlsInstallation` holds.
#[verifier::ext_equal]
pub struct InstallationView {
    pub prefix: Seq<char>,
    pub version: Seq<char>,
    pub binary_name: Seq<char>,
    pub phase: InstallPhase,
    pub staging: Seq<char>,
    pub url: Seq<char>,
}

impl View for JdtlsInstallation {
    type V = InstallationView;

    open spec fn view(&self) -> InstallationView {
        InstallationView {
            prefix: self.prefix@,
            version: self.version@,
            binary_name: self.binary_name@,
            phase: self.phase,
            staging: self.staging@,
            url: self.url@,
        }
    }
}

/// What has happened to an installation.
pub enum InstallEvent {
    /// The version that is in its place was looked at.
    Checked(InstallFiles),
    /// The name of the build has come, or why it has not. The directories that could be unpacked
    /// to are there or not, for each attempt, and `nonce` tells this installation from others, or
    /// why it could not be had.
    Named { milestone: Result<String, String>, nonce: Result<u128, String>, taken: Vec<bool> },
    /// The last action succeeded or failed.
    Finished(Result<(), String>),
    /// What was unpacked and what is in its place were looked at.
    Inspected { staged: InstallFiles, installed: InstallFiles, installed_exists: bool },
    /// The last action failed, and what is in its place was looked at.
    FailedToMove { reason: String, installed: InstallFiles },
}

/// What to do next for an installation.
pub enum InstallAction {
    /// Ask for the name of the build at this address.
    Name(String),
    /// Download from `url` and unpack to `to`.
    Unpack { url: String, to: String },
    /// Make this program executable.
    Enable(String),
    /// Look at what was unpacked and what is in its place.
    Inspect,
    /// Remove this directory.
    Remove(String),
    /// Move this directory to that.
    Move(String, String),
    /// The version is installed in this directory.
    Done(String),
    /// Remove the directory where it was unpacked, then fail.
    CleanUp(String, String),
    Fail(String),
    /// Nothing: what has happened does not belong here.
    Ignore,
}

/// What an `InstallAction` holds.
pub enum ActionView {
    Name(Seq<char>),
    Unpack { url: Seq<char>, to: Seq<char> },
    Enable(Seq<char>),
    Inspect,
    Remove(Seq<char>),
    Move(Seq<char>, Seq<char>),
    Done(Seq<char>),
    CleanUp(Seq<char>, Seq<char>),
    Fail(Seq<char>),
    Ignore,
}

impl View for InstallAction {
    type V = ActionView;

    open spec fn view(&self) -> ActionView {
        match self {
            InstallAction::Name(url) => ActionView::Name(url@),
            InstallAction::Unpack { url, to } => ActionView::Unpack { url: url@, to: to@ },
            InstallAction::Enable(program) => ActionView::Enable(program@),
            InstallAction::Inspect => ActionView::Inspect,
            InstallAction::Remove(directory) => ActionView::Remove(directory@),
            InstallAction::Move(from, to) => ActionView::Move(from@, to@),
            InstallAction::Done(directory) => ActionView::Done(directory@),
            InstallAction::CleanUp(directory, error) => ActionView::CleanUp(directory@, error@),
            InstallAction::Fail(error) => ActionView::Fail(error@),
            InstallAction::Ignore => ActionView::Ignore,
        }
    }
}

/// The address that names the build of the version `version`.
pub open spec fn milestone_address(version: Seq<char>) -> Seq<char> {
    "https://download.eclipse.org/jdtls/milestones/"@ + version + "/latest.txt"@
}

/// The address of the version `version`, given what the address that names its build says.
pub open spec fn build_address(version: Seq<char>, milestone: Seq<char>) -> Seq<char> {
    "https://www.eclipse.org/downloads/download.php?file=/jdtls/milestones/"@ + version + "/"@
        + text::trim_end(milestone)
}

impl InstallationView {
    /// Where the version goes.
    pub open spec fn place(self) -> Seq<char> {
        path::joined(self.prefix, self.version)
    }

    pub open spec fn at(self, phase: InstallPhase) -> InstallationView {
        InstallationView { phase, ..self }
    }

    /// The installation is given up, for `error`.
    pub open spec fn given_up(self, error: Seq<char>) -> (InstallationView, ActionView) {
        (self.at(InstallPhase::Done), ActionView::CleanUp(self.staging, error))
    }

    /// The version is installed.
    pub open spec fn installed(self) -> (InstallationView, ActionView) {
        (self.at(InstallPhase::Done), ActionView::Done(self.place()))
    }

    /// `event` has happened. `shown` is where the version is unpacked, as that is shown, and
    /// `shown_program` is its program.
    pub open spec fn stepped(
        self,
        event: InstallEvent,
        shown: Seq<char>,
        shown_program: Seq<char>,
    ) -> (InstallationView, ActionView) {
        match (self.phase, event) {
            (InstallPhase::Checking, InstallEvent::Checked(files)) => if complete(files) {
                self.installed()
            } else {
                (
                    self.at(InstallPhase::Naming),
                    ActionView::Name(milestone_address(self.version)),
                )
            },
            (InstallPhase::Naming, InstallEvent::Named { milestone, nonce, taken }) => match (
                milestone,
                nonce,
            ) {
                (Err(error), _) => (self.at(InstallPhase::Done), ActionView::Fail(error@)),
                (Ok(_), Err(error)) => (self.at(InstallPhase::Done), ActionView::Fail(error@)),
                (Ok(milestone), Ok(nonce)) => if free_attempt(taken@) < taken@.len() {
                    let url = build_address(self.version, milestone@);
                    let staging = staging_directory(
                        self.prefix,
                        self.version,
                        nonce,
                        free_attempt(taken@) as u32,
                    );
                    (
                        InstallationView { phase: InstallPhase::Unpacking, staging, url, ..self },
                        ActionView::Unpack { url, to: staging },
                    )
                } else {
                    (
                        self.at(InstallPhase::Done),
                        ActionView::Fail(
                            "Failed to allocate a JDTLS staging directory for "@ + self.version,
                        ),
                    )
                },
            },
            (InstallPhase::Unpacking, InstallEvent::Finished(result)) => match result {
                Ok(()) => (
                    self.at(InstallPhase::Enabling),
                    ActionView::Enable(binary_path(self.staging, self.binary_name)),
                ),
                Err(reason) => self.given_up(
                    "Failed to download JDTLS from "@ + self.url + ": "@ + reason@,
                ),
            },
            (InstallPhase::Enabling, InstallEvent::Finished(result)) => match result {
                Ok(()) => (self.at(InstallPhase::Inspecting), ActionView::Inspect),
                Err(reason) => self.given_up(
                    "Failed to make JDTLS executable at "@ + shown_program + ": "@ + reason@,
                ),
            },
            (
                InstallPhase::Inspecting,
                InstallEvent::Inspected { staged, installed, installed_exists },
            ) => if !complete(staged) {
                self.given_up("Downloaded JDTLS installation is incomplete at "@ + shown)
            } else if complete(installed) {
                (self.at(InstallPhase::Discarding), ActionView::Remove(self.staging))
            } else if installed_exists {
                (self.at(InstallPhase::Clearing), ActionView::Remove(self.place()))
            } else {
                (self.at(InstallPhase::Moving), ActionView::Move(self.staging, self.place()))
            },
            (InstallPhase::Discarding, InstallEvent::Finished(result)) => match result {
                Ok(()) => self.installed(),
                Err(reason) => self.given_up(
                    "Failed to remove redundant JDTLS staging directory: "@ + reason@,
                ),
            },
            (InstallPhase::Clearing, InstallEvent::Finished(result)) => match result {
                Ok(()) => (
                    self.at(InstallPhase::Moving),
                    ActionView::Move(self.staging, self.place()),
                ),
                Err(reason) => self.given_up(
                    "Failed to remove incomplete JDTLS installation: "@ + reason@,
                ),
            },
            (InstallPhase::Moving, InstallEvent::Finished(result)) => match result {
                Ok(()) => self.installed(),
                Err(reason) => self.given_up(
                    "Failed to promote JDTLS staging directory "@ + shown + ": "@ + reason@,
                ),
            },
            (InstallPhase::Moving, InstallEvent::FailedToMove { reason, installed }) => if complete(
                installed,
            ) {
                (self.at(InstallPhase::Discarding), ActionView::Remove(self.staging))
            } else {
                self.given_up(
                    "Failed to promote JDTLS staging directory "@ + shown + ": "@ + reason@,
                )
            },
            _ => (self, ActionView::Ignore),
        }
    }
}

impl JdtlsInstallation {
    /// The installation of the version `version` below `prefix`, where the program that starts the
    /// language server is called `binary_name`.
    pub fn new(prefix: &str, version: &str, binary_name: &str) -> (r: Self)
        ensures
            r@ == (InstallationView {
                prefix: prefix@,
                version: version@,
                binary_name: binary_name@,
                phase: InstallPhase::Checking,
                staging: Seq::empty(),
                url: Seq::empty(),
            }),
    {
        JdtlsInstallation {
            prefix: prefix.to_owned(),
            version: version.to_owned(),
            binary_name: binary_name.to_owned(),
            phase: InstallPhase::Checking,
            staging: String::new(),
            url: String::new(),
        }
    }

    fn place(&self) -> (r: String)
        ensures
            r@ == self@.place(),
    {
        path::join_path(self.prefix.as_str(), self.version.as_str())
    }

    fn give_up(&mut self, error: String) -> (r: InstallAction)
        ensures
            old(self)@.given_up(error@) == (final(self)@, r@),
    {
        self.phase = InstallPhase::Done;
        InstallAction::CleanUp(self.staging.clone(), error)
    }

    fn give_up_for(&mut self, start: &str, reason: String) -> (r: InstallAction)
        ensures
            old(self)@.given_up(start@ + reason@) == (final(self)@, r@),
    {
        let mut error = start.to_owned();
        error.append(reason.as_str());
        self.give_up(error)
    }

    fn install(&mut self) -> (r: InstallAction)
        ensures
            old(self)@.installed() == (final(self)@, r@),
    {
        self.phase = InstallPhase::Done;
        InstallAction::Done(self.place())
    }

    fn name_build(
        &mut self,
        milestone: Result<String, String>,
        nonce: Result<u128, String>,
        taken: Vec<bool>,
    ) -> (r: InstallAction)
        requires
            old(self)@.phase == InstallPhase::Naming,
            taken@.len() == util::NAME_ATTEMPTS,
        ensures
            old(self)@.stepped(
                InstallEvent::Named { milestone, nonce, taken },
                Seq::empty(),
                Seq::empty(),
            ) == (final(self)@, r@),
    {
        let milestone = match milestone {
            Ok(milestone) => milestone,
            Err(error) => {
                self.phase = InstallPhase::Done;
                return InstallAction::Fail(error);
            },
        };
        let nonce = match nonce {
            Ok(nonce) => nonce,
            Err(error) => {
                self.phase = InstallPhase::Done;
                return InstallAction::Fail(error);
            },
        };
        match jdtls_staging_path(self.prefix.as_str(), self.version.as_str(), nonce, &taken) {
            Ok(staging) => {
                let url = jdtls_download_url(self.version.as_str(), milestone.as_str());
                self.phase = InstallPhase::Unpacking;
                self.staging = staging.clone();
                self.url = url.clone();
                InstallAction::Unpack { url, to: staging }
            },
            Err(error) => {
                self.phase = InstallPhase::Done;
                InstallAction::Fail(error)
            },
        }
    }

    fn inspect(
        &mut self,
        staged: InstallFiles,
        installed: InstallFiles,
        installed_exists: bool,
        shown: &str,
    ) -> (r: InstallAction)
        requires
            old(self)@.phase == InstallPhase::Inspecting,
        ensures
            old(self)@.stepped(
                InstallEvent::Inspected { staged, installed, installed_exists },
                shown@,
                Seq::empty(),
            ) == (final(self)@, r@),
    {
        let step = promote_staged_jdtls(
            is_complete_jdtls_install(&staged),
            is_complete_jdtls_install(&installed),
            installed_exists,
            shown,
        );
        match step {
            PromoteStep::RemoveStaging => {
                self.phase = InstallPhase::Discarding;
                InstallAction::Remove(self.staging.clone())
            },
            PromoteStep::Replace => {
                self.phase = InstallPhase::Clearing;
                InstallAction::Remove(self.place())
            },
            PromoteStep::Move => {
                self.phase = InstallPhase::Moving;
                InstallAction::Move(self.staging.clone(), self.place())
            },
            PromoteStep::Fail(error) => self.give_up(error),
        }
    }

    fn finish(&mut self, result: Result<(), String>, shown: &str, shown_program: &str) -> (r:
        InstallAction)
        ensures
            old(self)@.stepped(InstallEvent::Finished(result), shown@, shown_program@) == (
                final(self)@,
                r@,
            ),
    {
        match self.phase {
            InstallPhase::Unpacking => match result {
                Ok(()) => {
                    self.phase = InstallPhase::Enabling;
                    InstallAction::Enable(
                        jdtls_binary_path(self.staging.as_str(), self.binary_name.as_str()),
                    )
                },
                Err(reason) => {
                    let mut start = "Failed to download JDTLS from ".to_owned();
                    start.append(self.url.as_str());
                    start.append(": ");
                    self.give_up_for(start.as_str(), reason)
                },
            },
            InstallPhase::Enabling => match result {
                Ok(()) => {
                    self.phase = InstallPhase::Inspecting;
                    InstallAction::Inspect
                },
                Err(reason) => {
                    let mut start = "Failed to make JDTLS executable at ".to_owned();
                    start.append(shown_program);
                    start.append(": ");
                    self.give_up_for(start.as_str(), reason)
                },
            },
            InstallPhase::Discarding => match result {
                Ok(()) => self.install(),
                Err(reason) => self.give_up_for(
                    "Failed to remove redundant JDTLS staging directory: ",
                    reason,
                ),
            },
            InstallPhase::Clearing => match result {
                Ok(()) => {
                    self.phase = InstallPhase::Moving;
                    InstallAction::Move(self.staging.clone(), self.place())
                },
                Err(reason) => self.give_up_for(
                    "Failed to remove incomplete JDTLS installation: ",
                    reason,
                ),
            },
            InstallPhase::Moving => match result {
                Ok(()) => self.install(),
                Err(reason) => {
                    let mut start = "Failed to promote JDTLS staging directory ".to_owned();
                    start.append(shown);
                    start.append(": ");
                    self.give_up_for(start.as_str(), reason)
                },
            },
            _ => InstallAction::Ignore,
        }
    }

    /// Takes note of what has happened, and says what to do next. `shown` is where the version is
    /// unpacked, as that is shown, and `shown_program` is its program.
    pub fn step(&mut self, event: InstallEvent, shown: &str, shown_program: &str) -> (r:
        InstallAction)
        requires
            event matches InstallEvent::Named { taken, .. } ==> taken@.len() == util::NAME_ATTEMPTS,
        ensures
            old(self)@.stepped(event, shown@, shown_program@) == (final(self)@, r@),
    {
        match event {
            InstallEvent::Checked(files) => match self.phase {
                InstallPhase::Checking => if is_complete_jdtls_install(&files) {
                    self.install()
                } else {
                    self.phase = InstallPhase::Naming;
                    InstallAction::Name(milestone_url(self.version.as_str()))
                },
                _ => InstallAction::Ignore,
            },
            InstallEvent::Named { milestone, nonce, taken } => match self.phase {
                InstallPhase::Naming => self.name_build(milestone, nonce, taken),
                _ => InstallAction::Ignore,
            },
            InstallEvent::Finished(result) => self.finish(result, shown, shown_program),
            InstallEvent::Inspected { staged, installed, installed_exists } => match self.phase {
                InstallPhase::Inspecting => self.inspect(
                    staged,
                    installed,
                    installed_exists,
                    shown,
                ),
                _ => InstallAction::Ignore,
            },
            InstallEvent::FailedToMove { reason, installed } => match self.phase {
                InstallPhase::Moving => match after_failed_move(
                    is_complete_jdtls_install(&installed),
                    shown,
                    reason.as_str(),
                ) {
                    PromoteStep::RemoveStaging => {
                        self.phase = InstallPhase::Discarding;
                        InstallAction::Remove(self.staging.clone())
                    },
                    PromoteStep::Fail(error) => self.give_up(error),
                    _ => InstallAction::Ignore,
                },
                _ => InstallAction::Ignore,
            },
        }
    }
}

/// A version is only said to be installed where a complete one is: either it was in its place, or
/// what was unpacked was complete and took its place, or another complete one is there.
pub proof fn lemma_installed_is_complete(
    state: InstallationView,
    event: InstallEvent,
    shown: Seq<char>,
    shown_program: Seq<char>,
)
    ensures
        ({
            let (after, action) = state.stepped(event, shown, shown_program);
            &&& action is Done ==> {
                ||| event matches InstallEvent::Checked(files) && complete(files)
                ||| state.phase == InstallPhase::Moving
                ||| state.phase == InstallPhase::Discarding
            }
            &&& after.phase == InstallPhase::Moving && state.phase != InstallPhase::Moving ==> {
                ||| event matches InstallEvent::Inspected { staged, .. } && complete(staged)
                ||| state.phase == InstallPhase::Clearing
            }
            &&& after.phase == InstallPhase::Clearing && state.phase != InstallPhase::Clearing ==> (
            event matches InstallEvent::Inspected { staged, .. } && complete(staged))
            &&& after.phase == InstallPhase::Discarding && state.phase != InstallPhase::Discarding
                ==> {
                ||| event matches InstallEvent::Inspected { installed, .. } && complete(installed)
                ||| event matches InstallEvent::FailedToMove { installed, .. } && complete(
                    installed,
                )
            }
        }),
{
}

/// A number with `G`, `M` or `K` after it, of either case, stands for as many times 1024 to the third,
/// second or first power bytes, and one without for as many bytes, whatever white space is around it.
pub proof fn lemma_memory_sizes(start: Seq<char>, n: nat, unit: char, end: Seq<char>)
    requires
        text::is_blank(start),
        text::is_blank(end),
    ensures
        ({
            let size = memory_bytes(start + text::decimal(n).push(unit) + end);
            let fits = |bytes: nat| if bytes <= u64::MAX {
                Some(bytes as u64)
            } else {
                None
            };
            &&& unit == 'G' || unit == 'g' ==> size == fits(n * (1024 * 1024 * 1024))
            &&& unit == 'M' || unit == 'm' ==> size == fits(n * (1024 * 1024))
            &&& unit == 'K' || unit == 'k' ==> size == fits(n * 1024)
            &&& memory_bytes(start + text::decimal(n) + end) == fits(n)
        }),
{
    let digits = text::decimal(n);
    text::lemma_decimal_digits(n);
    text::lemma_decimal_value(n);
    assert('0' <= digits[0] <= '9');
    assert('0' <= digits[digits.len() - 1] <= '9');
    text::lemma_trim_inner(start, digits, end);
    assert(n * 1 == n) by (nonlinear_arith);
    if memory_unit(unit) is Some {
        let size = digits.push(unit);
        assert(size[0] == digits[0]);
        assert(size.last() == unit);
        text::lemma_trim_inner(start, size, end);
        assert(size.drop_last() =~= digits);
    }
}

/// What is no digit cannot be read in a memory size, but for a unit at its end and a plus sign at its
/// beginning.
pub proof fn lemma_memory_size_is_number(s: Seq<char>, i: int)
    requires
        memory_bytes(s) is Some,
        0 <= i < text::trim(s).len(),
    ensures
        ({
            let size = text::trim(s);
            ||| '0' <= size[i] <= '9'
            ||| i == 0 && size[i] == '+'
            ||| i == size.len() - 1 && seq!['G', 'g', 'M', 'm', 'K', 'k'].contains(size[i])
        }),
{
    let size = text::trim(s);
    let units = seq!['G', 'g', 'M', 'm', 'K', 'k'];
    assert(units[0] == 'G' && units[1] == 'g' && units[2] == 'M' && units[3] == 'm' && units[4]
        == 'K' && units[5] == 'k');
    let digits = match memory_unit(size.last()) {
        Some(_) => size.drop_last(),
        None => size,
    };
    if i < digits.len() {
        assert(digits[i] == size[i]);
        if digits[0] == '+' {
            if i > 0 {
                text::lemma_digits_value(digits.drop_first(), i - 1);
                assert(digits.drop_first()[i - 1] == digits[i]);
            }
        } else {
            text::lemma_digits_value(digits, i);
        }
    } else {
        assert(units.contains(size[i]));
    }
}

/// The text that the settings hold under `key`.
pub open spec fn configured_text(configuration: Option<JsonView>, key: Seq<char>) -> Option<Seq<char>> {
    match configuration {
        Some(settings) => match settings.get(key) {
            Some(JsonView::Str(s)) => Some(s),
            _ => None,
        },
        None => None,
    }
}

/// Java is told the size of the heap by the settings. Where `max_memory` is a text, it gets `-Xms` and,
/// right after it, `-Xmx`, with `min_memory` or else `1G` and with `max_memory`, in one order or the
/// other: in the order given unless both can be read and the first is larger. Where `max_memory` is no
/// text, it gets `-Xms` alone.
pub proof fn lemma_heap_arguments(
    java: Seq<char>,
    shared_config: Seq<char>,
    configuration: Option<JsonView>,
    jvm_args: Seq<Seq<char>>,
    launcher: Seq<char>,
    data: Seq<char>,
    java_major_version: u32,
)
    ensures
        ({
            let args = launch_args(
                java,
                shared_config,
                configuration,
                jvm_args,
                launcher,
                data,
                java_major_version,
            );
            let first = match configured_text(configuration, "min_memory"@) {
                Some(first) => first,
                None => "1G"@,
            };
            match configured_text(configuration, "max_memory"@) {
                Some(largest) => {
                    let swapped = (memory_bytes(first) matches Some(a) && (memory_bytes(
                        largest,
                    ) matches Some(b) && a > b));
                    &&& args.len() == 21 + jvm_args.len() + if java_major_version >= 24 {
                        2int
                    } else {
                        0int
                    }
                    &&& !swapped ==> args[10] == "-Xms"@ + first && args[11] == "-Xmx"@ + largest
                    &&& swapped ==> args[10] == "-Xms"@ + largest && args[11] == "-Xmx"@ + first
                },
                None => {
                    &&& args.len() == 20 + jvm_args.len() + if java_major_version >= 24 {
                        2int
                    } else {
                        0int
                    }
                    &&& args[10] == "-Xms"@ + first
                },
            }
        }),
{
}

/// `part` stands in `args` from the place `at` on.
pub open spec fn stands_in(args: Seq<Seq<char>>, part: Seq<Seq<char>>, at: int) -> bool {
    0 <= at && at + part.len() <= args.len() && args.subrange(at, at + part.len()) == part
}

/// The language server is started by Java, with the options that it needs and its shared
/// configuration; then come the user's options as they are given, the launcher and the directory for
/// its data; and for a Java from version 24 on the limits on the size of XML entities are lifted,
/// while for another nothing follows.
pub proof fn lemma_launch_arguments(
    java: Seq<char>,
    shared_config: Seq<char>,
    configuration: Option<JsonView>,
    jvm_args: Seq<Seq<char>>,
    launcher: Seq<char>,
    data: Seq<char>,
    java_major_version: u32,
)
    ensures
        ({
            let args = launch_args(
                java,
                shared_config,
                configuration,
                jvm_args,
                launcher,
                data,
                java_major_version,
            );
            let end = args.len() - if java_major_version >= 24 {
                6int
            } else {
                4int
            };
            &&& args[0] == java
            &&& args[1] == "-Declipse.application=org.eclipse.jdt.ls.core.id1"@
            &&& args[2] == "-Dosgi.bundles.defaultStartLevel=4"@
            &&& args[3] == "-Declipse.product=org.eclipse.jdt.ls.core.product"@
            &&& args[4] == "-Dosgi.checkConfiguration=true"@
            &&& args[5] == "-Dosgi.sharedConfiguration.area="@ + shared_config
            &&& args[6] == "-Dosgi.sharedConfiguration.area.readOnly=true"@
            &&& args[7] == "-Dosgi.configuration.cascaded=true"@
            &&& args[8] == "-Djava.import.generatesMetadataFilesAtProjectRoot=false"@
            &&& args[9] == "-Djava.net.preferIPv4Stack=true"@
            &&& stands_in(args, seq!["-jar"@, launcher, "-data"@, data], end)
            &&& stands_in(args, jvm_args, end - jvm_args.len())
            &&& stands_in(
                args,
                seq![
                    "--add-modules=ALL-SYSTEM"@,
                    "--add-opens"@,
                    "java.base/java.util=ALL-UNNAMED"@,
                    "--add-opens"@,
                    "java.base/java.lang=ALL-UNNAMED"@,
                ],
                end - jvm_args.len() - 5,
            )
            &&& java_major_version >= 24 ==> stands_in(
                args,
                seq![
                    "-Djdk.xml.maxGeneralEntitySizeLimit=0"@,
                    "-Djdk.xml.totalEntitySizeLimit=0"@,
                ],
                end + 4,
            )
        }),
{
    let start = base_args(java, shared_config) + heap_args(configuration);
    let modules = seq![
        "--add-modules=ALL-SYSTEM"@,
        "--add-opens"@,
        "java.base/java.util=ALL-UNNAMED"@,
        "--add-opens"@,
        "java.base/java.lang=ALL-UNNAMED"@,
    ];
    assert(module_args() =~= modules);
    let last = seq!["-jar"@, launcher, "-data"@, data];
    let limits = if java_major_version >= 24 {
        seq!["-Djdk.xml.maxGeneralEntitySizeLimit=0"@, "-Djdk.xml.totalEntitySizeLimit=0"@]
    } else {
        Seq::empty()
    };
    assert(limit_args(java_major_version) =~= limits);
    lemma_parts_stand(start, modules, jvm_args, last, limits);
}

proof fn lemma_parts_stand(
    start: Seq<Seq<char>>,
    modules: Seq<Seq<char>>,
    given: Seq<Seq<char>>,
    last: Seq<Seq<char>>,
    limits: Seq<Seq<char>>,
)
    ensures
        ({
            let args = start + modules + given + last + limits;
            let end = args.len() - limits.len() - last.len();
            &&& stands_in(args, last, end)
            &&& stands_in(args, given, end - given.len())
            &&& stands_in(args, modules, end - given.len() - modules.len())
            &&& stands_in(args, limits, end + last.len())
        }),
{
    let args = start + modules + given + last + limits;
    let end = args.len() - limits.len() - last.len();
    let at = end - given.len();
    assert(args.subrange(end, end + last.len()) =~= last);
    assert(args.subrange(at, at + given.len()) =~= given);
    assert(args.subrange(at - modules.len(), at) =~= modules);
    assert(args.subrange(end + last.len(), end + last.len() + limits.len()) =~= limits);
}

/// The launcher that is found is in the directory for plugins: the one without a version in its name,
/// where that is a file, or else the first file that is named as one with a version. One is found
/// wherever there is such a file.
pub proof fn lemma_launcher_found(base: Seq<char>, files: InstallFiles, i: int)
    ensures
        files.plain_launcher ==> launcher_in(base, files) == Ok::<Seq<char>, Seq<char>>(
            path::joined(path::joined(base, "plugins"@), "org.eclipse.equinox.launcher.jar"@),
        ),
        !files.plain_launcher ==> (files.plugins matches Ok(entries) ==> {
            &&& launcher_in(base, files) matches Ok(launcher) ==> exists|k: int|
                0 <= k < entries@.len() && names_launcher(#[trigger] entries@[k]) && launcher
                    == path::joined(
                    path::joined(base, "plugins"@),
                    entries@[k].0->Some_0@,
                ) && forall|j: int| 0 <= j < k ==> !names_launcher(#[trigger] entries@[j])
            &&& 0 <= i < entries@.len() && names_launcher(entries@[i]) ==> launcher_in(
                base,
                files,
            ) is Ok
        }),
        !files.plain_launcher && files.plugins is Err ==> launcher_in(base, files) is Err,
{
    if let Ok(entries) = files.plugins {
        lemma_launcher_index(entries@);
        assert forall|k: int| 0 <= k < entries@.len() implies names_launcher(#[trigger] entries@[k])
            == is_launcher(entries@[k]) by {
            lemma_names_launcher(entries@[k]);
        }
    }
}

/// The entry is a file whose name is `org.eclipse.equinox.launcher_`, a version and `.jar`.
pub open spec fn names_launcher(entry: (Option<String>, bool)) -> bool {
    &&& entry.1
    &&& entry.0 matches Some(name)
    &&& "org.eclipse.equinox.launcher_"@.is_prefix_of(name@)
    &&& ".jar"@.is_suffix_of(name@)
}

proof fn lemma_names_launcher(entry: (Option<String>, bool))
    ensures
        names_launcher(entry) == is_launcher(entry),
{
    if let Some(name) = entry.0 {
        let start = "org.eclipse.equinox.launcher_"@;
        let end = ".jar"@;
        let n = name@.len() as int;
        if start.len() <= n {
            assert(name@.subrange(0, start.len() as int) == name@.take(start.len() as int));
        }
        if end.len() <= n {
            assert(name@.subrange(n - end.len(), n) == name@.skip(n - end.len()));
        }
    }
}

proof fn lemma_launcher_index(entries: Seq<(Option<String>, bool)>)
    ensures
        0 <= launcher_index(entries) <= entries.len(),
        launcher_index(entries) < entries.len() ==> is_launcher(entries[launcher_index(entries)]),
        forall|i: int| 0 <= i < launcher_index(entries) ==> !is_launcher(#[trigger] entries[i]),
    decreases entries.len(),
{
    if entries.len() > 0 && !is_launcher(entries[0]) {
        let rest = entries.drop_first();
        lemma_launcher_index(rest);
        assert forall|i: int| 0 <= i < launcher_index(entries) implies !is_launcher(
            #[trigger] entries[i],
        ) by {
            if i > 0 {
                assert(entries[i] == rest[i - 1]);
            }
        }
    }
}

/// An installation is complete where its program, its configuration and its launcher are all there.
pub proof fn lemma_complete(files: InstallFiles)
    ensures
        complete(files) ==> files.binary && files.config,
        files.binary && files.config && files.plain_launcher ==> complete(files),
        files.binary && files.config && !files.plain_launcher ==> (complete(files) <==> (
        files.plugins matches Ok(entries) && exists|i: int|
            0 <= i < entries@.len() && names_launcher(#[trigger] entries@[i]))),
{
    if let Ok(entries) = files.plugins {
        if exists|i: int| 0 <= i < entries@.len() && names_launcher(#[trigger] entries@[i]) {
            let i = choose|i: int| 0 <= i < entries@.len() && names_launcher(#[trigger] entries@[i]);
            lemma_launcher_found(Seq::empty(), files, i);
        } else {
            lemma_launcher_found(Seq::empty(), files, 0);
        }
    }
}

/// The configuration that is used belongs to the operating system, and to its ARM variant where there
/// is one.
pub proof fn lemma_shared_config(architecture: Architecture)
    ensures
        shared_config_directory(Os::Windows, architecture) == "config_win"@,
        shared_config_directory(Os::Mac, architecture) == if architecture == Architecture::Aarch64 {
            "config_mac_arm"@
        } else {
            "config_mac"@
        },
        shared_config_directory(Os::Linux, architecture) == if architecture
            == Architecture::Aarch64 {
            "config_linux_arm"@
        } else {
            "config_linux"@
        },
{
}

/// Of the old installations every directory goes, but for the version that is to stay and those whose
/// names begin with a dot; files stay.
pub proof fn lemma_old_installations(
    name: Seq<char>,
    kind: EntryKind,
    version: Seq<char>,
)
    ensures
        old_removal(Some(version), kind, version) == Removal::Keep,
        old_removal(None, kind, version) == Removal::Keep,
        name.len() > 0 && name[0] == '.' ==> old_removal(Some(name), kind, version)
            == Removal::Keep,
        kind != EntryKind::Directory ==> old_removal(Some(name), kind, version) == Removal::Keep,
        name != version && !(name.len() > 0 && name[0] == '.') ==> old_removal(
            Some(name),
            EntryKind::Directory,
            version,
        ) == Removal::Directory,
{
    reveal_strlit(".");
    if name.len() > 0 {
        let start = name.subrange(0, 1);
        assert(start[0] == name[0]);
        assert(name[0] == '.' ==> start =~= "."@);
    }
}

/// The data of the language server goes below `APPDATA` on Windows; elsewhere below `XDG_CACHE_HOME`, or
/// else below the directory for caches in `HOME`.
pub proof fn lemma_cache_home(variables: Seq<(Seq<char>, Seq<char>)>, home: Seq<char>)
    ensures
        cache_home(variables, Os::Windows) == environment::value_of(variables, "APPDATA"@),
        environment::value_of(variables, "XDG_CACHE_HOME"@) is Some ==> cache_home(
            variables,
            Os::Mac,
        ) == environment::value_of(variables, "XDG_CACHE_HOME"@) && cache_home(variables, Os::Linux)
            == environment::value_of(variables, "XDG_CACHE_HOME"@),
        environment::value_of(variables, "XDG_CACHE_HOME"@) is None && environment::value_of(
            variables,
            "HOME"@,
        ) == Some(home) ==> {
            &&& cache_home(variables, Os::Mac) == Some(
                path::joined(path::joined(home, "Library"@), "Caches"@),
            )
            &&& cache_home(variables, Os::Linux) == Some(path::joined(home, ".cache"@))
        },
        environment::value_of(variables, "XDG_CACHE_HOME"@) is None && environment::value_of(
            variables,
            "HOME"@,
        ) is None ==> cache_home(variables, Os::Mac) is None && cache_home(variables, Os::Linux)
            is None,
{
}

/// The attempt that is made is the first whose directory is not taken.
pub proof fn lemma_free_attempt(taken: Seq<bool>)
    ensures
        0 <= free_attempt(taken) <= taken.len(),
        free_attempt(taken) < taken.len() ==> !taken[free_attempt(taken)],
        forall|i: int| 0 <= i < free_attempt(taken) ==> #[trigger] taken[i],
    decreases taken.len(),
{
    if taken.len() > 0 && taken[0] {
        let rest = taken.drop_first();
        lemma_free_attempt(rest);
        assert forall|i: int| 0 <= i < free_attempt(taken) implies #[trigger] taken[i] by {
            if i > 0 {
                assert(taken[i] == rest[i - 1]);
            }
        }
    }
}

/// A version that is not there is downloaded from the address of its build, unpacked beside its place,
/// made executable, looked at, and moved to its place, and is then said to be installed there; a version
/// that is there and complete is said to be so at once.
pub proof fn lemma_fresh_installation(
    state: InstallationView,
    files: InstallFiles,
    milestone: String,
    nonce: u128,
    taken: Vec<bool>,
    staged: InstallFiles,
    installed: InstallFiles,
    shown: Seq<char>,
    shown_program: Seq<char>,
)
    requires
        state.phase == InstallPhase::Checking,
        complete(staged),
        !complete(installed),
        free_attempt(taken@) < taken@.len(),
    ensures
        ({
            let done = InstallEvent::Finished(Ok(()));
            let place = path::joined(state.prefix, state.version);
            let (named, first) = state.stepped(InstallEvent::Checked(files), shown, shown_program);
            let (unpacked, second) = named.stepped(
                InstallEvent::Named { milestone: Ok(milestone), nonce: Ok(nonce), taken },
                shown,
                shown_program,
            );
            let (enabled, third) = unpacked.stepped(done, shown, shown_program);
            let (inspected, fourth) = enabled.stepped(done, shown, shown_program);
            let (moved, fifth) = inspected.stepped(
                InstallEvent::Inspected { staged, installed, installed_exists: false },
                shown,
                shown_program,
            );
            let (last, sixth) = moved.stepped(done, shown, shown_program);
            let staging = unpacked.staging;
            &&& complete(files) ==> first == ActionView::Done(place)
            &&& !complete(files) ==> {
                &&& first == ActionView::Name(
                    "https://download.eclipse.org/jdtls/milestones/"@ + state.version
                        + "/latest.txt"@,
                )
                &&& second == (ActionView::Unpack {
                    url: "https://www.eclipse.org/downloads/download.php?file=/jdtls/milestones/"@
                        + state.version + "/"@ + text::trim_end(milestone@),
                    to: staging,
                })
                &&& third == ActionView::Enable(
                    path::joined(path::joined(staging, "bin"@), state.binary_name),
                )
                &&& fourth == ActionView::Inspect
                &&& fifth == ActionView::Move(staging, place)
                &&& sixth == ActionView::Done(place)
                &&& last.phase == InstallPhase::Done
            }
        }),
{
}

/// A directory is removed only where it is the one that was unpacked to, or the place of the version
/// where what is there is not complete and what was unpacked is; and what is moved is what was unpacked,
/// to the place of the version. A failure leaves nothing unpacked behind.
pub proof fn lemma_removals_are_safe(
    state: InstallationView,
    event: InstallEvent,
    shown: Seq<char>,
    shown_program: Seq<char>,
)
    ensures
        ({
            let place = path::joined(state.prefix, state.version);
            let (after, action) = state.stepped(event, shown, shown_program);
            &&& action matches ActionView::Remove(directory) ==> {
                ||| directory == state.staging
                ||| directory == place && (event matches InstallEvent::Inspected {
                    staged,
                    installed,
                    ..
                } && complete(staged) && !complete(installed))
            }
            &&& action matches ActionView::Move(from, to) ==> from == state.staging && to == place
            &&& action matches ActionView::CleanUp(directory, _) ==> directory == state.staging
            &&& action matches ActionView::Done(directory) ==> directory == place
            &&& (state.phase == InstallPhase::Unpacking || state.phase == InstallPhase::Enabling
                || state.phase == InstallPhase::Clearing || state.phase == InstallPhase::Moving) && (
            event matches InstallEvent::Finished(Err(_))) ==> action is CleanUp
            &&& after.prefix == state.prefix && after.version == state.version
        }),
{
}

/// A version of Lombok is a file of its own below `lombok`, named after the version.
pub proof fn lemma_lombok_layout(version: Seq<char>)
    ensures
        lombok_file(version) == "lombok-"@ + version + ".jar"@,
        lombok_path(version) == "lombok/"@ + lombok_file(version),
{
    reveal_strlit("lombok");
    reveal_strlit("lombok/");
    reveal_strlit("lombok-");
    path::lemma_joined("lombok"@, lombok_file(version));
    assert("lombok"@ + seq!['/'] =~= "lombok/"@);
    assert(lombok_file(version)[0] == 'l');
}

/// A file counts as an archive of classes where something stands before `.jar` in its name, and as a
/// candidate where it is a file and its age is known; an installation counts where it is a complete one in
/// a directory.
pub proof fn lemma_candidates(
    name: Seq<char>,
    files: Seq<LombokEntry>,
    directories: Seq<JdtlsEntry>,
    i: int,
)
    ensures
        jar_name(name) <==> ".jar"@.is_suffix_of(name) && name.len() > 4,
        0 <= i < files.len() ==> (jar_times(files)[i] is Some <==> files[i].is_file
            && files[i].created is Some && (files[i].name matches Some(named) && ".jar"@.is_suffix_of(
            named@,
        ) && named@.len() > 4)),
        0 <= i < files.len() && jar_times(files)[i] is Some ==> jar_times(files)[i]
            == files[i].created,
        0 <= i < directories.len() ==> (installation_times(directories)[i] is Some
            <==> directories[i].is_directory && directories[i].created is Some && complete(
            directories[i].files,
        )),
        0 <= i < directories.len() && installation_times(directories)[i] is Some
            ==> installation_times(directories)[i] == directories[i].created,
{
    lemma_jar_name(name);
    if 0 <= i < files.len() {
        if let Some(named) = files[i].name {
            lemma_jar_name(named@);
        }
    }
}

proof fn lemma_jar_name(name: Seq<char>)
    ensures
        jar_name(name) <==> ".jar"@.is_suffix_of(name) && name.len() > 4,
{
    reveal_strlit(".jar");
    let end = ".jar"@;
    let n = name.len() as int;
    if n >= 4 {
        assert(name.subrange(n - 4, n) == name.skip(n - 4));
    }
    if n == 4 {
        assert(name.subrange(0, 4) =~= name);
    }
}

/// The data of the language server for a worktree is in a directory that is named after the digest of its
/// path.
pub proof fn lemma_data_directory_name(root: Seq<char>)
    ensures
        data_directory_name(root) == "jdtls-"@ + codec::lower_hex(
            codec::sha1_digest(vstd::utf8::encode_utf8(root)),
        ),
{
}

/// Attempts to unpack one version have different directories, and so have installations that are told
/// apart by their numbers.
pub proof fn lemma_staging_names_differ(
    version: Seq<char>,
    nonce: u128,
    attempt: u32,
    other_nonce: u128,
    other_attempt: u32,
)
    requires
        staging_name(version, nonce, attempt) == staging_name(version, other_nonce, other_attempt),
    ensures
        nonce == other_nonce,
        attempt == other_attempt,
{
    reveal_strlit(".");
    reveal_strlit(".tmp");
    let start = "."@ + sha1_hex(version) + "."@;
    let a = text::decimal(nonce as nat);
    let b = text::decimal(attempt as nat);
    let c = text::decimal(other_nonce as nat);
    let d = text::decimal(other_attempt as nat);
    let one = staging_name(version, nonce, attempt);
    let other = staging_name(version, other_nonce, other_attempt);
    text::lemma_decimal_digits(nonce as nat);
    text::lemma_decimal_digits(attempt as nat);
    text::lemma_decimal_digits(other_nonce as nat);
    text::lemma_decimal_digits(other_attempt as nat);
    let left = a + seq!['.'] + b;
    let right = c + seq!['.'] + d;
    assert(one =~= start + left + ".tmp"@);
    assert(other =~= start + right + ".tmp"@);
    let n = start.len() as int;
    assert(left.len() == right.len());
    assert(one.subrange(n, n + left.len()) =~= left);
    assert(other.subrange(n, n + left.len()) =~= right);
    assert(left == right);
    if a.len() < c.len() {
        assert(left[a.len() as int] == '.');
        assert(right[a.len() as int] == c[a.len() as int]);
        assert('0' <= c[a.len() as int]);
    }
    if c.len() < a.len() {
        assert(right[c.len() as int] == '.');
        assert(left[c.len() as int] == a[c.len() as int]);
        assert('0' <= a[c.len() as int]);
    }
    assert(a.len() == c.len());
    assert(left.take(a.len() as int) =~= a);
    assert(right.take(a.len() as int) =~= c);
    assert(left.skip(a.len() as int + 1) =~= b);
    assert(right.skip(a.len() as int + 1) =~= d);
    text::lemma_decimal_injective(nonce as nat, other_nonce as nat);
    text::lemma_decimal_injective(attempt as nat, other_attempt as nat);
}

/// How an installation fails: for the reason that is given where the name of its build or its number could
/// not be had, and for want of a directory where all are taken; and what was unpacked is cleaned up where
/// anything fails after that. What does not belong to where an installation has come to is ignored.
pub proof fn lemma_installation_failures(
    state: InstallationView,
    milestone: Result<String, String>,
    nonce: Result<u128, String>,
    taken: Vec<bool>,
    reason: String,
    installed: InstallFiles,
    shown: Seq<char>,
    shown_program: Seq<char>,
)
    ensures
        state.phase == InstallPhase::Naming ==> {
            let (after, action) = state.stepped(
                InstallEvent::Named { milestone, nonce, taken },
                shown,
                shown_program,
            );
            &&& milestone matches Err(error) ==> action == ActionView::Fail(error@)
            &&& milestone is Ok ==> (nonce matches Err(error) ==> action == ActionView::Fail(
                error@,
            ))
            &&& milestone is Ok && nonce is Ok && free_attempt(taken@) == taken@.len() ==> action
                == ActionView::Fail(
                "Failed to allocate a JDTLS staging directory for "@ + state.version,
            )
            &&& action is Fail ==> after.phase == InstallPhase::Done
        },
        ({
            let (after, action) = state.stepped(
                InstallEvent::Finished(Err(reason)),
                shown,
                shown_program,
            );
            let unpacked = state.phase == InstallPhase::Unpacking || state.phase
                == InstallPhase::Enabling || state.phase == InstallPhase::Discarding || state.phase
                == InstallPhase::Clearing || state.phase == InstallPhase::Moving;
            &&& unpacked ==> after.phase == InstallPhase::Done && (action matches ActionView::CleanUp(
                directory,
                error,
            ) && directory == state.staging && reason@.is_suffix_of(error))
            &&& !unpacked ==> after == state && action == ActionView::Ignore
        }),
        state.phase == InstallPhase::Moving ==> {
            let (after, action) = state.stepped(
                InstallEvent::FailedToMove { reason, installed },
                shown,
                shown_program,
            );
            &&& complete(installed) ==> action == ActionView::Remove(state.staging) && after.phase
                == InstallPhase::Discarding
            &&& !complete(installed) ==> action is CleanUp
        },
        state.phase == InstallPhase::Done ==> {
            &&& state.stepped(InstallEvent::Finished(Ok(())), shown, shown_program) == (
                state,
                ActionView::Ignore,
            )
            &&& state.stepped(InstallEvent::Checked(installed), shown, shown_program) == (
                state,
                ActionView::Ignore,
            )
        },
{
    let (after, action) = state.stepped(InstallEvent::Finished(Err(reason)), shown, shown_program);
    if let ActionView::CleanUp(_, error) = action {
        assert(error.skip(error.len() - reason@.len()) =~= reason@);
    }
}

/// The program that starts the language server is a batch file on Windows and a script elsewhere, in the
/// directory `bin` of the installation.
pub proof fn lemma_program(os: Os, install_path: Seq<char>)
    requires
        install_path.len() > 0,
        install_path.last() != '/',
    ensures
        os is Windows ==> binary_path(install_path, binary_name(os)) == install_path
            + "/bin/jdtls.bat"@,
        !(os is Windows) ==> binary_path(install_path, binary_name(os)) == install_path
            + "/bin/jdtls"@,
{
    reveal_strlit("bin");
    reveal_strlit("jdtls");
    reveal_strlit("jdtls.bat");
    reveal_strlit("/bin/jdtls");
    reveal_strlit("/bin/jdtls.bat");
    let name = binary_name(os);
    let bin = install_path + seq!['/'] + "bin"@;
    path::lemma_joined(install_path, "bin"@);
    assert(bin.last() == 'n');
    path::lemma_joined(bin, name);
    assert(bin + seq!['/'] + "jdtls"@ =~= install_path + "/bin/jdtls"@);
    assert(bin + seq!['/'] + "jdtls.bat"@ =~= install_path + "/bin/jdtls.bat"@);
}

/// An installation that fails says at which step it did.
pub proof fn lemma_failed_steps(
    state: InstallationView,
    reason: String,
    files: InstallFiles,
    exists_already: bool,
    shown: Seq<char>,
    shown_program: Seq<char>,
)
    ensures
        ({
            let (after, action) = state.stepped(
                InstallEvent::Finished(Err(reason)),
                shown,
                shown_program,
            );
            &&& state.phase == InstallPhase::Unpacking ==> action == ActionView::CleanUp(
                state.staging,
                "Failed to download JDTLS from "@ + state.url + ": "@ + reason@,
            )
            &&& state.phase == InstallPhase::Enabling ==> action == ActionView::CleanUp(
                state.staging,
                "Failed to make JDTLS executable at "@ + shown_program + ": "@ + reason@,
            )
            &&& state.phase == InstallPhase::Discarding ==> action == ActionView::CleanUp(
                state.staging,
                "Failed to remove redundant JDTLS staging directory: "@ + reason@,
            )
            &&& state.phase == InstallPhase::Clearing ==> action == ActionView::CleanUp(
                state.staging,
                "Failed to remove incomplete JDTLS installation: "@ + reason@,
            )
            &&& state.phase == InstallPhase::Moving ==> action == ActionView::CleanUp(
                state.staging,
                "Failed to promote JDTLS staging directory "@ + shown + ": "@ + reason@,
            )
        }),
        state.phase == InstallPhase::Inspecting && !complete(files) ==> state.stepped(
            InstallEvent::Inspected { staged: files, installed: files, installed_exists: exists_already },
            shown,
            shown_program,
        ).1 == ActionView::CleanUp(
            state.staging,
            "Downloaded JDTLS installation is incomplete at "@ + shown,
        ),
{
}

} // verus!
