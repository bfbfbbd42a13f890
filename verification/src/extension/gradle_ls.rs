//! The Gradle language server: how it is installed.

use crate::extension::downloadable::InstallStep;
use crate::path;
use crate::text;
use vstd::prelude::*;
use vstd::string::*;

verus! {

/// The Gradle language server.
pub struct GradleLs {
    /// Where it is installed, once that is known.
    pub cached_path: Option<String>,
}

/// The only version that the bridge can talk to.
pub open spec fn supported_version() -> Seq<char> {
    "3.18.0"@
}

/// The version to download: always the one that the bridge can talk to, whatever was found last.
pub fn version_for_download() -> (r: String)
    ensures
        r@ == supported_version(),
{
    "3.18.0".to_owned()
}

/// The step to take in place of `step`, which was decided as for any component: whatever version it
/// asks for or would look for, the supported one is downloaded, and that is not noted as a look for
/// a newer version.
pub fn fixed_step(step: InstallStep) -> (r: InstallStep)
    ensures
        (match step {
            InstallStep::FetchVersion | InstallStep::Download { .. } => {
                r matches InstallStep::Download { version, record } && version@
                    == supported_version() && !record
            },
            _ => r == step,
        }),
{
    match step {
        InstallStep::FetchVersion => InstallStep::Download {
            version: version_for_download(),
            record: false,
        },
        InstallStep::Download { .. } => InstallStep::Download {
            version: version_for_download(),
            record: false,
        },
        other => other,
    }
}

impl GradleLs {
    /// Not known to be installed.
    pub fn new() -> (r: Self)
        ensures
            r.cached_path is None,
    {
        GradleLs { cached_path: None }
    }

    /// Whether it is known where it is installed.
    pub fn loaded(&self) -> (r: bool)
        ensures
            r == self.cached_path is Some,
    {
        self.cached_path.is_some()
    }
}

/// The directory of the supported version below `install_path`, where its libraries are there; no
/// other version counts. `directories` are the directories that are there.
pub fn find_supported_installation(install_path: &str, directories: &Vec<String>) -> (r: Option<
    String,
>)
    ensures
        text::optional(r) == {
            let directory = path::joined(install_path@, supported_version());
            if text::texts(directories@).contains(path::joined(directory, "lib"@)) {
                Some(directory)
            } else {
                None
            }
        },
{
    let directory = path::join_path(install_path, "3.18.0");
    let lib = path::join_path(directory.as_str(), "lib");
    if text::among(directories, lib.as_str()) {
        Some(directory)
    } else {
        None
    }
}

/// What to do next to install the Gradle language server.
pub enum GradleLsStep {
    /// It is there.
    Use(String),
    /// Download the package at `url` to `unpack_to`.
    Download { url: String, unpack_to: String },
    /// Move the libraries of the package from `from` to `to`, then remove `unpacked`.
    Move { from: String, to: String, unpacked: String },
    /// Remove `unpacked`, then fail.
    CleanUp { unpacked: String, error: String },
    Fail(String),
}

/// The directory of the version `version`.
pub open spec fn version_directory(version: Seq<char>) -> Seq<char> {
    path::joined("gradle-ls"@, version)
}

/// The directory to which the package is unpacked.
pub open spec fn package_directory() -> Seq<char> {
    path::joined("gradle-ls"@, "_vsix_temp"@)
}

/// The address of the package of the version `version`.
pub open spec fn package_url(version: Seq<char>) -> Seq<char> {
    "https://vscjava.gallery.vsassets.io/_apis/public/gallery/publisher/vscjava/extension/vscode-gradle/"@
        + version + "/assetbyname/Microsoft.VisualStudio.Services.VSIXPackage"@
}

/// What to do first to install the version `version`, given whether its libraries are there.
pub fn download_step(version: &str, libraries_exist: bool) -> (r: GradleLsStep)
    ensures
        (match r {
            GradleLsStep::Use(directory) => libraries_exist && directory@ == version_directory(
                version@,
            ),
            GradleLsStep::Download { url, unpack_to } => !libraries_exist && url@ == package_url(
                version@,
            ) && unpack_to@ == package_directory(),
            _ => false,
        }),
{
    if libraries_exist {
        return GradleLsStep::Use(path::join_path("gradle-ls", version));
    }
    let mut url =
        "https://vscjava.gallery.vsassets.io/_apis/public/gallery/publisher/vscjava/extension/vscode-gradle/".to_owned();
    url.append(version);
    url.append("/assetbyname/Microsoft.VisualStudio.Services.VSIXPackage");
    GradleLsStep::Download { url, unpack_to: path::join_path("gradle-ls", "_vsix_temp") }
}

/// What to do once the package is downloaded or that failed, given whether it holds the libraries.
pub fn unpacked_step(version: &str, downloaded: Result<(), String>, libraries_exist: bool) -> (r:
    GradleLsStep)
    ensures
        (match downloaded {
            Err(reason) => r matches GradleLsStep::Fail(error) && error@
                == "Failed to download Gradle LS VSIX: "@ + reason@,
            Ok(()) => if libraries_exist {
                r matches GradleLsStep::Move { from, to, unpacked } && from@ == path::joined(
                    path::joined(package_directory(), "extension"@),
                    "lib"@,
                ) && to@ == path::joined(version_directory(version@), "lib"@) && unpacked@
                    == package_directory()
            } else {
                r matches GradleLsStep::CleanUp { unpacked, error } && unpacked@
                    == package_directory() && error@
                    == "Downloaded VSIX does not contain expected extension/lib/ directory"@
            },
        }),
{
    if let Err(reason) = downloaded {
        let mut error = "Failed to download Gradle LS VSIX: ".to_owned();
        error.append(reason.as_str());
        return GradleLsStep::Fail(error);
    }
    let unpacked = path::join_path("gradle-ls", "_vsix_temp");
    if libraries_exist {
        let extension = path::join_path(unpacked.as_str(), "extension");
        let directory = path::join_path("gradle-ls", version);
        GradleLsStep::Move {
            from: path::join_path(extension.as_str(), "lib"),
            to: path::join_path(directory.as_str(), "lib"),
            unpacked,
        }
    } else {
        GradleLsStep::CleanUp {
            unpacked,
            error: "Downloaded VSIX does not contain expected extension/lib/ directory".to_owned(),
        }
    }
}

/// What to do once the libraries are moved or that failed.
pub fn moved_step(version: &str, moved: Result<(), String>) -> (r: GradleLsStep)
    ensures
        (match moved {
            Ok(()) => r matches GradleLsStep::Use(directory) && directory@ == version_directory(
                version@,
            ),
            Err(reason) => r matches GradleLsStep::Fail(error) && error@
                == "Failed to move lib directory: "@ + reason@,
        }),
{
    match moved {
        Ok(()) => GradleLsStep::Use(path::join_path("gradle-ls", version)),
        Err(reason) => {
            let mut error = "Failed to move lib directory: ".to_owned();
            error.append(reason.as_str());
            GradleLsStep::Fail(error)
        },
    }
}

/// The version that the bridge can talk to is 3.18.0; a version has a directory of its own below
/// `gradle-ls`, which is not the one that packages are unpacked to, and is downloaded from the gallery.
pub proof fn lemma_gradle_ls_layout(version: Seq<char>)
    requires
        version.len() > 0,
        version[0] != '/',
        version[0] != '_',
    ensures
        supported_version() == "3.18.0"@,
        version_directory(version) == "gradle-ls/"@ + version,
        package_directory() == "gradle-ls/_vsix_temp"@,
        version_directory(version) != package_directory(),
        package_url(version)
            == "https://vscjava.gallery.vsassets.io/_apis/public/gallery/publisher/vscjava/extension/vscode-gradle/"@
            + version + "/assetbyname/Microsoft.VisualStudio.Services.VSIXPackage"@,
{
    reveal_strlit("gradle-ls");
    reveal_strlit("gradle-ls/");
    reveal_strlit("_vsix_temp");
    reveal_strlit("gradle-ls/_vsix_temp");
    path::lemma_joined("gradle-ls"@, version);
    path::lemma_joined("gradle-ls"@, "_vsix_temp"@);
    assert("gradle-ls"@ + seq!['/'] =~= "gradle-ls/"@);
    assert("gradle-ls/"@ + "_vsix_temp"@ =~= "gradle-ls/_vsix_temp"@);
    assert(version_directory(version)[10] == version[0]);
    assert(package_directory()[10] == '_');
}

} // verus!
