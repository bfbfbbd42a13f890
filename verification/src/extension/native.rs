//! The programs of the extension that are released with it.

use crate::extension::platform::{Architecture, Os, Packing};
use crate::extension::platform;
use crate::path;
use crate::text;
use vstd::prelude::*;
use vstd::string::*;

verus! {

/// What to do next to have a released program.
pub enum NativeStep {
    /// Use this file.
    Use(String),
    /// Remove the directory `invalid` where it is given, then download the file at `url`, which is
    /// packed so, and unpack it to `unpack_to`.
    Download { invalid: Option<String>, url: String, unpack_to: String, packing: Packing },
    /// Make this file executable, and use it.
    MakeExecutable(String),
    Fail(String),
}

/// The file of the program `binary` in the release `version`.
pub open spec fn program_path(binary: Seq<char>, version: Seq<char>, os: Os) -> Seq<char> {
    "bin/"@ + version + "/"@ + platform::exec_name(binary, os)
}

/// The directory of the release `version`.
pub open spec fn release_directory(version: Seq<char>) -> Seq<char> {
    "bin/"@ + version
}

/// The address of the file `asset` of the release `version`.
pub open spec fn release_url(version: Seq<char>, asset: Seq<char>) -> Seq<char> {
    "https://github.com/zed-extensions/java/releases/download/"@ + version + "/"@ + asset
}

/// What stands where a program is to be.
#[derive(Clone, Copy, Debug, PartialEq, Eq, Structural)]
pub enum Found {
    File,
    Directory,
    Nothing,
}

fn program_file(binary: &str, version: &str, os: Os) -> (r: String)
    ensures
        r@ == program_path(binary@, version@, os),
{
    let mut r = "bin/".to_owned();
    r.append(version);
    r.append("/");
    r.append(platform::platform_exec_name(binary, os).as_str());
    r
}

/// The file of the program `binary` in the release `version`.
pub fn native_program_path(binary: &str, version: &str, os: Os) -> (r: String)
    ensures
        r@ == program_path(binary@, version@, os),
{
    program_file(binary, version, os)
}

/// What to do first to have the program `binary`: to use the one that the settings name
/// (`configured`), or the one that is there (`local`), or else the one of the release `version`.
pub fn first_step(
    binary: &str,
    version: &str,
    configured: Option<String>,
    local: Option<String>,
    found: Found,
    os: Os,
    architecture: Architecture,
) -> (r: NativeStep)
    ensures
        (match (configured, local) {
            (Some(path), _) => r == NativeStep::Use(path),
            (None, Some(path)) => r == NativeStep::Use(path),
            (None, None) => match platform::asset_name(binary@, os, architecture) {
                None => r matches NativeStep::Fail(error) && error@ == "Unsupported architecture"@,
                Some(asset) => if found == Found::File {
                    r matches NativeStep::Use(path) && path@ == program_path(
                        binary@,
                        version@,
                        os,
                    )
                } else {
                    r matches NativeStep::Download { invalid, url, unpack_to, packing }
                        && text::optional(invalid) == (if found == Found::Directory {
                        Some(program_path(binary@, version@, os))
                    } else {
                        None
                    }) && url@ == release_url(version@, asset) && unpack_to@
                        == release_directory(version@) && packing == platform::packing(os)
                },
            },
        }),
{
    if let Some(path) = configured {
        return NativeStep::Use(path);
    }
    if let Some(path) = local {
        return NativeStep::Use(path);
    }
    let (asset, packing) = match platform::platform_asset_name(binary, os, architecture) {
        Ok(asset) => asset,
        Err(error) => return NativeStep::Fail(error),
    };
    let path = program_file(binary, version, os);
    let invalid = match found {
        Found::File => return NativeStep::Use(path),
        Found::Directory => Some(path),
        Found::Nothing => None,
    };
    let mut url = "https://github.com/zed-extensions/java/releases/download/".to_owned();
    url.append(version);
    url.append("/");
    url.append(asset.as_str());
    let mut unpack_to = "bin/".to_owned();
    unpack_to.append(version);
    NativeStep::Download { invalid, url, unpack_to, packing }
}

/// What to do once the program `binary` is downloaded or that failed, given whether its file is
/// there. `noun` is what the program is called.
pub fn downloaded_step(
    binary: &str,
    noun: &str,
    version: &str,
    downloaded: Result<(), String>,
    is_file: bool,
    os: Os,
) -> (r: NativeStep)
    ensures
        (match downloaded {
            Err(reason) => r matches NativeStep::Fail(error) && error@ == "Failed to download "@
                + noun@ + ": "@ + reason@,
            Ok(()) => if is_file {
                r matches NativeStep::MakeExecutable(path) && path@ == program_path(
                    binary@,
                    version@,
                    os,
                )
            } else {
                r matches NativeStep::Fail(error) && error@ == "Downloaded "@ + noun@
                    + " archive did not contain "@ + program_path(binary@, version@, os)
            },
        }),
{
    if let Err(reason) = downloaded {
        let mut error = "Failed to download ".to_owned();
        error.append(noun);
        error.append(": ");
        error.append(reason.as_str());
        return NativeStep::Fail(error);
    }
    let path = program_file(binary, version, os);
    if is_file {
        NativeStep::MakeExecutable(path)
    } else {
        let mut error = "Downloaded ".to_owned();
        error.append(noun);
        error.append(" archive did not contain ");
        error.append(path.as_str());
        NativeStep::Fail(error)
    }
}

/// What to do once the program at `path` is made executable or that failed.
pub fn executable_step(path: String, noun: &str, made: Result<(), String>) -> (r: NativeStep)
    ensures
        (match made {
            Ok(()) => r == NativeStep::Use(path),
            Err(reason) => r matches NativeStep::Fail(error) && error@ == "Failed to make "@ + noun@
                + " executable at "@ + path@ + ": "@ + reason@,
        }),
{
    match made {
        Ok(()) => NativeStep::Use(path),
        Err(reason) => {
            let mut error = "Failed to make ".to_owned();
            error.append(noun);
            error.append(" executable at ");
            error.append(path.as_str());
            error.append(": ");
            error.append(reason.as_str());
            NativeStep::Fail(error)
        },
    }
}

/// The proxy program.
pub struct Proxy;

impl Proxy {
    pub fn new() -> (r: Self)
        ensures
            r == Proxy,
    {
        Proxy
    }

    /// The file name of the program.
    pub fn exec(&self, os: Os) -> (r: String)
        ensures
            r@ == platform::exec_name("java-lsp-proxy"@, os),
    {
        platform::platform_exec_name("java-lsp-proxy", os)
    }

    /// What to do first to have the program.
    pub fn binary_path(
        &self,
        version: &str,
        configured: Option<String>,
        local: Option<String>,
        found: Found,
        os: Os,
        architecture: Architecture,
    ) -> (r: NativeStep)
        ensures
            (match (configured, local) {
                (Some(path), _) => r == NativeStep::Use(path),
                (None, Some(path)) => r == NativeStep::Use(path),
                (None, None) => match platform::asset_name("java-lsp-proxy"@, os, architecture) {
                    None => r matches NativeStep::Fail(error) && error@
                        == "Unsupported architecture"@,
                    Some(asset) => if found == Found::File {
                        r matches NativeStep::Use(path) && path@ == program_path(
                            "java-lsp-proxy"@,
                            version@,
                            os,
                        )
                    } else {
                        r matches NativeStep::Download { invalid, url, unpack_to, packing }
                            && text::optional(invalid) == (if found == Found::Directory {
                            Some(program_path("java-lsp-proxy"@, version@, os))
                        } else {
                            None
                        }) && url@ == release_url(version@, asset) && unpack_to@
                            == release_directory(version@) && packing == platform::packing(os)
                    },
                },
            }),
    {
        first_step("java-lsp-proxy", version, configured, local, found, os, architecture)
    }
}

/// The program that bridges the editor and the Gradle language server.
pub struct GradleBridge;

impl GradleBridge {
    pub fn new() -> (r: Self)
        ensures
            r == GradleBridge,
    {
        GradleBridge
    }

    /// The file name of the program.
    pub fn exec(&self, os: Os) -> (r: String)
        ensures
            r@ == platform::exec_name("gradle-lsp-bridge"@, os),
    {
        platform::platform_exec_name("gradle-lsp-bridge", os)
    }

    /// What to do first to have the program.
    pub fn binary_path(
        &self,
        version: &str,
        configured: Option<String>,
        local: Option<String>,
        found: Found,
        os: Os,
        architecture: Architecture,
    ) -> (r: NativeStep)
        ensures
            (match (configured, local) {
                (Some(path), _) => r == NativeStep::Use(path),
                (None, Some(path)) => r == NativeStep::Use(path),
                (None, None) => match platform::asset_name(
                    "gradle-lsp-bridge"@,
                    os,
                    architecture,
                ) {
                    None => r matches NativeStep::Fail(error) && error@
                        == "Unsupported architecture"@,
                    Some(asset) => if found == Found::File {
                        r matches NativeStep::Use(path) && path@ == program_path(
                            "gradle-lsp-bridge"@,
                            version@,
                            os,
                        )
                    } else {
                        r matches NativeStep::Download { invalid, url, unpack_to, packing }
                            && text::optional(invalid) == (if found == Found::Directory {
                            Some(program_path("gradle-lsp-bridge"@, version@, os))
                        } else {
                            None
                        }) && url@ == release_url(version@, asset) && unpack_to@
                            == release_directory(version@) && packing == platform::packing(os)
                    },
                },
            }),
    {
        first_step("gradle-lsp-bridge", version, configured, local, found, os, architecture)
    }
}

/// A release has a directory of its own, in which its programs stand under their file names, and its files
/// are downloaded from the releases of the extension.
pub proof fn lemma_releases(binary: Seq<char>, version: Seq<char>, asset: Seq<char>)
    ensures
        program_path(binary, version, Os::Windows) == release_directory(version) + seq!['/'] + binary
            + ".exe"@,
        program_path(binary, version, Os::Linux) == release_directory(version) + seq!['/'] + binary,
        program_path(binary, version, Os::Mac) == release_directory(version) + seq!['/'] + binary,
        release_directory(version) == "bin/"@ + version,
        release_url(version, asset)
            == "https://github.com/zed-extensions/java/releases/download/"@ + version + seq!['/']
            + asset,
{
    reveal_strlit("/");
    assert("/"@ =~= seq!['/']);
    platform::lemma_exec_names(binary);
    assert(program_path(binary, version, Os::Windows) =~= release_directory(version) + seq!['/']
        + binary + ".exe"@);
}

} // verus!
