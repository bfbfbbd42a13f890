//! The machine that the extension runs on.

use vstd::prelude::*;
use vstd::string::*;

verus! {

/// An operating system.
#[derive(Clone, Copy, Debug, PartialEq, Eq, Structural)]
pub enum Os {
    Mac,
    Linux,
    Windows,
}

/// A processor architecture.
#[derive(Clone, Copy, Debug, PartialEq, Eq, Structural)]
pub enum Architecture {
    Aarch64,
    X86,
    X8664,
}

/// How a downloaded file is packed.
#[derive(Clone, Copy, Debug, PartialEq, Eq, Structural)]
pub enum Packing {
    GzipTar,
    Zip,
    Uncompressed,
}

/// The file name of the program `binary`.
pub open spec fn exec_name(binary: Seq<char>, os: Os) -> Seq<char> {
    match os {
        Os::Windows => binary + ".exe"@,
        _ => binary,
    }
}

/// The file name of the program `binary`.
pub fn platform_exec_name(binary: &str, os: Os) -> (r: String)
    ensures
        r@ == exec_name(binary@, os),
{
    let mut r = binary.to_owned();
    if let Os::Windows = os {
        r.append(".exe");
    }
    r
}

/// The file name of the Java program.
pub fn get_java_exec_name(os: Os) -> (r: String)
    ensures
        r@ == exec_name("java"@, os),
{
    platform_exec_name("java", os)
}

/// The name of an operating system in the names of released files.
pub open spec fn os_name(os: Os) -> Seq<char> {
    match os {
        Os::Mac => "darwin"@,
        Os::Linux => "linux"@,
        Os::Windows => "windows"@,
    }
}

/// The name of an architecture in the names of released files, where there are any for it.
pub open spec fn architecture_name(architecture: Architecture) -> Option<Seq<char>> {
    match architecture {
        Architecture::Aarch64 => Some("aarch64"@),
        Architecture::X8664 => Some("x86_64"@),
        Architecture::X86 => None,
    }
}

/// How released files are packed.
pub open spec fn packing(os: Os) -> Packing {
    match os {
        Os::Windows => Packing::Zip,
        _ => Packing::GzipTar,
    }
}

/// The name of the released file that holds the program `binary`.
pub open spec fn asset_name(binary: Seq<char>, os: Os, architecture: Architecture) -> Option<
    Seq<char>,
> {
    match architecture_name(architecture) {
        Some(name) => Some(
            binary + "-"@ + os_name(os) + "-"@ + name + "."@ + (match os {
                Os::Windows => "zip"@,
                _ => "tar.gz"@,
            }),
        ),
        None => None,
    }
}

/// The name of the released file that holds the program `binary`, and how it is packed. There is
/// none for some architectures.
pub fn platform_asset_name(binary: &str, os: Os, architecture: Architecture) -> (r: Result<
    (String, Packing),
    String,
>)
    ensures
        (match r {
            Ok((name, how)) => asset_name(binary@, os, architecture) == Some(name@) && how
                == packing(os),
            Err(error) => asset_name(binary@, os, architecture) is None && error@
                == "Unsupported architecture"@,
        }),
{
    let (os_text, how, extension) = match os {
        Os::Mac => ("darwin", Packing::GzipTar, "tar.gz"),
        Os::Linux => ("linux", Packing::GzipTar, "tar.gz"),
        Os::Windows => ("windows", Packing::Zip, "zip"),
    };
    let architecture_text = match architecture {
        Architecture::Aarch64 => "aarch64",
        Architecture::X8664 => "x86_64",
        Architecture::X86 => return Err("Unsupported architecture".to_owned()),
    };
    let mut name = binary.to_owned();
    name.append("-");
    name.append(os_text);
    name.append("-");
    name.append(architecture_text);
    name.append(".");
    name.append(extension);
    Ok((name, how))
}

/// The released file for a program is named after the program, the operating system, the architecture
/// and how it is packed; there is none for a 32-bit architecture.
pub proof fn lemma_asset_names(binary: Seq<char>, os: Os)
    ensures
        asset_name(binary, Os::Mac, Architecture::Aarch64) == Some(
            binary + "-darwin-aarch64.tar.gz"@,
        ),
        asset_name(binary, Os::Mac, Architecture::X8664) == Some(binary + "-darwin-x86_64.tar.gz"@),
        asset_name(binary, Os::Linux, Architecture::Aarch64) == Some(
            binary + "-linux-aarch64.tar.gz"@,
        ),
        asset_name(binary, Os::Linux, Architecture::X8664) == Some(
            binary + "-linux-x86_64.tar.gz"@,
        ),
        asset_name(binary, Os::Windows, Architecture::Aarch64) == Some(
            binary + "-windows-aarch64.zip"@,
        ),
        asset_name(binary, Os::Windows, Architecture::X8664) == Some(
            binary + "-windows-x86_64.zip"@,
        ),
        asset_name(binary, os, Architecture::X86) is None,
        packing(os) == Packing::Zip <==> os == Os::Windows,
        packing(os) == Packing::GzipTar <==> os != Os::Windows,
{
    reveal_strlit("-");
    reveal_strlit(".");
    reveal_strlit("darwin");
    reveal_strlit("linux");
    reveal_strlit("windows");
    reveal_strlit("aarch64");
    reveal_strlit("x86_64");
    reveal_strlit("zip");
    reveal_strlit("tar.gz");
    reveal_strlit("-darwin-aarch64.tar.gz");
    reveal_strlit("-darwin-x86_64.tar.gz");
    reveal_strlit("-linux-aarch64.tar.gz");
    reveal_strlit("-linux-x86_64.tar.gz");
    reveal_strlit("-windows-aarch64.zip");
    reveal_strlit("-windows-x86_64.zip");
    let small = Architecture::Aarch64;
    let large = Architecture::X8664;
    assert(asset_name(binary, Os::Mac, small)->Some_0 =~= binary + "-darwin-aarch64.tar.gz"@);
    assert(asset_name(binary, Os::Mac, large)->Some_0 =~= binary + "-darwin-x86_64.tar.gz"@);
    assert(asset_name(binary, Os::Linux, small)->Some_0 =~= binary + "-linux-aarch64.tar.gz"@);
    assert(asset_name(binary, Os::Linux, large)->Some_0 =~= binary + "-linux-x86_64.tar.gz"@);
    assert(asset_name(binary, Os::Windows, small)->Some_0 =~= binary + "-windows-aarch64.zip"@);
    assert(asset_name(binary, Os::Windows, large)->Some_0 =~= binary + "-windows-x86_64.zip"@);
}

/// A program is called as it is, and with `.exe` after its name on Windows alone.
pub proof fn lemma_exec_names(binary: Seq<char>)
    ensures
        exec_name(binary, Os::Windows) == binary + ".exe"@,
        exec_name(binary, Os::Mac) == binary,
        exec_name(binary, Os::Linux) == binary,
{
}

} // verus!
