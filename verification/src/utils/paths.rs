//! Names and download locations that depend on the platform. The caller
//! says which platform it runs on, by the names that the standard library
//! gives to operating systems and architectures.

use crate::text::str_eq;
use vstd::prelude::*;
use vstd::string::StringExecFns;

verus! {

/// The platform name for the operating system `os`.
pub open spec fn platform_name(os: Seq<char>) -> Seq<char> {
    if os == "windows"@ {
        "windows"@
    } else if os == "macos"@ {
        "macos"@
    } else if os == "linux"@ {
        "linux"@
    } else {
        "unknown"@
    }
}

/// The name of the platform: `windows`, `macos` or `linux` for the
/// operating system of that name, `unknown` for any other.
pub fn get_platform_name(os: &str) -> (name: &'static str)
    ensures
        name@ == platform_name(os@),
{
    if str_eq(os, "windows") {
        "windows"
    } else if str_eq(os, "macos") {
        "macos"
    } else if str_eq(os, "linux") {
        "linux"
    } else {
        "unknown"
    }
}

/// No Ollama download is known for the platform.
#[derive(Clone, Copy, Debug, PartialEq, Eq, Structural, Hash)]
pub struct UnsupportedPlatform;

impl UnsupportedPlatform {
    /// A description of the error for people.
    pub fn message(&self) -> (text: String)
        ensures
            text@ == "Unsupported platform for Ollama installation"@,
    {
        String::from_str("Unsupported platform for Ollama installation")
    }
}

/// Where Ollama is downloaded from for the operating system `os` on the
/// architecture `arch`, if anywhere.
pub open spec fn ollama_download_url(os: Seq<char>, arch: Seq<char>) -> Option<Seq<char>> {
    if os == "windows"@ {
        Some("https://ollama.ai/download/OllamaSetup.exe"@)
    } else if os == "macos"@ {
        if arch == "aarch64"@ {
            Some("https://ollama.ai/download/Ollama-darwin-arm64.zip"@)
        } else if arch == "x86_64"@ {
            Some("https://ollama.ai/download/Ollama-darwin-x86_64.zip"@)
        } else {
            None
        }
    } else if os == "linux"@ {
        Some("https://ollama.ai/install.sh"@)
    } else {
        None
    }
}

/// Where Ollama is downloaded from: the installer for Windows, the archive
/// of the architecture for macOS, the install script for Linux. Fails for
/// any other platform.
pub fn get_ollama_download_url(os: &str, arch: &str) -> (outcome: Result<String, UnsupportedPlatform>)
    ensures
        outcome is Ok == ollama_download_url(os@, arch@) is Some,
        outcome matches Ok(url) ==> Some(url@) == ollama_download_url(os@, arch@),
{
    if str_eq(os, "windows") {
        Ok(String::from_str("https://ollama.ai/download/OllamaSetup.exe"))
    } else if str_eq(os, "macos") {
        if str_eq(arch, "aarch64") {
            Ok(String::from_str("https://ollama.ai/download/Ollama-darwin-arm64.zip"))
        } else if str_eq(arch, "x86_64") {
            Ok(String::from_str("https://ollama.ai/download/Ollama-darwin-x86_64.zip"))
        } else {
            Err(UnsupportedPlatform)
        }
    } else if str_eq(os, "linux") {
        Ok(String::from_str("https://ollama.ai/install.sh"))
    } else {
        Err(UnsupportedPlatform)
    }
}

/// Whether `name` is made of the lower-case letters `a` to `z` alone, and
/// of at least one.
pub open spec fn is_plain_name(name: Seq<char>) -> bool {
    name.len() > 0 && forall|i: int|
        0 <= i < name.len() ==> 'a' as u32 <= (#[trigger] name[i]) as u32 <= 'z' as u32
}

/// Whether `s` ends with `tail`.
pub open spec fn ends_with(s: Seq<char>, tail: Seq<char>) -> bool {
    s.len() >= tail.len() && s.subrange(s.len() - tail.len(), s.len() as int) == tail
}

/// Whether `base` begins as a verbatim path does on Windows, with two
/// backslashes, a question mark and a backslash.
pub open spec fn is_verbatim(base: Seq<char>) -> bool {
    base.len() >= 4 && base[0] == '\\' && base[1] == '\\' && base[2] == '?' && base[3] == '\\'
}

/// Whether `path` is `base` with `name` adjoined: `base`, then at most one
/// separator, then `name`.
pub open spec fn adjoined(path: Seq<char>, base: Seq<char>, name: Seq<char>) -> bool {
    exists|separator: Seq<char>| separator.len() <= 1 && path == base + #[trigger] (separator + name)
}

/// Adjoins `name` to the path `base` with `std::path::Path::join`. A name
/// of plain letters is neither absolute nor a reference to another
/// directory, so it stands at the end of the joined path as it is. Behind
/// `base` the platform puts its separator, or nothing where `base` needs
/// none. A verbatim base is the exception: Windows writes it anew when it
/// joins, so of such a base only the end of the path is claimed.
#[verifier::external_body]
fn join_name(base: &str, name: &str) -> (path: String)
    requires
        is_plain_name(name@),
    ensures
        ends_with(path@, name@),
        !is_verbatim(base@) ==> adjoined(path@, base@, name@),
{
    std::path::Path::new(base).join(name).to_string_lossy().into_owned()
}

/// Where Ollama is installed: under the name `ollama` in the directory of
/// the local runtimes, which is `llm_binaries_dir` with `ollama` adjoined.
pub fn get_ollama_install_path(llm_binaries_dir: &str) -> (path: String)
    ensures
        ends_with(path@, "ollama"@),
        !is_verbatim(llm_binaries_dir@) ==> adjoined(path@, llm_binaries_dir@, "ollama"@),
{
    proof {
        reveal_strlit("ollama");
        let name = "ollama"@;
        assert(name.len() == 6);
        assert(name[0] == 'o' && name[1] == 'l' && name[2] == 'l' && name[3] == 'a' && name[4]
            == 'm' && name[5] == 'a');
    }
    join_name(llm_binaries_dir, "ollama")
}

} // verus!
