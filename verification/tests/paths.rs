use braincells::utils::paths::{
    get_ollama_download_url, get_ollama_install_path, get_platform_name, UnsupportedPlatform,
};

#[test]
fn test_platform_name() {
    for os in ["windows", "macos", "linux", "freebsd", ""] {
        let platform = get_platform_name(os);
        assert!(["windows", "macos", "linux", "unknown"].contains(&platform));
    }
}

#[test]
fn platform_names_are_those_of_the_three_known_systems() {
    assert_eq!(get_platform_name("windows"), "windows");
    assert_eq!(get_platform_name("macos"), "macos");
    assert_eq!(get_platform_name("linux"), "linux");
    assert_eq!(get_platform_name("freebsd"), "unknown");
    assert_eq!(get_platform_name("Linux"), "unknown");
}

#[test]
fn download_urls_by_platform() {
    assert_eq!(
        get_ollama_download_url("windows", "x86_64").unwrap(),
        "https://ollama.ai/download/OllamaSetup.exe"
    );
    assert_eq!(
        get_ollama_download_url("macos", "aarch64").unwrap(),
        "https://ollama.ai/download/Ollama-darwin-arm64.zip"
    );
    assert_eq!(
        get_ollama_download_url("macos", "x86_64").unwrap(),
        "https://ollama.ai/download/Ollama-darwin-x86_64.zip"
    );
    assert_eq!(get_ollama_download_url("linux", "riscv64").unwrap(), "https://ollama.ai/install.sh");
    assert_eq!(get_ollama_download_url("macos", "powerpc"), Err(UnsupportedPlatform));
    assert_eq!(get_ollama_download_url("freebsd", "x86_64"), Err(UnsupportedPlatform));
    assert_eq!(UnsupportedPlatform.message(), "Unsupported platform for Ollama installation");
}

#[test]
fn ollama_is_installed_under_its_name_in_the_directory_given() {
    let expected = std::path::Path::new("/data/llm_binaries").join("ollama");
    assert_eq!(get_ollama_install_path("/data/llm_binaries"), expected.to_string_lossy());
    assert!(get_ollama_install_path("").ends_with("ollama"));
    assert!(get_ollama_install_path("relative/dir/").ends_with("ollama"));
}

#[test]
fn the_install_path_is_the_directory_with_the_name_adjoined() {
    for dir in ["/data/llm_binaries", "/data/llm_binaries/", "relative", "", "/"] {
        let path = get_ollama_install_path(dir);
        let rest = path.strip_prefix(dir).unwrap();
        assert!(rest == "ollama" || rest == format!("{}ollama", std::path::MAIN_SEPARATOR));
        assert_eq!(std::path::Path::new(&path).file_name().unwrap(), "ollama");
    }
}
