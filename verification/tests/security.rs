use slatron::security::{
    download_allowed, is_safe_path, node_download_target, shell_guard, validate_script,
};

#[test]
fn test_is_safe_path() {
    assert!(is_safe_path("foo.txt"));
    assert!(is_safe_path("static/foo.txt"));
    assert!(is_safe_path("foo/bar/baz.txt"));

    // Reject parent dir traversal
    assert!(!is_safe_path("../foo.txt"));
    assert!(!is_safe_path("foo/../../bar.txt"));

    // Reject absolute paths
    assert!(!is_safe_path("/etc/passwd"));
    assert!(!is_safe_path("/tmp/foo.txt"));

    // A Windows drive path is an ordinary relative name on this platform.
    assert!(is_safe_path("C:\\Windows\\System32"));
}

#[test]
fn safe_path_edge_cases() {
    assert!(is_safe_path(""));
    assert!(is_safe_path("..foo/bar"));
    assert!(is_safe_path("foo/bar.."));
    assert!(is_safe_path("./foo"));
    assert!(!is_safe_path(".."));
    assert!(!is_safe_path("foo/.."));
    assert!(!is_safe_path("foo//../bar"));
}

#[test]
fn test_download_file_unsafe_protocol() {
    assert_eq!(
        download_allowed("file:///etc/passwd", "test_output.txt"),
        false,
        "download_file should return false for file:// protocol"
    );
    assert_eq!(
        download_allowed("ftp://example.com/foo", "test_output.txt"),
        false,
        "download_file should return false for ftp:// protocol"
    );
}

#[test]
fn test_download_file_safe_path_rejection() {
    assert_eq!(download_allowed("http://example.com", "../test.txt"), false, "Should reject .. path");
    assert_eq!(
        download_allowed("http://example.com", "/tmp/test.txt"),
        false,
        "Should reject absolute path"
    );
}

#[test]
fn download_allowed_for_web_urls() {
    assert!(download_allowed("http://example.com/a.mp4", "media/a.mp4"));
    assert!(download_allowed("https://example.com/a.mp4", "a.mp4"));
    assert!(!download_allowed("HTTP://example.com/a.mp4", "a.mp4"));
}

#[test]
fn test_shell_execute_blocked_command() {
    let args = vec!["-la".to_string()];
    let result = shell_guard("ls", &args).expect("ls must be refused");
    assert!(
        result.stderr.contains("Security Alert"),
        "Should block unauthorized command 'ls'. Got: {}",
        result.stderr
    );
    assert_eq!(result.stderr, "Security Alert: Command not allowed: ls");
    assert_eq!(result.code, -1);
    assert_eq!(result.stdout, "");
}

#[test]
fn test_shell_execute_blocked_args() {
    let args = vec!["--exec".to_string(), "touch hacked".to_string()];
    let result = shell_guard("yt-dlp", &args).expect("--exec must be refused");
    assert!(result.stderr.contains("Security Alert"), "Should block yt-dlp --exec. Got: {}", result.stderr);
    assert_eq!(result.stderr, "Security Alert: Argument not allowed for yt-dlp: --exec");
}

#[test]
fn test_shell_execute_allowed_command() {
    let args = vec!["-version".to_string()];
    assert!(shell_guard("ffmpeg", &args).is_none(), "Should allow authorized command 'ffmpeg'");
}

#[test]
fn shell_guard_reports_first_exec_argument() {
    let args = vec!["-f".to_string(), "--exec=rm".to_string(), "--exec".to_string()];
    let result = shell_guard("yt-dlp", &args).unwrap();
    assert_eq!(result.stderr, "Security Alert: Argument not allowed for yt-dlp: --exec=rm");
    // --exec is only refused for yt-dlp
    assert!(shell_guard("ffprobe", &args).is_none());
    assert!(shell_guard("yt-dlp", &["-x".to_string()]).is_none());
}

#[test]
fn validate_script_reports_compile_errors() {
    assert!(validate_script("let x = 1 + 2; x", "content_loader").is_empty());
    let problems = validate_script("let x = ;", "content_loader");
    assert_eq!(problems.len(), 1);
    assert!(problems[0].starts_with("Compilation error: "));
}

#[test]
fn node_download_expands_home() {
    let home = Some("/home/tv".to_string());
    assert_eq!(node_download_target("~/media/a.mp4", home.clone()).unwrap(), "/home/tv/media/a.mp4");
    assert_eq!(node_download_target("~/media/a.mp4", None).unwrap(), "~/media/a.mp4");
    assert_eq!(node_download_target("/abs/a.mp4", home.clone()).unwrap(), "/abs/a.mp4");
    assert_eq!(
        node_download_target("../a.mp4", home).unwrap_err(),
        "Security Alert: Script attempted to download file to unsafe path: ../a.mp4"
    );
}
