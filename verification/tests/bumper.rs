use slatron::bumper::{
    bumper_back_source, check_parsed_url, check_remote_url, escape_xml, is_valid_bumper_type, may_delete,
    parse_ipv4, path_extension, remote_file_extension, replace_all, split_chars, stored_back_path,
    substitute_variables, upload_accepted,
};
use slatron::models::User;

fn user(role: &str) -> User {
    User { id: Some(1), username: "u".to_string(), password_hash: "h".to_string(), role: role.to_string() }
}

#[test]
fn xml_escaping() {
    assert_eq!(escape_xml("Tom & Jerry's <\"TV\">"), "Tom &amp; Jerry&apos;s &lt;&quot;TV&quot;&gt;");
    assert_eq!(escape_xml("plain"), "plain");
}

#[test]
fn replacing_is_left_to_right_without_overlap() {
    assert_eq!(replace_all("aaaa", "aa", "b"), "bb");
    assert_eq!(replace_all("abc", "x", "y"), "abc");
    assert_eq!(replace_all("a.b.c", ".", ""), "abc");
}

#[test]
fn template_variables() {
    let t = "<t name=\"{{STATION_NAME}}\" c=\"{{THEME_COLOR}}\" b=\"{{BUMPER_BACK_PATH}}\"/>";
    assert_eq!(
        substitute_variables(t, "A&B", "#fff", Some("static/x.mp4")),
        "<t name=\"A&amp;B\" c=\"#fff\" b=\"static/x.mp4\"/>"
    );
    assert_eq!(
        substitute_variables(t, "S", "c", None),
        "<t name=\"S\" c=\"c\" b=\"{{BUMPER_BACK_PATH}}\"/>"
    );
}

#[test]
fn bumper_rules() {
    assert!(is_valid_bumper_type("station_ident"));
    assert!(is_valid_bumper_type("lower_third"));
    assert!(!is_valid_bumper_type("ident"));
    assert!(may_delete(&user("editor"), false));
    assert!(!may_delete(&user("editor"), true));
    assert!(may_delete(&user("admin"), true));
    assert!(!may_delete(&user("viewer"), false));
    assert_eq!(bumper_back_source("media/a.mp4"), "static/media/a.mp4");
    assert_eq!(stored_back_path("x.mp4"), "media/bumper_backs/x.mp4");
}

#[test]
fn download_extension() {
    assert_eq!(remote_file_extension("http://x/a.webm"), "webm");
    assert_eq!(remote_file_extension("http://x/a.mov"), "mov");
    assert_eq!(remote_file_extension("http://x/a.mkv"), "mp4");
}

#[test]
fn ipv4_parsing() {
    assert_eq!(parse_ipv4("192.168.1.20"), Some(vec![192, 168, 1, 20]));
    assert_eq!(parse_ipv4("0.0.0.0"), Some(vec![0, 0, 0, 0]));
    assert_eq!(parse_ipv4("256.1.1.1"), None);
    assert_eq!(parse_ipv4("01.1.1.1"), None);
    assert_eq!(parse_ipv4("1.1.1"), None);
    assert_eq!(parse_ipv4("example.com"), None);
    assert_eq!(parse_ipv4("1..1.1"), None);
}

#[test]
fn url_checks_on_parsed_parts() {
    let p = |s: &str, h: Option<&str>| Ok((s.to_string(), h.map(|x| x.to_string())));
    assert_eq!(check_parsed_url(p("https", Some("example.com"))), Ok(()));
    assert_eq!(check_parsed_url(p("ftp", Some("example.com"))), Err("Invalid URL scheme: ftp".to_string()));
    assert_eq!(check_parsed_url(p("http", Some("localhost"))), Err("Access to localhost is denied".to_string()));
    assert_eq!(
        check_parsed_url(p("http", Some("127.0.0.1"))),
        Err("Access to local/unspecified IP is denied".to_string())
    );
    assert_eq!(
        check_parsed_url(p("http", Some("172.20.0.1"))),
        Err("Access to private network is denied".to_string())
    );
    assert_eq!(
        check_parsed_url(p("http", Some("169.254.1.1"))),
        Err("Access to private network is denied".to_string())
    );
    assert_eq!(check_parsed_url(p("http", Some("172.32.0.1"))), Ok(()));
    assert_eq!(check_parsed_url(p("http", Some("[::1]"))), Ok(()));
    assert_eq!(check_parsed_url(Err("bad".to_string())), Err("bad".to_string()));
}

#[test]
fn url_checks_with_url_parser() {
    assert_eq!(check_remote_url("https://cdn.example.com/back.mp4"), Ok(()));
    assert_eq!(check_remote_url("http://10.1.2.3/x.mp4"), Err("Access to private network is denied".to_string()));
    assert_eq!(check_remote_url("file:///etc/passwd"), Err("Invalid URL scheme: file".to_string()));
    assert_eq!(check_remote_url("http://LOCALHOST/x"), Err("Access to localhost is denied".to_string()));
    assert!(check_remote_url("not a url").is_err());
}

#[test]
fn path_extensions() {
    assert_eq!(path_extension("clip.MP4"), Some("MP4".to_string()));
    assert_eq!(path_extension("dir/clip.tar.gz"), Some("gz".to_string()));
    assert_eq!(path_extension(".hidden"), None);
    assert_eq!(path_extension("noext"), None);
    assert_eq!(path_extension("dir/clip.mov/"), Some("mov".to_string()));
    assert_eq!(path_extension("a/.."), None);
    assert_eq!(path_extension("trailing."), Some("".to_string()));
}

#[test]
fn uploads_are_sniffed_and_whitelisted() {
    assert!(upload_accepted(Some("video/mp4"), Some("Intro.MKV")));
    assert!(upload_accepted(Some("video/webm"), None));
    assert!(!upload_accepted(Some("image/png"), Some("a.mp4")));
    assert!(!upload_accepted(None, Some("a.mp4")));
    assert!(!upload_accepted(Some("video/mp4"), Some("a.exe")));
}

#[test]
fn splitting() {
    let parts = split_chars(&['a', ',', ',', 'b'], ',');
    assert_eq!(parts, vec![vec!['a'], vec![], vec!['b']]);
    assert_eq!(split_chars(&[], ','), vec![Vec::<char>::new()]);
}
