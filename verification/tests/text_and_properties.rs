use pods::commit::is_whitespace;
use pods::properties::{binding_rows, ports_page};
use pods::text::text_equals;
use pods::parse::parse_i32;
use pods::properties::volume_path_label;
use pods::commit::{commit_options, commit_reference, optional_setting, trim, trim_range};
use pods::properties::{
    binding_host, host_link, image_label, image_page, mapping_host, port_bindings_visible, port_mapping_label,
    remote_host, rename_heading, signed_decimal,
};
use pods::text::{decimal, markup_escape, name_markup, short_id, split_once, split_spaces};

#[test]
fn short_ids() {
    assert_eq!(short_id("0123456789abcdef0123"), "0123456789ab");
    assert_eq!(short_id("abc"), "abc");
    assert_eq!(short_id(""), "");
}

#[test]
fn decimals() {
    assert_eq!(decimal(0), "0");
    assert_eq!(decimal(7), "7");
    assert_eq!(decimal(1234567890), "1234567890");
    assert_eq!(decimal(u64::MAX), u64::MAX.to_string());
    assert_eq!(signed_decimal(-42), "-42");
    assert_eq!(signed_decimal(i64::MIN), i64::MIN.to_string());
    assert_eq!(signed_decimal(0), "0");
}

#[test]
fn escaping() {
    assert_eq!(markup_escape("a<b>&\"c'd"), "a&lt;b&gt;&amp;&quot;c&#39;d");
    assert_eq!(markup_escape("plain ünïcode"), "plain ünïcode");
    assert_eq!(markup_escape("\u{1}x\u{1f}\u{7f}\u{85}\t\n"), "&#x1;x&#x1f;&#x7f;\u{85}\t\n");
    assert_eq!(name_markup("web<1>", false), "web&lt;1&gt;");
    assert_eq!(name_markup("web", true), "<s>web</s>");
}

#[test]
fn splitting() {
    assert_eq!(split_once("2024 hello world", " "), Some(("2024".to_string(), "hello world".to_string())));
    assert_eq!(split_once("nospace", " "), None);
    assert_eq!(split_once("tcp://host:2375", "://"), Some(("tcp".to_string(), "host:2375".to_string())));
    assert_eq!(split_once("abc", ""), Some(("".to_string(), "abc".to_string())));
    assert_eq!(split_spaces("curl -f  http://x"), vec!["curl", "-f", "", "http://x"]);
    assert_eq!(split_spaces(""), vec![""]);
    assert_eq!(split_spaces("a "), vec!["a", ""]);
}

#[test]
fn port_binding_hosts() {
    assert_eq!(binding_host(Some("0.0.0.0"), Some("8080"), None), "0.0.0.0:8080");
    assert_eq!(binding_host(Some(""), Some("80"), None), "127.0.0.1:80");
    assert_eq!(binding_host(None, None, Some("tcp://remote:2375")), "tcp://remote:2375:0");
    assert_eq!(remote_host("ssh://user@example.com:22/run/podman.sock"), "user@example.com");
    assert_eq!(remote_host("unix:///run/podman/podman.sock"), "/run/podman/podman.sock");
    assert_eq!(mapping_host("", Some("tcp://10.0.0.2:8888"), 8080), "10.0.0.2:8080");
    assert_eq!(mapping_host("", None, 443), "127.0.0.1:443");
    assert_eq!(mapping_host("192.168.1.5", Some("tcp://x:1"), 22), "192.168.1.5:22");
    assert_eq!(host_link("127.0.0.1:80"), "<a href='http://127.0.0.1:80'>127.0.0.1:80</a>");
    assert_eq!(port_mapping_label(8080, "tcp"), "8080/tcp");
    assert!(port_bindings_visible(Some(2)));
    assert!(!port_bindings_visible(Some(0)));
    assert!(!port_bindings_visible(None));
}

#[test]
fn image_labels() {
    let tags = vec!["docker.io/library/alpine:latest".to_string(), "alpine:3".to_string()];
    assert_eq!(image_label(&tags, "sha256abcdef0123456789"), "docker.io/library/alpine:latest");
    assert_eq!(image_label(&Vec::new(), "sha256abcdef0123456789"), "sha256abcdef");
    assert_eq!(image_page(true), "ready");
    assert_eq!(image_page(false), "waiting");
}

#[test]
fn rename_headings() {
    assert_eq!(rename_heading("Rename Container", "web"), "Rename Container\n<span weight=\"bold\">«web»</span>");
}

#[test]
fn trimming_and_commit_settings() {
    assert_eq!(trim("  hello world \t\n"), "hello world");
    assert_eq!(trim("\u{2003}x\u{a0}"), "x");
    assert_eq!(trim("   "), "");
    assert_eq!(optional_setting("  Jane Doe "), Some("Jane Doe".to_string()));
    assert_eq!(optional_setting(" \t "), None);
    assert_eq!(commit_reference("myrepo", ""), Some("myrepo:latest".to_string()));
    assert_eq!(commit_reference("myrepo", "v1"), Some("myrepo:v1".to_string()));
    assert_eq!(commit_reference("", "v1"), None);
}

#[test]
fn volume_path_labels() {
    assert_eq!(
        volume_path_label("/data", false, (53, 132, 228), true, ""),
        "<span alpha=\"55%\">/data</span> <span foreground=\"#3584e4\">rw</span>"
    );
    assert_eq!(
        volume_path_label("/etc", true, (0, 10, 255), false, "z,noexec"),
        "/etc <span foreground=\"#000aff\" weight=\"bold\">ro,z,noexec</span>"
    );
}

#[test]
fn decimal_reads_back_as_a_port() {
    for n in [0, 7, 80, 8080, 65535, -1, i32::MAX, i32::MIN] {
        assert_eq!(parse_i32(&signed_decimal(n as i64)), Some(n));
    }
}

#[test]
fn commit_option_collection() {
    let options = commit_options(" me ", "", "repo", "  ", vec!["CMD x".to_string()], Some("oci".to_string()), true);
    assert_eq!(options.author.as_deref(), Some("me"));
    assert_eq!(options.comment, None);
    assert_eq!(options.repo.as_deref(), Some("repo"));
    assert_eq!(options.tag, None);
    assert_eq!(options.changes, vec!["CMD x".to_string()]);
    assert_eq!(options.format.as_deref(), Some("oci"));
    assert!(options.pause);
}

#[test]
fn trim_ranges() {
    assert_eq!(trim_range(&vec![true, false, true, false, true, true]), (1, 4));
    assert_eq!(trim_range(&vec![true, true]), (2, 2));
    assert_eq!(trim_range(&vec![]), (0, 0));
    assert_eq!(trim_range(&vec![false]), (0, 1));
}

#[test]
fn commit_reference_trims() {
    assert_eq!(commit_reference(" myrepo ", ""), Some("myrepo:latest".to_string()));
    assert_eq!(commit_reference("repo", " v2\t"), Some("repo:v2".to_string()));
    assert_eq!(commit_reference("   ", "v1"), None);
    assert_eq!(commit_reference("r", "   "), Some("r:latest".to_string()));
}

#[test]
fn binding_row_lists() {
    let bindings = vec![
        ("80/tcp".to_string(), vec![(Some("0.0.0.0".to_string()), Some("8080".to_string())), (None, None)]),
        ("53/udp".to_string(), vec![(Some("".to_string()), Some("5353".to_string()))]),
    ];
    assert_eq!(
        binding_rows(&bindings, None),
        vec![
            ("0.0.0.0:8080".to_string(), "80/tcp".to_string()),
            ("127.0.0.1:0".to_string(), "80/tcp".to_string()),
            ("127.0.0.1:5353".to_string(), "53/udp".to_string()),
        ]
    );
    assert_eq!(ports_page(true, 3), "pod");
    assert_eq!(ports_page(false, 3), "ports");
    assert_eq!(ports_page(false, 0), "no-ports");
}

#[test]
fn equality_and_white_space() {
    assert!(text_equals("abc", "abc"));
    assert!(!text_equals("abc", "abd"));
    assert!(!text_equals("ab", "abc"));
    for c in ['\t', '\n', ' ', '\u{85}', '\u{a0}', '\u{1680}', '\u{2003}', '\u{3000}', 'a', '\u{200b}', '\u{feff}'] {
        assert_eq!(is_whitespace(c), c.is_whitespace(), "{c:?}");
    }
}
