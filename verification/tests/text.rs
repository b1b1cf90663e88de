use meatshell::addr::{conn_ip, parent_path, split_proxy};
use meatshell::text::{
    found_in, in_order, is_white_space, parse_unsigned, split_all, split_at_most, t, to_chars,
    to_decimal, to_signed_decimal, trim_end_text, trim_text,
};
use meatshell::version::{is_newer, parse_version, update_for_tag, update_to_announce};

fn pieces(s: &str, sep: char, limit: u128) -> Vec<String> {
    split_at_most(&to_chars(s), sep, limit).iter().map(|p| p.iter().collect()).collect()
}

fn proxy(url: &str) -> (String, String) {
    split_proxy(url)
}

#[test]
fn white_space_is_that_of_std() {
    for n in 0..0x110000u32 {
        if let Some(c) = char::from_u32(n) {
            assert_eq!(is_white_space(c), c.is_whitespace());
        }
    }
}

#[test]
fn trimming() {
    for s in ["", "  ", " a b ", "\u{3000}x\u{a0}", "x", "\t\nx\r\n"] {
        assert_eq!(trim_text(s), s.trim());
        assert_eq!(trim_end_text(s), s.trim_end());
    }
}

#[test]
fn splitting() {
    assert_eq!(pieces("a|b|c", '|', 2), vec!["a", "b|c"]);
    assert_eq!(pieces("a|b|c", '|', 5), vec!["a", "b", "c"]);
    assert_eq!(pieces("", '|', 5), vec![""]);
    assert_eq!(pieces("|", '|', 5), vec!["", ""]);
    for s in ["", "\n", "a\nb", "a\n", "\n\n"] {
        let mine: Vec<String> =
            split_all(&to_chars(s), '\n').iter().map(|p| p.iter().collect()).collect();
        let std: Vec<String> = s.split('\n').map(|p| p.to_string()).collect();
        assert_eq!(mine, std);
    }
}

#[test]
fn numbers() {
    for s in ["0", "7", "+7", "007", "65535", "65536", "", "+", "-1", "1 ", "４", "++1", "4294967296"] {
        let p16 = parse_unsigned(&to_chars(s), 65535);
        assert_eq!(p16, s.parse::<u16>().ok().map(|n| n as u32));
        let p32 = parse_unsigned(&to_chars(s), u32::MAX);
        assert_eq!(p32, s.parse::<u32>().ok());
    }
    assert_eq!(to_decimal(0), "0");
    assert_eq!(to_decimal(1234567890), "1234567890");
    assert_eq!(to_decimal(u128::MAX), u128::MAX.to_string());
    assert_eq!(to_signed_decimal(i32::MIN), "-2147483648");
    assert_eq!(to_signed_decimal(-5), "-5");
    assert_eq!(to_signed_decimal(i32::MAX), "2147483647");
}

#[test]
fn ordering_and_searching() {
    let words = ["", "A", "a", "ab", "b", "中", "\u{10000}"];
    for x in words {
        for y in words {
            assert_eq!(in_order(&to_chars(x), &to_chars(y)), x <= y);
            assert_eq!(found_in(&to_chars(x), &to_chars(y)), x.contains(y));
        }
    }
}

#[test]
fn languages() {
    assert_eq!(t(true, "中", "en"), "en");
    assert_eq!(t(false, "中", "en"), "中");
}

#[test]
fn versions() {
    assert_eq!(parse_version("1.2.3"), Some((1, 2, 3)));
    assert_eq!(parse_version(" v1.2.3 "), Some((1, 2, 3)));
    assert_eq!(parse_version("vv1.2.3"), Some((1, 2, 3)));
    assert_eq!(parse_version("0.5.3-rc1"), Some((0, 5, 3)));
    assert_eq!(parse_version("0.5.3-rc.1"), Some((0, 5, 3)));
    assert_eq!(parse_version("1.2.3.4"), None);
    assert_eq!(parse_version("1.2.3."), None);
    assert_eq!(parse_version("1.2..4"), None);
    assert_eq!(parse_version("1.2"), None);
    assert_eq!(parse_version("1.2."), None);
    assert_eq!(parse_version("1.2.rc"), None);
    assert_eq!(parse_version("1.x.3"), None);
    assert_eq!(parse_version(""), None);
    assert_eq!(parse_version("4294967296.0.0"), None);
}

#[test]
fn newer_versions() {
    assert!(is_newer("v0.5.1", "0.5.0"));
    assert!(is_newer("v0.6.0", "0.5.9"));
    assert!(is_newer("v1.0.0", "0.99.99"));
    assert!(!is_newer("v0.5.0", "0.5.0"));
    assert!(!is_newer("v0.4.9", "0.5.0"));
    assert!(!is_newer("nightly", "0.5.0"));
    assert!(!is_newer("v0.5.1", "dev"));
}

#[test]
fn update_announcements() {
    let body = "{\"name\": \"x\", \"tag_name\": \"v0.6.0\"}";
    assert_eq!(update_to_announce(body, "0.5.0"), Some("v0.6.0".to_string()));
    assert_eq!(update_to_announce(body, "0.6.0"), None);
    assert_eq!(update_to_announce("{\"tag_name\": 7}", "0.5.0"), None);
    assert_eq!(update_to_announce("{\"name\": \"v9.9.9\"}", "0.5.0"), None);
    assert_eq!(update_to_announce("[1, 2]", "0.5.0"), None);
    assert_eq!(update_to_announce("not json", "0.5.0"), None);
    assert_eq!(update_to_announce("", "0.5.0"), None);
    assert_eq!(update_for_tag(Some("v1.0.0".to_string()), "0.5.0"), Some("v1.0.0".to_string()));
    assert_eq!(update_for_tag(None, "0.5.0"), None);
}

#[test]
fn proxies() {
    assert_eq!(proxy(""), ("none".to_string(), "".to_string()));
    assert_eq!(proxy("   "), ("none".to_string(), "".to_string()));
    assert_eq!(proxy("http://a:1"), ("http".to_string(), "a:1".to_string()));
    assert_eq!(proxy("HTTPS://a:1//"), ("http".to_string(), "a:1".to_string()));
    assert_eq!(proxy("socks5h://h:2/"), ("socks5".to_string(), "h:2".to_string()));
    assert_eq!(proxy("socks5://h:2"), ("socks5".to_string(), "h:2".to_string()));
    assert_eq!(proxy("Socks://h:2"), ("socks5".to_string(), "h:2".to_string()));
    assert_eq!(proxy(" h:2/ "), ("socks5".to_string(), "h:2".to_string()));
    assert_eq!(proxy("http://"), ("http".to_string(), "".to_string()));
}

#[test]
fn hosts_and_paths() {
    assert_eq!(conn_ip("root@192.168.100.2"), "192.168.100.2");
    assert_eq!(conn_ip("a@b@ c "), "c");
    assert_eq!(conn_ip("10.0.0.1"), "10.0.0.1");
    assert_eq!(conn_ip(""), "");
    assert_eq!(parent_path("/a/b/c"), "/a/b");
    assert_eq!(parent_path("/a"), "/");
    assert_eq!(parent_path("/"), "/");
    assert_eq!(parent_path("/a/b//"), "/a");
    assert_eq!(parent_path(""), "/");
    assert_eq!(parent_path("a"), "/");
    assert_eq!(parent_path("a/b"), "a");
}
