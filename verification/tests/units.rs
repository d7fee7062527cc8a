use argon2::password_hash::{PasswordHasher, SaltString};
use argon2::Argon2;
use std::collections::HashSet;
use tempshare::auth::{hash_password, hash_password_with_salt, verify_password, RateLimiter};
use tempshare::download::client_ip;
use tempshare::error::AppError;
use tempshare::headers::{
    content_disposition, cookie_value, fits_header, header_text, parse_range, percent_encode_utf8,
    RequestHeaders,
};
use tempshare::ids::{generate_session_token, generate_share_id, token_from_bytes, ALPHABET};
use tempshare::names::{sanitize_filename, sanitize_zip_entry};
use tempshare::net::IpAddr;
use tempshare::page::{html_escape, render_page};
use tempshare::shares::{field_text, parse_expiry, parse_expiry_at, parse_max_downloads};
use tempshare::state::{AppState, Config, EnvVars, NANOS_PER_SEC};
use tempshare::text::{
    alphanumeric, chars_of, control, decimal_text, find_text, graphic, parse_signed, parse_unsigned,
    signed_decimal_text, split_at_char, text_of, to_lowercase, trim_text, white_space,
};
use tempshare::tunnel::{says_registered, trycloudflare_url, tunnel_arguments};

fn v4(a: u8, b: u8, c: u8, d: u8) -> IpAddr {
    IpAddr::V4(u32::from_be_bytes([a, b, c, d]))
}

fn no_headers() -> RequestHeaders {
    RequestHeaders {
        host: None,
        origin: None,
        range: None,
        cookie: None,
        unlock_token: None,
        forwarded_ip: None,
    }
}

fn no_vars() -> EnvVars {
    EnvVars {
        storage_dir: None,
        db_path: None,
        bind_addr: None,
        public_bind_addr: None,
        public_base_url: None,
        auto_tunnel: None,
        max_upload_bytes: None,
        rate_limit_per_min: None,
        unlock_token_ttl_secs: None,
        bandwidth_bytes_per_sec: None,
    }
}

// Identifiers

#[test]
fn ids_are_unique_and_correct_length() {
    let mut seen = HashSet::new();
    for _ in 0..10_000 {
        let id = generate_share_id();
        assert_eq!(id.len(), 22);
        assert!(seen.insert(id), "collision detected in 10k samples");
    }
}

#[test]
fn ids_only_use_alphabet_chars() {
    let id = generate_share_id();
    for c in id.chars() {
        assert!(ALPHABET.as_bytes().contains(&(c as u8)));
    }
}

#[test]
fn session_tokens_have_their_length_and_alphabet() {
    let token = generate_session_token();
    assert_eq!(token.len(), 32);
    assert!(token.chars().all(|c| ALPHABET.contains(c)));
    assert_ne!(token, generate_session_token());
}

#[test]
fn token_text_follows_the_alphabet() {
    assert_eq!(token_from_bytes(&[0, 1, 56, 57, 58, 255]), "AB9ABd");
    assert_eq!(token_from_bytes(&[]), "");
}

// Passwords

#[test]
fn password_roundtrip() {
    let h = hash_password("correct horse battery staple").unwrap();
    assert!(verify_password("correct horse battery staple", &h));
    assert!(!verify_password("wrong password", &h));
}

#[test]
fn password_text_is_that_of_argon2id() {
    let salt = [7u8; 16];
    let expected = Argon2::default()
        .hash_password(b"secret", &SaltString::encode_b64(&salt).unwrap())
        .unwrap()
        .to_string();
    let text = hash_password_with_salt("secret", &salt).unwrap();
    assert_eq!(text, expected);
    assert!(text.starts_with("$argon2id$v=19$m=19456,t=2,p=1$"));
    assert_ne!(text, "secret");
    assert!(verify_password("secret", &text));
}

#[test]
fn fresh_salts_make_different_texts() {
    assert_ne!(hash_password("same").unwrap(), hash_password("same").unwrap());
}

#[test]
fn text_that_is_no_hash_accepts_nothing() {
    assert!(!verify_password("", ""));
    assert!(!verify_password("x", "x"));
    assert!(!verify_password("x", "$argon2id$v=19$broken"));
}

#[test]
fn other_salts_make_other_texts() {
    let a = hash_password_with_salt("same", &[1u8; 16]).unwrap();
    let b = hash_password_with_salt("same", &[2u8; 16]).unwrap();
    let longer = hash_password_with_salt("same", &[1u8; 17]).unwrap();
    assert!(a != b && a != longer && b != longer);
    for text in [&a, &b, &longer] {
        assert!(text.starts_with("$argon2id$"));
        assert!(verify_password("same", text));
    }
}

#[test]
fn text_with_too_many_lanes_accepts_nothing() {
    let text = hash_password_with_salt("secret", &[7u8; 16]).unwrap();
    for lanes in ["536870912", "4294967295", "100000000", "99999999999999", "000000001"] {
        let asked = text.replace("p=1$", &format!("p={lanes}$"));
        assert!(!verify_password("secret", &asked), "{lanes}");
        let again = text.replace("p=1$", &format!("p=1,p={lanes}$"));
        assert!(!verify_password("secret", &again), "{lanes}");
    }
    // The last count of lanes is the one that holds.
    assert!(verify_password("secret", &text.replace("p=1$", "p=536870912,p=1$")));
    assert!(!verify_password("secret", "p=123456789"));
}

// Request limiting

#[test]
fn rate_limiter_blocks_after_threshold() {
    let mut rl = RateLimiter::new(3, 60 * NANOS_PER_SEC);
    let ip = v4(127, 0, 0, 1);
    assert!(rl.check(ip, 1000));
    assert!(rl.check(ip, 2000));
    assert!(rl.check(ip, 3000));
    assert!(!rl.check(ip, 4000));
}

#[test]
fn rate_limiter_window_slides() {
    let mut rl = RateLimiter::new(2, 10);
    let ip = v4(10, 0, 0, 1);
    assert!(rl.check(ip, 0));
    assert!(rl.check(ip, 5));
    assert!(!rl.check(ip, 9));
    assert!(rl.check(ip, 10));
    assert!(!rl.check(ip, 14));
    assert!(rl.check(ip, 15));
}

#[test]
fn rate_limiter_counts_addresses_apart() {
    let mut rl = RateLimiter::new(1, 10);
    assert!(rl.check(v4(10, 0, 0, 1), 0));
    assert!(!rl.check(v4(10, 0, 0, 1), 1));
    assert!(rl.check(v4(10, 0, 0, 2), 1));
    assert!(rl.check(IpAddr::V6(1), 1));
}

#[test]
fn rate_limiter_sweep_is_not_noticed() {
    let mut swept = RateLimiter::new(2, 10);
    let mut kept = RateLimiter::new(2, 10);
    let ip = v4(10, 0, 0, 1);
    for tick in [0u128, 3, 4, 9, 11, 12, 13, 14, 22, 23, 24, 40] {
        swept.sweep(tick);
        assert_eq!(swept.check(ip, tick), kept.check(ip, tick), "{tick}");
    }
}

#[test]
fn rate_limiter_of_zero_lets_nobody_in() {
    let mut rl = RateLimiter::new(0, 10);
    assert!(!rl.check(v4(10, 0, 0, 1), 0));
}

// Client addresses

#[test]
fn cloudflare_ip_is_trusted_only_from_loopback_proxy() {
    let mut headers = no_headers();
    headers.forwarded_ip = Some(v4(203, 0, 113, 9));
    let loopback = v4(127, 0, 0, 1);
    let remote = v4(198, 51, 100, 7);
    assert_eq!(client_ip(loopback, &headers), v4(203, 0, 113, 9));
    assert_eq!(client_ip(remote, &headers), v4(198, 51, 100, 7));
}

#[test]
fn loopback_without_report_counts_for_itself() {
    assert_eq!(client_ip(v4(127, 0, 0, 1), &no_headers()), v4(127, 0, 0, 1));
    assert!(v4(127, 255, 255, 255).is_loopback());
    assert!(!v4(128, 0, 0, 0).is_loopback());
    assert!(!v4(126, 255, 255, 255).is_loopback());
    assert!(IpAddr::V6(1).is_loopback());
    assert!(!IpAddr::V6(2).is_loopback());
}

// Ranges

#[test]
fn range_parser_accepts_valid_single_ranges() {
    assert_eq!(parse_range("bytes=5-9", 20), Some((5, 9)));
    assert_eq!(parse_range("bytes=5-", 20), Some((5, 19)));
    assert_eq!(parse_range("bytes=-5", 20), Some((15, 19)));
    assert_eq!(parse_range("bytes=0-999", 20), Some((0, 19)));
}

#[test]
fn range_parser_rejects_adversarial_values() {
    for value in [
        "bytes=-",
        "bytes=--1",
        "bytes=-0",
        "bytes=5-2",
        "bytes=20-",
        "bytes=999999999999999999999999-",
        "bytes=1-2,4-5",
        "bytes=abc-def",
        "bytes=",
        "items=0-1",
    ] {
        assert_eq!(parse_range(value, 20), None, "{value}");
    }
    assert_eq!(parse_range("bytes=0-0", 0), None);
}

#[test]
fn range_parser_edges() {
    assert_eq!(parse_range("bytes=-25", 20), Some((0, 19)));
    assert_eq!(parse_range("bytes=-20", 20), Some((0, 19)));
    assert_eq!(parse_range("bytes=19-19", 20), Some((19, 19)));
    for value in ["bytes=+5-9", "bytes=5-+9", "bytes=+5-+9", "bytes=+5-", "bytes=-+5", "bytes= 5-9"] {
        assert_eq!(parse_range(value, 20), None, "{value}");
    }
    assert_eq!(parse_range("bytes=5-9-", 20), None);
    assert_eq!(parse_range("Bytes=5-9", 20), None);
    assert_eq!(parse_range("bytes=0-18446744073709551615", 20), Some((0, 19)));
    assert_eq!(parse_range("bytes=0-18446744073709551616", 20), None);
    assert_eq!(
        parse_range("bytes=18446744073709551614-", u64::MAX),
        Some((u64::MAX - 1, u64::MAX - 1))
    );
}

// Headers

#[test]
fn disposition_preserves_unicode_filename() {
    let value = content_disposition("محاضرة 🎓.mp4");
    assert!(value.contains("filename*=UTF-8''"));
    assert!(value.contains("%D9%85%D8%AD%D8%A7%D8%B6%D8%B1%D8%A9"));
    assert!(value.ends_with(".mp4"));
}

#[test]
fn disposition_is_exact() {
    assert_eq!(
        content_disposition("a \"b\\c\".txt"),
        "attachment; filename=\"a__b_c_.txt\"; filename*=UTF-8''a%20%22b%5Cc%22.txt"
    );
    assert_eq!(percent_encode_utf8("!#$&+-.^_`|~aZ9 %é"), "!#$&+-.^_`|~aZ9%20%25%C3%A9");
}

#[test]
fn dispositions_are_header_values() {
    for name in ["plain.txt", "tab\there", "line\nbreak", "\u{7f}", "é🎓", "\"; x=\"y"] {
        let value = content_disposition(name);
        assert!(axum::http::HeaderValue::from_str(&value).is_ok(), "{name:?}");
    }
}

#[test]
fn header_text_reads_what_http_reads() {
    for b in 0..=255u8 {
        let ours = header_text(&Some(vec![b'a', b])).map(|chars| text_of(&chars));
        let theirs = axum::http::HeaderValue::from_bytes(&[b'a', b])
            .ok()
            .and_then(|v| v.to_str().ok().map(|s| s.to_string()));
        assert_eq!(ours, theirs, "{b}");
    }
    assert_eq!(header_text(&None), None);
}

#[test]
fn header_values_are_those_of_http() {
    for c in ('\u{0}'..='\u{3ff}').chain("🎓\u{ffff}".chars()) {
        let text = format!("a{c}");
        assert_eq!(
            fits_header(&text),
            axum::http::HeaderValue::from_str(&text).is_ok(),
            "{c:?}"
        );
    }
}

#[test]
fn cookies_are_found_by_name() {
    let mut headers = no_headers();
    headers.cookie = Some(b"a=1; tempshare_session=tok;b = 2;noequals; tempshare_unlock=x=y".to_vec());
    assert_eq!(cookie_value(&headers, "tempshare_session").as_deref(), Some("tok"));
    assert_eq!(cookie_value(&headers, "a").as_deref(), Some("1"));
    assert_eq!(cookie_value(&headers, "b ").as_deref(), Some(" 2"));
    assert_eq!(cookie_value(&headers, "b"), None);
    assert_eq!(cookie_value(&headers, "tempshare_unlock").as_deref(), Some("x=y"));
    assert_eq!(cookie_value(&headers, "noequals"), None);
    headers.cookie = Some(b"a=1; a=2".to_vec());
    assert_eq!(cookie_value(&headers, "a").as_deref(), Some("1"));
    headers.cookie = Some(vec![b'a', b'=', 0xff]);
    assert_eq!(cookie_value(&headers, "a"), None);
    assert_eq!(cookie_value(&no_headers(), "a"), None);
}

// Names

#[test]
fn filenames_are_cleaned() {
    assert_eq!(sanitize_filename("../../etc/passwd"), "____etc_passwd");
    assert_eq!(sanitize_filename("a\\b\nc\u{7f}"), "a_bc");
    assert_eq!(sanitize_filename("  "), "download.bin");
    assert_eq!(sanitize_filename(""), "download.bin");
    assert_eq!(sanitize_filename("..."), "_.");
    assert_eq!(sanitize_filename(" x.txt "), "x.txt");
    assert_eq!(sanitize_filename(&"é".repeat(300)), "é".repeat(255));
}

#[test]
fn archive_entries_are_cleaned() {
    assert_eq!(sanitize_zip_entry("docs/readme.txt"), "docs/readme.txt");
    assert_eq!(sanitize_zip_entry("/../a/./b\\..\\c"), "a/b/c");
    assert_eq!(sanitize_zip_entry("../.."), "file.bin");
    assert_eq!(sanitize_zip_entry(""), "file.bin");
    assert_eq!(sanitize_zip_entry("a/ /b"), "a/download.bin/b");
    assert_eq!(sanitize_zip_entry("a/.. /b"), "a/_/b");
}

// Settings

#[test]
fn expiry_values() {
    assert_eq!(parse_expiry_at("never", 100).unwrap(), None);
    assert_eq!(parse_expiry_at("", 100).unwrap(), None);
    assert_eq!(parse_expiry_at("1h", 100).unwrap(), Some(3700));
    assert_eq!(parse_expiry_at("24h", 100).unwrap(), Some(86_500));
    assert_eq!(parse_expiry_at("7d", 100).unwrap(), Some(604_900));
    assert_eq!(parse_expiry_at("30d", 100).unwrap(), Some(2_592_100));
    assert_eq!(parse_expiry_at("+5", 100).unwrap(), Some(105));
    for (value, message) in [
        ("soon", "invalid expiry value"),
        ("9223372036854775808", "invalid expiry value"),
        ("0", "expiry must be positive"),
        ("-7", "expiry must be positive"),
        ("9223372036854775807", "expiry is too large"),
    ] {
        assert!(
            matches!(parse_expiry_at(value, 100), Err(AppError::BadRequest(m)) if m == message),
            "{value}"
        );
    }
}

#[test]
fn expiry_counts_from_the_clock() {
    let before = chrono::Utc::now().timestamp();
    let at = parse_expiry("1h").unwrap().unwrap();
    let after = chrono::Utc::now().timestamp();
    assert!(before + 3600 <= at && at <= after + 3600);
}

#[test]
fn download_limits() {
    assert_eq!(parse_max_downloads("unlimited").unwrap(), None);
    assert_eq!(parse_max_downloads("").unwrap(), None);
    assert_eq!(parse_max_downloads("3").unwrap(), Some(3));
    assert!(matches!(parse_max_downloads("x"),
        Err(AppError::BadRequest(m)) if m == "invalid max_downloads value"));
    assert!(matches!(parse_max_downloads("0"),
        Err(AppError::BadRequest(m)) if m == "max_downloads must be positive"));
}

#[test]
fn field_text_replaces_what_is_no_text() {
    assert_eq!(field_text(b"  hello \r\n"), "hello");
    assert_eq!(field_text(b"\xff a "), "\u{fffd} a");
    assert_eq!(field_text("é".as_bytes()), "é");
}

// Configuration

#[test]
fn configuration_defaults() {
    let config = Config::from_env(no_vars());
    assert_eq!(config.storage_dir, "./data/shared_files");
    assert_eq!(config.db_path, "./data/tempshare.db");
    assert_eq!(config.bind_addr, "127.0.0.1:7420");
    assert_eq!(config.public_bind_addr, "127.0.0.1:7421");
    assert_eq!(config.public_base_url, "http://127.0.0.1:7421");
    assert!(!config.auto_tunnel);
    assert_eq!(config.max_upload_bytes, 53_687_091_200);
    assert_eq!(config.global_rate_limit_per_min, 120);
    assert_eq!(config.failed_auth_max, 5);
    assert_eq!(config.failed_auth_window_secs, 300);
    assert_eq!(config.unlock_token_ttl_secs, 900);
    assert_eq!(config.bandwidth_bytes_per_sec, 0);
}

#[test]
fn configuration_from_variables() {
    let mut vars = no_vars();
    vars.public_base_url = Some("https://x.example//".to_string());
    vars.auto_tunnel = Some("YES".to_string());
    vars.max_upload_bytes = Some("1024".to_string());
    vars.rate_limit_per_min = Some("4294967296".to_string());
    vars.unlock_token_ttl_secs = Some("+60".to_string());
    vars.bandwidth_bytes_per_sec = Some("fast".to_string());
    let config = Config::from_env(vars);
    assert_eq!(config.public_base_url, "https://x.example");
    assert!(config.auto_tunnel);
    assert_eq!(config.max_upload_bytes, 1024);
    assert_eq!(config.global_rate_limit_per_min, 120);
    assert_eq!(config.unlock_token_ttl_secs, 60);
    assert_eq!(config.bandwidth_bytes_per_sec, 0);
    let state = AppState::new(config);
    assert_eq!(state.tunnel_status(), "starting");
    assert_eq!(state.public_base_url(), "https://x.example");
}

// The page

#[test]
fn page_shows_names_as_text() {
    assert_eq!(html_escape("<a href='x'>&\"</a>"), "&lt;a href=&#39;x&#39;&gt;&amp;&quot;&lt;/a&gt;");
    let html = render_page("ab\"c\\\n\u{1}", "<script>.txt", -5, true).unwrap();
    assert!(html.starts_with("<!doctype html><html lang=\"en\">"));
    assert!(html.contains("<title>Download &lt;script&gt;.txt</title>"));
    assert!(html.contains("<h1>&lt;script&gt;.txt</h1><p>-5 bytes</p>"));
    assert!(html.contains("const id=\"ab\\\"c\\\\\\n\\u0001\";const protectedShare=true;"));
    assert!(html.contains("Unlock and download"));
    let open = render_page("abc", "x", 0, false).unwrap();
    assert!(open.contains("const protectedShare=false;"));
    assert!(open.contains("<button id=\"download\">Download</button>"));
    assert!(!open.contains("Unlock and download"));
}

// The tunnel

#[test]
fn extracts_quick_tunnel_url_from_log_line() {
    assert_eq!(
        trycloudflare_url(
            "INF Your quick Tunnel has been created! url=https://quiet-tree.trycloudflare.com"
        )
        .as_deref(),
        Some("https://quiet-tree.trycloudflare.com")
    );
    assert_eq!(trycloudflare_url("https://example.com"), None);
}

#[test]
fn tunnel_url_ends_where_the_address_ends() {
    assert_eq!(
        trycloudflare_url("| https://a-b.trycloudflare.com  |").as_deref(),
        Some("https://a-b.trycloudflare.com")
    );
    assert_eq!(trycloudflare_url("https://a.trycloudflare.com/x"), None);
    assert_eq!(trycloudflare_url("https://x https://a.trycloudflare.com"), None);
    assert_eq!(trycloudflare_url("http://a.trycloudflare.com"), None);
    assert_eq!(trycloudflare_url(""), None);
}

#[test]
fn registration_is_seen_in_the_log() {
    assert!(says_registered("INF Registered tunnel connection connIndex=0"));
    assert!(says_registered("Registered tunnel connection"));
    assert!(!says_registered("INF Registered tunnel"));
    assert!(!says_registered(""));
}

#[test]
fn tunnel_program_is_pointed_at_the_public_listener() {
    assert_eq!(
        tunnel_arguments("quick.yml", 7421),
        vec!["--config", "quick.yml", "tunnel", "--no-autoupdate", "--url", "http://127.0.0.1:7421"]
    );
}

// Text

#[test]
fn character_classes_are_those_of_the_language() {
    for c in '\u{0}'..=char::MAX {
        assert_eq!(white_space(c), c.is_whitespace(), "{c:?}");
        assert_eq!(control(c), c.is_control(), "{c:?}");
        assert_eq!(alphanumeric(c), c.is_ascii_alphanumeric(), "{c:?}");
        assert_eq!(graphic(c), c.is_ascii_graphic(), "{c:?}");
    }
}

#[test]
fn text_functions_do_what_those_of_the_language_do() {
    for s in ["", " a ", "\u{3000}x\u{85}", "ABC é Ü", "a;b;;c", "  "] {
        assert_eq!(trim_text(s), s.trim());
        assert_eq!(to_lowercase(s), s.to_ascii_lowercase());
        let pieces: Vec<String> =
            split_at_char(&chars_of(s), ';').iter().map(|p| text_of(p)).collect();
        assert_eq!(pieces, s.split(';').collect::<Vec<&str>>());
    }
    assert_eq!(find_text(&chars_of("abcabc"), &chars_of("ca")), Some(2));
    assert_eq!(find_text(&chars_of("abcabc"), &chars_of("x")), None);
}

#[test]
fn numbers_are_read_and_written_as_in_the_language() {
    for s in [
        "", "+", "-", "0", "00012", "+7", "-7", "--7", "+-7", "1_0", " 1", "9223372036854775807",
        "9223372036854775808", "-9223372036854775808", "-9223372036854775809",
        "18446744073709551615", "18446744073709551616", "٣",
    ] {
        assert_eq!(parse_unsigned(&chars_of(s), u64::MAX), s.parse::<u64>().ok(), "{s}");
        assert_eq!(parse_signed(&chars_of(s)), s.parse::<i64>().ok(), "{s}");
        assert_eq!(
            parse_unsigned(&chars_of(s), u32::MAX as u64),
            s.parse::<u32>().ok().map(|n| n as u64),
            "{s}"
        );
    }
    for n in [0, 1, 9, 10, 4096, u64::MAX] {
        assert_eq!(decimal_text(n), n.to_string());
    }
    for n in [0, -1, 10, i64::MIN, i64::MAX] {
        assert_eq!(signed_decimal_text(n), n.to_string());
    }
}
