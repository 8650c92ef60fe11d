use aster::escape::{escape_state, unescape_state};
use aster::url::{label_for_url, normalize_url, DEFAULT_URL, NEW_TAB_TITLE};
use aster::shell::{shell_script, sync_script, SHELL_SCRIPT};

#[test]
fn escape_replaces_backslash_and_controls() {
    assert_eq!(escape_state("a\\b\tc\nd\re"), "a\\\\b\\tc\\nd\\re");
    assert_eq!(escape_state("plain title"), "plain title");
    assert_eq!(escape_state(""), "");
}

#[test]
fn escape_output_has_no_separators() {
    let escaped = escape_state("x\ty\nz\r");
    assert!(!escaped.contains('\t'));
    assert!(!escaped.contains('\n'));
    assert!(!escaped.contains('\r'));
}

#[test]
fn unescape_decodes_known_pairs() {
    assert_eq!(unescape_state("a\\tb\\nc\\rd\\\\e"), "a\tb\nc\rd\\e");
}

#[test]
fn unescape_keeps_unknown_pairs_and_trailing_backslash() {
    assert_eq!(unescape_state("\\x"), "\\x");
    assert_eq!(unescape_state("end\\"), "end\\");
    assert_eq!(unescape_state("\\"), "\\");
}

#[test]
fn escape_then_unescape_gives_the_text_back() {
    for s in ["", "hello", "tab\there", "\\t literal", "multi\nline\r\n", "\\", "ünïcødé\t✓"] {
        assert_eq!(unescape_state(&escape_state(s)), s);
    }
}

#[test]
fn normalize_blank_gives_default() {
    assert_eq!(normalize_url(""), DEFAULT_URL);
    assert_eq!(normalize_url("   \t\n "), DEFAULT_URL);
}

#[test]
fn normalize_keeps_urls_with_scheme() {
    assert_eq!(normalize_url("  http://example.com  "), "http://example.com");
    assert_eq!(normalize_url("file:///tmp/x"), "file:///tmp/x");
}

#[test]
fn normalize_adds_https() {
    assert_eq!(normalize_url("example.com"), "https://example.com");
    assert_eq!(normalize_url("\u{3000}rust-lang.org\u{a0}"), "https://rust-lang.org");
    assert_eq!(normalize_url("a:/b"), "https://a:/b");
}

#[test]
fn normalize_is_idempotent_on_examples() {
    for s in ["", " x ", "http://a", "b.c", "https://www.google.com"] {
        let once = normalize_url(s);
        assert_eq!(normalize_url(&once), once);
        assert!(once.contains("://"));
    }
}

#[test]
fn label_of_default_page_is_new_tab() {
    assert_eq!(label_for_url(""), NEW_TAB_TITLE);
    assert_eq!(label_for_url("https://www.google.com"), "New Tab");
    assert_eq!(label_for_url(" www.google.com "), "New Tab");
}

#[test]
fn label_of_other_page_is_its_url() {
    assert_eq!(label_for_url("example.com"), "https://example.com");
}

#[test]
fn shell_script_is_the_injected_script() {
    let script = shell_script();
    assert_eq!(script, SHELL_SCRIPT);
    assert!(script.contains("window.AsterSync = function (state)"));
    assert!(script.contains("aster-shell-root"));
}

#[test]
fn sync_script_wraps_json() {
    assert_eq!(sync_script("{\"a\":1}"), "window.AsterSync({\"a\":1});");
}
