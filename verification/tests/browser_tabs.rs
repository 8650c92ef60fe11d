use aster::browser::{LinuxBrowser, ShellTab};
use aster::shell::{ShellIpc, HISTORY_BACK_SCRIPT, HISTORY_FORWARD_SCRIPT};
use aster::url::DEFAULT_URL;

fn titles_urls(b: &LinuxBrowser) -> Vec<(usize, String, String)> {
    b.tabs().iter().map(|t: &ShellTab| (t.id, t.title.clone(), t.url.clone())).collect()
}

#[test]
fn new_without_state_has_one_default_tab() {
    let b = LinuxBrowser::new(None);
    assert_eq!(titles_urls(&b), vec![(1, "New Tab".to_string(), DEFAULT_URL.to_string())]);
    assert_eq!(b.active_index(), 0);
    assert_eq!(b.next_tab_id(), 2);
}

#[test]
fn new_with_empty_state_has_one_default_tab() {
    let b = LinuxBrowser::new(Some(""));
    assert_eq!(b.tabs().len(), 1);
    assert_eq!(b.next_tab_id(), 2);
}

#[test]
fn load_reads_tabs_of_active_workspace() {
    let raw = "active_workspace\t2\n\
               workspace\t1\tSpace 1\n\
               tab\t1\t\t0\tOne\thttps://one\t\n\
               tab\t2\t\t0\tTwo\\tTitle\thttps://two\t\n\
               active_tab\t2\t2\n\
               tab\t2\tf\t1\tThree\thttps://three\n\
               garbage line\n";
    let b = LinuxBrowser::new(Some(raw));
    assert_eq!(
        titles_urls(&b),
        vec![
            (1, "Two\tTitle".to_string(), "https://two".to_string()),
            (2, "Three".to_string(), "https://three".to_string()),
        ]
    );
    assert_eq!(b.active_index(), 1);
    assert_eq!(b.next_tab_id(), 3);
}

#[test]
fn load_defaults_workspace_to_one_and_skips_short_tab_lines() {
    let raw = "tab\t1\t\t0\tA\thttps://a\ntab\t1\t\t0\tshort\nactive_tab\tx\t1\r\n";
    let b = LinuxBrowser::new(Some(raw));
    assert_eq!(titles_urls(&b), vec![(1, "A".to_string(), "https://a".to_string())]);
    assert_eq!(b.active_index(), 0);
}

#[test]
fn load_ignores_unknown_active_tab() {
    let raw = "tab\t1\t\t0\tA\thttps://a\ntab\t1\t\t0\tB\thttps://b\nactive_tab\t1\t9";
    let b = LinuxBrowser::new(Some(raw));
    assert_eq!(b.tabs().len(), 2);
    assert_eq!(b.active_index(), 0);
}

#[test]
fn load_parses_plus_sign_and_rejects_overflow() {
    let raw = "active_workspace\t+3\ntab\t3\t\t0\tA\tu\nactive_tab\t3\t99999999999999999999999";
    let b = LinuxBrowser::new(Some(raw));
    assert_eq!(b.tabs().len(), 1);
    assert_eq!(b.tabs()[0].url, "u");
    assert_eq!(b.active_index(), 0);
}

#[test]
fn create_tab_appends_and_activates() {
    let mut b = LinuxBrowser::new(None);
    b.create_tab("example.com".to_string());
    assert_eq!(b.tabs().len(), 2);
    assert_eq!(b.tabs()[1].id, 2);
    assert_eq!(b.tabs()[1].title, "New Tab");
    assert_eq!(b.tabs()[1].url, "https://example.com");
    assert_eq!(b.active_index(), 1);
    assert_eq!(b.next_tab_id(), 3);
}

#[test]
fn close_last_tab_resets_it() {
    let mut b = LinuxBrowser::new(None);
    b.navigate_active("example.com".to_string());
    b.close_active_tab();
    assert_eq!(titles_urls(&b), vec![(1, "New Tab".to_string(), DEFAULT_URL.to_string())]);
    assert_eq!(b.active_index(), 0);
}

#[test]
fn close_removes_active_and_clamps_index() {
    let mut b = LinuxBrowser::new(None);
    b.create_tab("a.com".to_string());
    b.create_tab("b.com".to_string());
    assert_eq!(b.active_index(), 2);
    b.close_active_tab();
    assert_eq!(b.tabs().len(), 2);
    assert_eq!(b.active_index(), 1);
    assert_eq!(b.tabs()[1].url, "https://a.com");
    b.switch_tab(0);
    b.close_active_tab();
    assert_eq!(b.tabs().len(), 1);
    assert_eq!(b.active_index(), 0);
    assert_eq!(b.tabs()[0].id, 2);
}

#[test]
fn switch_tab_ignores_out_of_range() {
    let mut b = LinuxBrowser::new(None);
    b.create_tab("a.com".to_string());
    b.switch_tab(0);
    assert_eq!(b.active_index(), 0);
    b.switch_tab(5);
    assert_eq!(b.active_index(), 0);
}

#[test]
fn navigate_sets_url_and_title() {
    let mut b = LinuxBrowser::new(None);
    b.navigate_active("  rust-lang.org ".to_string());
    assert_eq!(b.tabs()[0].url, "https://rust-lang.org");
    assert_eq!(b.tabs()[0].title, "https://rust-lang.org");
    b.navigate_active("".to_string());
    assert_eq!(b.tabs()[0].url, DEFAULT_URL);
    assert_eq!(b.tabs()[0].title, "New Tab");
    assert_eq!(b.tabs()[0].id, 1);
}

#[test]
fn active_tab_mut_writes_through() {
    let mut b = LinuxBrowser::new(None);
    if let Some(tab) = b.active_tab_mut() {
        tab.title = "Changed".to_string();
    }
    assert_eq!(b.active_tab().unwrap().title, "Changed");
}

#[test]
fn sync_state_reports_active_url_and_tabs() {
    let mut b = LinuxBrowser::new(None);
    b.create_tab("x.org".to_string());
    let state = b.sync_state();
    assert_eq!(state.active_index, 1);
    assert_eq!(state.active_url, "https://x.org");
    assert_eq!(state.tabs.len(), 2);
    assert_eq!(state.tabs[0].url, DEFAULT_URL);
}

#[test]
fn save_state_writes_the_state_file() {
    let mut b = LinuxBrowser::new(None);
    b.navigate_active("a.com".to_string());
    b.create_tab("b\tc".to_string());
    let text = b.save_state();
    assert_eq!(
        text,
        "active_workspace\t1\nworkspace\t1\tSpace 1\nactive_tab\t1\t2\n\
         tab\t1\t\t0\thttps://a.com\thttps://a.com\t\n\
         tab\t1\t\t0\tNew Tab\thttps://b\\tc\t"
    );
}

#[test]
fn restart_from_saved_state_gives_the_tabs_back() {
    let mut b = LinuxBrowser::new(None);
    b.create_tab("one.org".to_string());
    b.navigate_active("back\\slash\nnewline".to_string());
    b.create_tab("two.org".to_string());
    b.switch_tab(1);
    let again = LinuxBrowser::new(Some(&b.save_state()));
    assert_eq!(titles_urls(&again), titles_urls(&b));
    assert_eq!(again.active_index(), 1);
    assert_eq!(again.next_tab_id(), 4);
}

#[test]
fn restart_renumbers_after_closing() {
    let mut b = LinuxBrowser::new(None);
    b.create_tab("one.org".to_string());
    b.create_tab("two.org".to_string());
    b.switch_tab(0);
    b.close_active_tab();
    // ids are now 2 and 3, the first of them active
    assert_eq!(b.tabs()[0].id, 2);
    let again = LinuxBrowser::new(Some(&b.save_state()));
    assert_eq!(again.tabs()[0].id, 1);
    assert_eq!(again.tabs()[1].id, 2);
    assert_eq!(again.tabs()[0].url, "https://one.org");
    assert_eq!(again.active_index(), 0);
    assert_eq!(again.active_tab().unwrap().url, "https://one.org");
}

#[test]
fn restart_keeps_active_tab_when_ids_have_gaps() {
    let mut b = LinuxBrowser::new(None);
    b.create_tab("a.org".to_string());
    b.create_tab("b.org".to_string());
    b.switch_tab(1);
    b.close_active_tab();
    b.create_tab("c.org".to_string());
    b.switch_tab(1);
    let ids: Vec<usize> = b.tabs().iter().map(|t| t.id).collect();
    assert_eq!(ids, vec![1, 3, 4]);
    assert!(b.save_state().contains("active_tab\t1\t2\n"));
    let again = LinuxBrowser::new(Some(&b.save_state()));
    assert_eq!(again.active_index(), 1);
    assert_eq!(again.active_tab().unwrap().url, "https://b.org");
    let urls: Vec<String> = again.tabs().iter().map(|t| t.url.clone()).collect();
    let before: Vec<String> = b.tabs().iter().map(|t| t.url.clone()).collect();
    assert_eq!(urls, before);
}

#[test]
fn ipc_navigate_loads_normalized_url() {
    let mut b = LinuxBrowser::new(None);
    let fx = b.handle_ipc(ShellIpc::Navigate { url: "docs.rs".to_string() });
    assert!(fx.save_state && fx.sync_shell && !fx.reload);
    assert_eq!(fx.load_url.as_deref(), Some("https://docs.rs"));
    assert_eq!(fx.script, None);
    assert_eq!(b.tabs()[0].url, "https://docs.rs");
}

#[test]
fn ipc_new_tab_without_url_opens_default() {
    let mut b = LinuxBrowser::new(None);
    let fx = b.handle_ipc(ShellIpc::NewTab { url: None });
    assert_eq!(b.tabs().len(), 2);
    assert_eq!(fx.load_url.as_deref(), Some(DEFAULT_URL));
    assert!(fx.save_state && fx.sync_shell);
}

#[test]
fn ipc_switch_saves_only_when_valid() {
    let mut b = LinuxBrowser::new(None);
    b.handle_ipc(ShellIpc::NewTab { url: Some("a.com".to_string()) });
    let fx = b.handle_ipc(ShellIpc::SwitchTab { index: 0 });
    assert!(fx.save_state);
    assert_eq!(fx.load_url.as_deref(), Some(DEFAULT_URL));
    let fx = b.handle_ipc(ShellIpc::SwitchTab { index: 7 });
    assert!(!fx.save_state);
    assert!(fx.sync_shell);
    assert_eq!(b.active_index(), 0);
}

#[test]
fn ipc_close_tab_loads_remaining_tab() {
    let mut b = LinuxBrowser::new(None);
    b.handle_ipc(ShellIpc::NewTab { url: Some("a.com".to_string()) });
    let fx = b.handle_ipc(ShellIpc::CloseTab);
    assert_eq!(b.tabs().len(), 1);
    assert_eq!(fx.load_url.as_deref(), Some(DEFAULT_URL));
    assert!(fx.save_state);
}

#[test]
fn ipc_history_reload_and_sync() {
    let mut b = LinuxBrowser::new(None);
    let fx = b.handle_ipc(ShellIpc::Back);
    assert_eq!(fx.script.as_deref(), Some(HISTORY_BACK_SCRIPT));
    assert!(!fx.save_state && !fx.sync_shell && fx.load_url.is_none());
    let fx = b.handle_ipc(ShellIpc::Forward);
    assert_eq!(fx.script.as_deref(), Some("window.history.forward();"));
    assert_eq!(HISTORY_FORWARD_SCRIPT, "window.history.forward();");
    let fx = b.handle_ipc(ShellIpc::Reload);
    assert!(fx.reload && !fx.sync_shell);
    let fx = b.handle_ipc(ShellIpc::RequestSync);
    assert!(fx.sync_shell && !fx.reload && !fx.save_state);
}
