//! The page shell around the web content: the script that draws it, the
//! messages it sends, and what the window does on each.
use vstd::prelude::*;
use vstd::string::*;
use crate::browser::{
    LinuxBrowser, BrowserView, browser_wf, created, closed, switched, navigated, current_url_of,
    lemma_create_tab_activates_new_tab, lemma_navigate_changes_active_tab_only,
};
use crate::url::{DEFAULT_URL, NEW_TAB_TITLE, normalized, normalize_url, lemma_normalize_idempotent};

verus! {

/// The script injected into every page: it draws the sidebar with the tab
/// list and the address bar, and posts the user's actions as JSON messages.
pub const SHELL_SCRIPT: &'static str = r#"
(function () {
  const rootId = 'aster-shell-root';
  const sidebarWidth = 252;
  const topbarHeight = 56;

  function ensureRoot() {
    let root = document.getElementById(rootId);
    if (!root) {
      root = document.createElement('div');
      root.id = rootId;
      root.innerHTML = `
        <style>
          #${rootId} {
            position: fixed;
            inset: 0;
            z-index: 2147483647;
            pointer-events: none;
            font-family: Inter, system-ui, -apple-system, BlinkMacSystemFont, "Segoe UI", sans-serif;
          }
          #${rootId} .panel {
            pointer-events: auto;
            position: fixed;
            top: 0;
            left: 0;
            width: ${sidebarWidth}px;
            height: 100vh;
            background: linear-gradient(180deg, rgba(8,8,8,.96), rgba(17,17,17,.96));
            color: #f5f5f5;
            border-right: 1px solid rgba(255,255,255,.08);
            box-shadow: 12px 0 40px rgba(0,0,0,.26);
            display: flex;
            flex-direction: column;
          }
          #${rootId} .topbar {
            height: ${topbarHeight}px;
            display: flex;
            align-items: center;
            gap: 8px;
            padding: 12px;
            box-sizing: border-box;
            border-bottom: 1px solid rgba(255,255,255,.08);
          }
          #${rootId} .brand {
            font-weight: 700;
            letter-spacing: .04em;
            text-transform: uppercase;
            opacity: .88;
          }
          #${rootId} .nav {
            display: flex;
            gap: 6px;
          }
          #${rootId} button {
            border: 0;
            border-radius: 10px;
            background: rgba(255,255,255,.08);
            color: inherit;
            padding: 8px 10px;
            cursor: pointer;
          }
          #${rootId} button:hover {
            background: rgba(255,255,255,.14);
          }
          #${rootId} .address {
            width: 100%;
            margin: 0 12px 8px;
            box-sizing: border-box;
            border-radius: 12px;
            border: 1px solid rgba(255,255,255,.1);
            background: rgba(255,255,255,.06);
            color: #fff;
            padding: 10px 12px;
            outline: none;
          }
          #${rootId} .section-title {
            padding: 12px 12px 6px;
            text-transform: uppercase;
            letter-spacing: .08em;
            font-size: 11px;
            color: rgba(245,245,245,.55);
          }
          #${rootId} .tabs {
            display: flex;
            flex-direction: column;
            gap: 8px;
            padding: 0 10px 12px;
            overflow: auto;
          }
          #${rootId} .tab {
            border-radius: 14px;
            background: rgba(255,255,255,.05);
            border: 1px solid rgba(255,255,255,.08);
            padding: 10px 12px;
            text-align: left;
          }
          #${rootId} .tab.active {
            background: rgba(241,111,99,.18);
            border-color: rgba(241,111,99,.5);
          }
          #${rootId} .tab-title {
            font-size: 13px;
            font-weight: 600;
            display: block;
            margin-bottom: 4px;
            white-space: nowrap;
            overflow: hidden;
            text-overflow: ellipsis;
          }
          #${rootId} .tab-url {
            font-size: 12px;
            color: rgba(245,245,245,.66);
            white-space: nowrap;
            overflow: hidden;
            text-overflow: ellipsis;
          }
          #${rootId} .content-guard {
            position: fixed;
            left: ${sidebarWidth}px;
            top: 0;
            right: 0;
            height: ${topbarHeight}px;
            pointer-events: none;
          }
          html, body {
            margin-left: ${sidebarWidth}px !important;
            margin-top: ${topbarHeight}px !important;
          }
        </style>
        <div class="panel">
          <div class="topbar">
            <div class="brand">Aster</div>
            <div class="nav">
              <button data-action="back">Back</button>
              <button data-action="forward">Forward</button>
              <button data-action="reload">Reload</button>
              <button data-action="new-tab">New Tab</button>
            </div>
          </div>
          <input class="address" type="text" placeholder="Search or enter URL" />
          <div class="section-title">Tabs</div>
          <div class="tabs"></div>
        </div>
      `;
      (document.documentElement || document.body).appendChild(root);

      const address = root.querySelector('.address');
      const send = (msg) => window.ipc.postMessage(JSON.stringify(msg));
      root.addEventListener('click', (event) => {
        const target = event.target.closest('button[data-action]');
        if (!target) return;
        const action = target.dataset.action;
        if (action === 'back' || action === 'forward' || action === 'reload') {
          send({ type: action });
        } else if (action === 'new-tab') {
          send({ type: 'new_tab', url: address?.value || '' });
        }
      });
      address?.addEventListener('keydown', (event) => {
        if (event.key === 'Enter') {
          send({ type: 'navigate', url: address.value });
        }
      });
      window.AsterSync = function (state) {
        const tabs = root.querySelector('.tabs');
        if (!tabs || !state) return;
        tabs.innerHTML = '';
        (state.tabs || []).forEach((tab, index) => {
          const item = document.createElement('button');
          item.className = 'tab' + (index === state.active_index ? ' active' : '');
          item.innerHTML = `
            <span class="tab-title">${escapeHtml(tab.title || 'New Tab')}</span>
            <span class="tab-url">${escapeHtml(tab.url || '')}</span>
          `;
          item.addEventListener('click', () => send({ type: 'switch_tab', index }));
          item.addEventListener('auxclick', (event) => {
            if (event.button === 1) {
              send({ type: 'close_tab' });
            }
          });
          tabs.appendChild(item);
        });
        if (address && state.active_url !== undefined) {
          address.value = state.active_url || '';
        }
      };
      function escapeHtml(value) {
        return String(value)
          .replaceAll('&', '&amp;')
          .replaceAll('<', '&lt;')
          .replaceAll('>', '&gt;')
          .replaceAll('"', '&quot;')
          .replaceAll("'", '&#39;');
      }
    }
  }

  if (document.readyState === 'loading') {
    document.addEventListener('DOMContentLoaded', ensureRoot, { once: true });
  } else {
    ensureRoot();
  }
})();
"#;

/// The script that steps back in the page history.
pub const HISTORY_BACK_SCRIPT: &'static str = "window.history.back();";

/// The script that steps forward in the page history.
pub const HISTORY_FORWARD_SCRIPT: &'static str = "window.history.forward();";

/// What comes before the JSON state in the script that redraws the shell.
pub const SYNC_CALL_OPEN: &'static str = "window.AsterSync(";

/// What comes after it.
pub const SYNC_CALL_CLOSE: &'static str = ");";

/// A message that the page shell posts.
#[derive(Debug, Clone)]
pub enum ShellIpc {
    Navigate { url: String },
    NewTab { url: Option<String> },
    SwitchTab { index: usize },
    CloseTab,
    Back,
    Forward,
    Reload,
    RequestSync,
}

/// What the window has to do after a message, in this order: write the state
/// file, run a script in the page, reload the page, load a URL, redraw the
/// shell.
#[derive(Debug, Clone)]
pub struct ShellEffects {
    pub save_state: bool,
    pub script: Option<String>,
    pub reload: bool,
    pub load_url: Option<String>,
    pub sync_shell: bool,
}

/// `ShellEffects` as a mathematical value.
pub struct EffectsView {
    pub save_state: bool,
    pub script: Option<Seq<char>>,
    pub reload: bool,
    pub load_url: Option<Seq<char>>,
    pub sync_shell: bool,
}

pub open spec fn opt_view(s: Option<String>) -> Option<Seq<char>> {
    match s {
        Some(t) => Some(t@),
        None => None,
    }
}

impl View for ShellEffects {
    type V = EffectsView;

    open spec fn view(&self) -> EffectsView {
        EffectsView {
            save_state: self.save_state,
            script: opt_view(self.script),
            reload: self.reload,
            load_url: opt_view(self.load_url),
            sync_shell: self.sync_shell,
        }
    }
}

/// Nothing to do.
pub open spec fn no_effects() -> EffectsView {
    EffectsView { save_state: false, script: None, reload: false, load_url: None, sync_shell: false }
}

/// After a change of tabs: save where asked, show the active tab's URL, redraw.
pub open spec fn tab_effects(save: bool, after: BrowserView) -> EffectsView {
    EffectsView { save_state: save, load_url: Some(current_url_of(after)), sync_shell: true, ..no_effects() }
}

/// The browser after a message, and what the window has to do.
pub open spec fn ipc_step(b: BrowserView, message: ShellIpc) -> (BrowserView, EffectsView) {
    match message {
        ShellIpc::Navigate { url } => {
            let after = navigated(b, url@);
            (after, EffectsView { save_state: true, load_url: Some(normalized(url@)), sync_shell: true, ..no_effects() })
        },
        ShellIpc::NewTab { url } => {
            let typed = match url {
                Some(u) => u@,
                None => DEFAULT_URL@,
            };
            let after = created(b, typed);
            (after, tab_effects(true, after))
        },
        ShellIpc::SwitchTab { index } => {
            let after = switched(b, index);
            (after, tab_effects(index < b.tabs.len(), after))
        },
        ShellIpc::CloseTab => {
            let after = closed(b);
            (after, tab_effects(true, after))
        },
        ShellIpc::Back => (b, EffectsView { script: Some(HISTORY_BACK_SCRIPT@), ..no_effects() }),
        ShellIpc::Forward => (b, EffectsView { script: Some(HISTORY_FORWARD_SCRIPT@), ..no_effects() }),
        ShellIpc::Reload => (b, EffectsView { reload: true, ..no_effects() }),
        ShellIpc::RequestSync => (b, EffectsView { sync_shell: true, ..no_effects() }),
    }
}

/// The script injected into every page.
pub fn shell_script() -> (script: String)
    ensures
        script@ == SHELL_SCRIPT@,
{
    String::from_str(SHELL_SCRIPT)
}

/// The script that hands the JSON form of the shell state to the page.
pub fn sync_script(state_json: &str) -> (script: String)
    ensures
        script@ == SYNC_CALL_OPEN@ + state_json@ + SYNC_CALL_CLOSE@,
{
    let mut script = String::from_str(SYNC_CALL_OPEN);
    script.append(state_json);
    script.append(SYNC_CALL_CLOSE);
    script
}

/// The default page is its own normalized form.
pub proof fn lemma_default_url_normalized()
    ensures
        normalized(DEFAULT_URL@) == DEFAULT_URL@,
{
    lemma_normalize_idempotent(Seq::empty());
    assert(crate::text::trim(Seq::<char>::empty()) == Seq::<char>::empty());
}

/// Law: a "new tab" message opens one more tab, last and active, on the URL
/// the message carries (the default page where it carries none), and the
/// window loads that URL, saves the state and redraws the shell.
pub proof fn lemma_new_tab_message_opens_typed_url(b: BrowserView, url: Option<String>)
    requires
        browser_wf(b),
        b.next_tab_id < usize::MAX,
    ensures
        ipc_step(b, ShellIpc::NewTab { url }).0.tabs.len() == b.tabs.len() + 1,
        ipc_step(b, ShellIpc::NewTab { url }).0.active_index == b.tabs.len(),
        url is Some ==> ipc_step(b, ShellIpc::NewTab { url }).0.tabs[b.tabs.len() as int].url
            == normalized(url->0@),
        url is None ==> ipc_step(b, ShellIpc::NewTab { url }).0.tabs[b.tabs.len() as int].url
            == DEFAULT_URL@,
        ipc_step(b, ShellIpc::NewTab { url }).0.tabs[b.tabs.len() as int].title == NEW_TAB_TITLE@,
        forall|i: int|
            0 <= i < b.tabs.len() ==> #[trigger] ipc_step(b, ShellIpc::NewTab { url }).0.tabs[i]
                == b.tabs[i],
        url is Some ==> ipc_step(b, ShellIpc::NewTab { url }).1.load_url == Some(normalized(url->0@)),
        url is None ==> ipc_step(b, ShellIpc::NewTab { url }).1.load_url == Some(DEFAULT_URL@),
        ipc_step(b, ShellIpc::NewTab { url }).1.save_state,
        ipc_step(b, ShellIpc::NewTab { url }).1.sync_shell,
        ipc_step(b, ShellIpc::NewTab { url }).1.script is None,
        !ipc_step(b, ShellIpc::NewTab { url }).1.reload,
{
    lemma_default_url_normalized();
    let typed = match url {
        Some(u) => u@,
        None => DEFAULT_URL@,
    };
    lemma_create_tab_activates_new_tab(b, typed);
}

/// Law: a "navigate" message points the active tab (and no other) at the URL
/// the typed text stands for, and the window loads that URL, saves the state
/// and redraws the shell.
pub proof fn lemma_navigate_message_loads_typed_url(b: BrowserView, url: String)
    requires
        browser_wf(b),
    ensures
        ipc_step(b, ShellIpc::Navigate { url }).0.active_index == b.active_index,
        ipc_step(b, ShellIpc::Navigate { url }).0.tabs[b.active_index as int].url == normalized(url@),
        forall|i: int|
            0 <= i < b.tabs.len() && i != b.active_index ==> #[trigger] ipc_step(
                b,
                ShellIpc::Navigate { url },
            ).0.tabs[i] == b.tabs[i],
        ipc_step(b, ShellIpc::Navigate { url }).1.load_url == Some(normalized(url@)),
        ipc_step(b, ShellIpc::Navigate { url }).1.save_state,
        ipc_step(b, ShellIpc::Navigate { url }).1.sync_shell,
{
    lemma_navigate_changes_active_tab_only(b, url@);
}

/// Law: a "switch tab" message to a tab that exists makes it active and loads
/// its URL, and saves; to an index past the tabs it changes nothing, saves
/// nothing, and reloads the URL of the tab still active.
pub proof fn lemma_switch_message(b: BrowserView, index: usize)
    requires
        browser_wf(b),
    ensures
        index < b.tabs.len() ==> ipc_step(b, ShellIpc::SwitchTab { index }).0.active_index == index,
        index < b.tabs.len() ==> ipc_step(b, ShellIpc::SwitchTab { index }).1.load_url == Some(
            b.tabs[index as int].url,
        ),
        index < b.tabs.len() ==> ipc_step(b, ShellIpc::SwitchTab { index }).1.save_state,
        index >= b.tabs.len() ==> ipc_step(b, ShellIpc::SwitchTab { index }).0 == b,
        index >= b.tabs.len() ==> !ipc_step(b, ShellIpc::SwitchTab { index }).1.save_state,
        ipc_step(b, ShellIpc::SwitchTab { index }).0.tabs == b.tabs,
        ipc_step(b, ShellIpc::SwitchTab { index }).1.sync_shell,
{
}

/// Law: the history and reload messages, and the request to redraw, leave the
/// tabs alone and save nothing.
pub proof fn lemma_page_messages_keep_tabs(b: BrowserView)
    ensures
        ipc_step(b, ShellIpc::Back).0 == b,
        ipc_step(b, ShellIpc::Back).1.script == Some(HISTORY_BACK_SCRIPT@),
        ipc_step(b, ShellIpc::Forward).0 == b,
        ipc_step(b, ShellIpc::Forward).1.script == Some(HISTORY_FORWARD_SCRIPT@),
        ipc_step(b, ShellIpc::Reload).0 == b,
        ipc_step(b, ShellIpc::Reload).1.reload,
        ipc_step(b, ShellIpc::RequestSync).0 == b,
        ipc_step(b, ShellIpc::RequestSync).1.sync_shell,
        !ipc_step(b, ShellIpc::Back).1.save_state && !ipc_step(b, ShellIpc::Forward).1.save_state
            && !ipc_step(b, ShellIpc::Reload).1.save_state && !ipc_step(
            b,
            ShellIpc::RequestSync,
        ).1.save_state,
{
}

impl LinuxBrowser {
    /// Applies a message of the page shell to the tabs and says what the
    /// window has to do (see `ipc_step`).
    pub fn handle_ipc(&mut self, message: ShellIpc) -> (effects: ShellEffects)
        requires
            old(self).wf(),
            message is NewTab ==> old(self)@.next_tab_id < usize::MAX,
        ensures
            final(self).wf(),
            (final(self)@, effects@) == ipc_step(old(self)@, message),
    {
        let none = ShellEffects { save_state: false, script: None, reload: false, load_url: None, sync_shell: false };
        match message {
            ShellIpc::Navigate { url } => {
                let target = normalize_url(url.as_str());
                self.navigate_active(url);
                ShellEffects { save_state: true, load_url: Some(target), sync_shell: true, ..none }
            },
            ShellIpc::NewTab { url } => {
                let typed = match url {
                    Some(u) => u,
                    None => String::from_str(DEFAULT_URL),
                };
                self.create_tab(typed);
                let target = self.current_url();
                ShellEffects { save_state: true, load_url: Some(target), sync_shell: true, ..none }
            },
            ShellIpc::SwitchTab { index } => {
                let save = index < self.tabs().len();
                self.switch_tab(index);
                let target = self.current_url();
                ShellEffects { save_state: save, load_url: Some(target), sync_shell: true, ..none }
            },
            ShellIpc::CloseTab => {
                self.close_active_tab();
                let target = self.current_url();
                ShellEffects { save_state: true, load_url: Some(target), sync_shell: true, ..none }
            },
            ShellIpc::Back => {
                ShellEffects { script: Some(String::from_str(HISTORY_BACK_SCRIPT)), ..none }
            },
            ShellIpc::Forward => {
                ShellEffects { script: Some(String::from_str(HISTORY_FORWARD_SCRIPT)), ..none }
            },
            ShellIpc::Reload => ShellEffects { reload: true, ..none },
            ShellIpc::RequestSync => ShellEffects { sync_shell: true, ..none },
        }
    }
}

} // verus!
