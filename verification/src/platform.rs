//! What a platform backend offers: the browser actions, the messages of the
//! UI layer, and the window and web view operations.
use vstd::prelude::*;

verus! {

/// The error a platform backend reports, by its message.
#[derive(Debug, Clone)]
pub struct PlatformError {
    pub message: String,
}

/// Result type used by platform backends.
pub type PlatformResult<T> = Result<T, PlatformError>;

/// Minimal browser actions that both backends need to expose.
#[derive(Debug, Clone, PartialEq, Eq)]
pub enum PlatformCommand {
    CreateTab { url: String },
    NavigateActive { url: String },
    CloseActiveTab,
    GoBack,
    GoForward,
    Reload,
    SwitchWorkspace { workspace_id: usize },
    ToggleSidebar,
}

/// Messages emitted by the UI layer back to Rust.
#[derive(Debug, Clone, PartialEq, Eq)]
pub enum IpcMessage {
    Command(PlatformCommand),
    RequestState,
    StateSynced,
}

/// Common window operations used by shell backends.
pub trait WindowHost {
    fn set_title(&self, title: &str) -> PlatformResult<()>;

    fn set_visible(&self, visible: bool) -> PlatformResult<()>;

    fn resize(&self, width: i32, height: i32) -> PlatformResult<()>;
}

/// Common webview operations used by shell backends.
pub trait WebViewHost {
    fn load_url(&self, url: &str) -> PlatformResult<()>;

    fn reload(&self) -> PlatformResult<()>;

    fn go_back(&self) -> PlatformResult<()>;

    fn go_forward(&self) -> PlatformResult<()>;

    fn evaluate_script(&self, script: &str) -> PlatformResult<()>;
}

/// Backends implement this trait to own the event loop and IPC dispatch.
pub trait PlatformApp {
    fn run(self) -> PlatformResult<()>;
}

} // verus!
