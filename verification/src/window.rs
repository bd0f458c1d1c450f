//! Per-window controller glue: one `App` per browsing window, turning
//! window-level requests into the commands its renderer and mode owner
//! receive. All page rendering itself is the renderer's business.

use vstd::prelude::*;
use crate::privacy::Privacy;

verus! {

/// Commands a window controller sends outward.
pub enum RendererCommand {
    /// Start downloading this URL.
    DownloadUri(String),
    /// Remove the keyboard-hint overlay.
    HideHints,
    /// Switch the window's input mode.
    SetMode(String),
}

/// `RendererCommand` with its strings abstracted to character sequences.
#[verifier::ext_equal]
pub enum RendererCommandView {
    DownloadUri(Seq<char>),
    HideHints,
    SetMode(Seq<char>),
}

impl View for RendererCommand {
    type V = RendererCommandView;

    open spec fn view(&self) -> RendererCommandView {
        match self {
            RendererCommand::DownloadUri(url) => RendererCommandView::DownloadUri(url@),
            RendererCommand::HideHints => RendererCommandView::HideHints,
            RendererCommand::SetMode(mode) => RendererCommandView::SetMode(mode@),
        }
    }
}

pub open spec fn command_views(commands: Seq<RendererCommand>) -> Seq<RendererCommandView> {
    commands.map_values(|c: RendererCommand| c@)
}

/// The window-level settings the controller reads.
pub struct Settings {
    /// The characters used to label keyboard hints.
    pub hint_chars: String,
}

/// One browsing window: holds what the session knows of it and answers
/// window-level requests with renderer commands.
pub struct App {
    /// The URL the window shows, if any.
    pub url: Option<String>,
    /// The isolation class the window renders in.
    pub privacy: Privacy,
    /// The window's settings.
    pub settings: Settings,
}

impl App {
    pub fn new(url: Option<String>, privacy: Privacy, settings: Settings) -> (app: App)
        ensures
            app.url == url,
            app.privacy == privacy,
            app.settings == settings,
    {
        App { url, privacy, settings }
    }

    /// Ask the renderer to download `url`.
    pub fn download_link(&self, url: &str) -> (command: RendererCommand)
        ensures
            command@ == RendererCommandView::DownloadUri(url@),
    {
        RendererCommand::DownloadUri(url.to_owned())
    }

    /// Hide the hint overlay, then return the window to normal mode, in that
    /// order.
    pub fn hide_hints(&self) -> (commands: Vec<RendererCommand>)
        ensures
            command_views(commands@) == seq![
                RendererCommandView::HideHints,
                RendererCommandView::SetMode("normal"@),
            ],
    {
        let mut commands: Vec<RendererCommand> = Vec::new();
        commands.push(RendererCommand::HideHints);
        commands.push(RendererCommand::SetMode(String::from_str("normal")));
        proof {
            assert(command_views(commands@) =~~= seq![
                RendererCommandView::HideHints,
                RendererCommandView::SetMode("normal"@),
            ]);
        }
        commands
    }

    /// The hint characters configured for this window.
    pub fn hint_chars(&self) -> (chars: String)
        ensures
            chars@ == self.settings.hint_chars@,
    {
        self.settings.hint_chars.clone()
    }
}

} // verus!
