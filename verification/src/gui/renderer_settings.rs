use vstd::prelude::*;

use crate::renderer_settings::{RenderType, RendererSettings};

verus! {

/// What the render settings panel reports.
#[derive(Debug, Clone, Copy, PartialEq, Eq, Structural)]
pub enum Message {
    /// The user picked a render type.
    RenderTypeSelected(RenderType),
}

/// The state of the render settings panel: the settings it edits and the
/// render type shown as selected (none until the user picks one).
#[derive(Debug, Clone, Copy, PartialEq, Eq, Structural)]
pub struct RendererSettingsWidget {
    pub settings: RendererSettings,
    pub st: Option<RenderType>,
}

impl RendererSettingsWidget {
    /// Applies a message: the picked render type becomes both the setting and
    /// the selection.
    pub fn update(&mut self, message: Message)
        ensures
            match message {
                Message::RenderTypeSelected(r) => {
                    &&& final(self).settings.render_type == r
                    &&& final(self).st == Some(r)
                },
            },
    {
        match message {
            Message::RenderTypeSelected(r) => {
                self.settings.render_type = r;
                self.st = Some(r);
            },
        }
    }
}

impl Default for RendererSettingsWidget {
    /// Default settings, nothing selected.
    fn default() -> (w: RendererSettingsWidget)
        ensures
            w.settings.render_type == RenderType::Depth,
            w.st is None,
    {
        RendererSettingsWidget { settings: RendererSettings::default(), st: None }
    }
}

} // verus!
