//! The decisions of the user interface: how each message changes the state of
//! the panels, and when a render is asked for.
pub mod camera_config;
pub mod renderer_settings;

use vstd::prelude::*;

use crate::camera::Camera;
use crate::renderer_settings::RendererSettings;
use camera_config::{configured, CameraConfigMessage, CameraConfigWidget};

verus! {

/// What the user interface reports.
#[derive(Debug, Clone, Copy)]
pub enum Message {
    /// The user asked for a render.
    RenderCall,
    /// The camera panel reported a change.
    CameraWidget(CameraConfigMessage),
    /// The render settings panel reported a change.
    RenderSettingsWidget(renderer_settings::Message),
}

/// A render to run: with this camera and these settings.
#[derive(Debug, Clone, Copy)]
pub struct RenderRequest {
    pub camera: Camera,
    pub settings: RendererSettings,
}

/// The state of the panels of the user interface.
#[derive(Debug, Clone, Copy)]
pub struct LumosGui {
    pub cam_widget: CameraConfigWidget,
    pub settings_widget: renderer_settings::RendererSettingsWidget,
}

impl LumosGui {
    /// Applies a message. A render call changes no panel and asks for a
    /// render with the camera and the settings the panels hold; a panel
    /// message goes to its panel and asks for nothing.
    pub fn update(&mut self, message: Message) -> (request: Option<RenderRequest>)
        ensures
            match message {
                Message::RenderCall => {
                    &&& *final(self) == *old(self)
                    &&& request == Some(
                        (RenderRequest {
                            camera: old(self).cam_widget.cam,
                            settings: old(self).settings_widget.settings,
                        }),
                    )
                },
                Message::CameraWidget(m) => {
                    &&& final(self).cam_widget.cam == configured(old(self).cam_widget.cam, m)
                    &&& final(self).settings_widget == old(self).settings_widget
                    &&& request is None
                },
                Message::RenderSettingsWidget(m) => {
                    &&& final(self).cam_widget == old(self).cam_widget
                    &&& match m {
                        renderer_settings::Message::RenderTypeSelected(r) => {
                            &&& final(self).settings_widget.settings.render_type == r
                            &&& final(self).settings_widget.st == Some(r)
                        },
                    }
                    &&& request is None
                },
            },
    {
        match message {
            Message::RenderCall => Some(
                RenderRequest {
                    camera: self.cam_widget.cam,
                    settings: self.settings_widget.settings,
                },
            ),
            Message::CameraWidget(camera_config_message) => {
                self.cam_widget.update(camera_config_message);
                None
            },
            Message::RenderSettingsWidget(message) => {
                self.settings_widget.update(message);
                None
            },
        }
    }
}

impl Default for LumosGui {
    /// Both panels in their default state.
    fn default() -> (g: LumosGui)
        ensures
            camera_config::is_default_camera(g.cam_widget.cam),
            g.settings_widget.settings.render_type == crate::renderer_settings::RenderType::Depth,
            g.settings_widget.st is None,
    {
        LumosGui {
            cam_widget: CameraConfigWidget::default(),
            settings_widget: renderer_settings::RendererSettingsWidget::default(),
        }
    }
}

} // verus!
