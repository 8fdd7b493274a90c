use lumos::gui::camera_config::{CameraConfigMessage, CameraConfigWidget};
use lumos::gui::renderer_settings::Message as SettingsMessage;
use lumos::gui::{LumosGui, Message};
use lumos::renderer_settings::RenderType;
use lumos::scalar::Scalar;
use lumos::transform::Transform;

fn s(x: f64) -> Scalar {
    Scalar { bits: x.to_bits() }
}

#[test]
fn camera_widget_default() {
    let w = CameraConfigWidget::default();
    assert_eq!(f64::from_bits(w.cam.focal_length.bits), 0.032);
    assert_eq!(f64::from_bits(w.cam.sensor_width.bits), 0.05);
    assert_eq!(f64::from_bits(w.cam.sensor_height.bits), 0.05);
    assert_eq!(w.cam.width_resolution, 1200);
    assert_eq!(w.cam.height_resolution, 800);
    assert_eq!(w.cam.pose.entries(), Transform::new().entries());
}

#[test]
fn camera_widget_changes_one_setting() {
    let mut w = CameraConfigWidget::default();
    w.update(CameraConfigMessage::FocalLengthChanged(s(0.01)));
    assert_eq!(f64::from_bits(w.cam.focal_length.bits), 0.01);
    assert_eq!(f64::from_bits(w.cam.sensor_width.bits), 0.05);
    w.update(CameraConfigMessage::SensorWidthChanged(s(0.02)));
    assert_eq!(f64::from_bits(w.cam.sensor_width.bits), 0.02);
    w.update(CameraConfigMessage::SensorHeightChanged(s(0.03)));
    assert_eq!(f64::from_bits(w.cam.sensor_height.bits), 0.03);
    w.update(CameraConfigMessage::ResolutionWidthChanged(640));
    assert_eq!(w.cam.width_resolution, 640);
    assert_eq!(w.cam.height_resolution, 800);
    w.update(CameraConfigMessage::ResolutionHeightChanged(480));
    assert_eq!(w.cam.height_resolution, 480);
    assert_eq!(f64::from_bits(w.cam.focal_length.bits), 0.01);
}

#[test]
fn camera_widget_latest_change_wins() {
    let mut w = CameraConfigWidget::default();
    w.update(CameraConfigMessage::ResolutionWidthChanged(128));
    w.update(CameraConfigMessage::ResolutionWidthChanged(4096));
    assert_eq!(w.cam.width_resolution, 4096);
}

#[test]
fn gui_render_call_asks_for_render_with_panel_state() {
    let mut g = LumosGui::default();
    g.update(Message::CameraWidget(CameraConfigMessage::ResolutionHeightChanged(300)));
    g.update(Message::RenderSettingsWidget(SettingsMessage::RenderTypeSelected(RenderType::Color)));
    let req = g.update(Message::RenderCall).expect("a render call asks for a render");
    assert_eq!(req.camera.height_resolution, 300);
    assert_eq!(req.camera.width_resolution, 1200);
    assert_eq!(req.settings.render_type, RenderType::Color);
    assert_eq!(g.cam_widget.cam.height_resolution, 300);
}

#[test]
fn gui_panel_messages_ask_for_nothing() {
    let mut g = LumosGui::default();
    assert!(g.update(Message::CameraWidget(CameraConfigMessage::FocalLengthChanged(s(0.04)))).is_none());
    assert!(g
        .update(Message::RenderSettingsWidget(SettingsMessage::RenderTypeSelected(RenderType::Depth)))
        .is_none());
    assert_eq!(g.settings_widget.st, Some(RenderType::Depth));
    assert_eq!(f64::from_bits(g.cam_widget.cam.focal_length.bits), 0.04);
}

#[test]
fn gui_default_state() {
    let g = LumosGui::default();
    assert_eq!(g.settings_widget.settings.render_type, RenderType::Depth);
    assert_eq!(g.settings_widget.st, None);
    assert_eq!(g.cam_widget.cam.width_resolution, 1200);
}

#[test]
fn camera_widget_changes_commute() {
    let mut a = CameraConfigWidget::default();
    a.update(CameraConfigMessage::SensorWidthChanged(s(0.02)));
    a.update(CameraConfigMessage::ResolutionHeightChanged(256));
    let mut b = CameraConfigWidget::default();
    b.update(CameraConfigMessage::ResolutionHeightChanged(256));
    b.update(CameraConfigMessage::SensorWidthChanged(s(0.02)));
    assert_eq!(a.cam.sensor_width, b.cam.sensor_width);
    assert_eq!(a.cam.height_resolution, b.cam.height_resolution);
    assert_eq!(a.cam.width_resolution, b.cam.width_resolution);
    assert_eq!(a.cam.focal_length, b.cam.focal_length);
    assert_eq!(a.cam.sensor_height, b.cam.sensor_height);
}
