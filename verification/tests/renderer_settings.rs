use lumos::gui::renderer_settings::{Message, RendererSettingsWidget};
use lumos::renderer_settings::{RenderType, RendererSettings};

#[test]
fn default_settings_render_depth() {
    let s = RendererSettings::default();
    assert_eq!(s.render_type, RenderType::Depth);
}

#[test]
fn render_type_names() {
    assert_eq!(RenderType::Depth.name(), "Depth");
    assert_eq!(RenderType::Normals.name(), "Normals");
    assert_eq!(RenderType::Color.name(), "Color");
}

#[test]
fn settings_widget_starts_unselected() {
    let w = RendererSettingsWidget::default();
    assert_eq!(w.settings.render_type, RenderType::Depth);
    assert_eq!(w.st, None);
}

#[test]
fn settings_widget_takes_selected_type() {
    let mut w = RendererSettingsWidget::default();
    w.update(Message::RenderTypeSelected(RenderType::Color));
    assert_eq!(w.settings.render_type, RenderType::Color);
    assert_eq!(w.st, Some(RenderType::Color));
    w.update(Message::RenderTypeSelected(RenderType::Normals));
    assert_eq!(w.settings.render_type, RenderType::Normals);
    assert_eq!(w.st, Some(RenderType::Normals));
}
