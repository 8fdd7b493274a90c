use vstd::prelude::*;

verus! {

/// The quantity a render shows in each pixel.
#[derive(Debug, Clone, Copy, PartialEq, Eq, Structural)]
pub enum RenderType {
    /// Grey levels that grow with the distance of the closest hit.
    Depth,
    /// Surface normals (not rendered yet).
    Normals,
    /// Shaded object colours.
    Color,
}

impl RenderType {
    /// The name under which the render type is shown to the user.
    pub fn name(&self) -> (s: &'static str)
        ensures
            *self == RenderType::Depth ==> s@ == "Depth"@,
            *self == RenderType::Normals ==> s@ == "Normals"@,
            *self == RenderType::Color ==> s@ == "Color"@,
    {
        match self {
            RenderType::Depth => "Depth",
            RenderType::Normals => "Normals",
            RenderType::Color => "Color",
        }
    }
}

/// The options of a render.
#[derive(Debug, Clone, Copy, PartialEq, Eq, Structural)]
pub struct RendererSettings {
    pub render_type: RenderType,
}

impl Default for RendererSettings {
    /// Depth renders.
    fn default() -> (s: RendererSettings)
        ensures
            s.render_type == RenderType::Depth,
    {
        RendererSettings { render_type: RenderType::Depth }
    }
}

} // verus!
