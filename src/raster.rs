use vstd::prelude::*;

verus! {

/// Sign of a triangle's signed area in framebuffer space.
#[derive(Copy, Clone, Debug, PartialEq, Eq, Structural)]
pub enum AreaSign {
    Negative,
    Zero,
    Positive,
}

/// Which winding counts as front-facing.
#[derive(Copy, Clone, Debug, PartialEq, Eq, Structural)]
pub enum FrontFace {
    /// A positive signed area is front-facing.
    Cw,
    /// A negative signed area is front-facing.
    Ccw,
}

/// Which faces are dropped before rasterization.
#[derive(Copy, Clone, Debug, PartialEq, Eq, Structural)]
pub enum CullMode {
    Off,
    Front,
    Back,
}

/// How triangles are oriented and culled.
#[derive(Copy, Clone, Debug)]
pub struct PrimitiveState {
    pub front_face: FrontFace,
    pub cull_mode: CullMode,
}

impl Default for PrimitiveState {
    /// Positive area is front-facing, and both faces are drawn.
    fn default() -> (r: PrimitiveState)
        ensures
            r.front_face == FrontFace::Cw,
            r.cull_mode == CullMode::Off,
    {
        PrimitiveState { front_face: FrontFace::Cw, cull_mode: CullMode::Off }
    }
}

/// A triangle of nonzero area with this sign faces the viewer.
pub open spec fn faces_front(sign: AreaSign, front_face: FrontFace) -> bool {
    match front_face {
        FrontFace::Cw => sign == AreaSign::Positive,
        FrontFace::Ccw => sign == AreaSign::Negative,
    }
}

/// A triangle whose facing is `front` is culled.
pub open spec fn is_culled(cull_mode: CullMode, front: bool) -> bool {
    match cull_mode {
        CullMode::Off => false,
        CullMode::Front => front,
        CullMode::Back => !front,
    }
}

impl PrimitiveState {
    /// Whether a triangle with area sign `sign` is rasterized, and if so
    /// whether it is front-facing: degenerate triangles and culled faces give
    /// `None`.
    pub fn facing(&self, sign: AreaSign) -> (r: Option<bool>)
        ensures
            sign == AreaSign::Zero ==> r is None,
            sign != AreaSign::Zero && is_culled(self.cull_mode, faces_front(sign, self.front_face))
                ==> r is None,
            sign != AreaSign::Zero && !is_culled(self.cull_mode, faces_front(sign, self.front_face))
                ==> r == Some(faces_front(sign, self.front_face)),
    {
        if matches!(sign, AreaSign::Zero) {
            return None;
        }
        let front = match self.front_face {
            FrontFace::Cw => matches!(sign, AreaSign::Positive),
            FrontFace::Ccw => matches!(sign, AreaSign::Negative),
        };
        let culled = match self.cull_mode {
            CullMode::Off => false,
            CullMode::Front => front,
            CullMode::Back => !front,
        };
        if culled {
            None
        } else {
            Some(front)
        }
    }
}

} // verus!
