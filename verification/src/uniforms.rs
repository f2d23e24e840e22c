//! The six uniforms through which a frame's parameters reach the shaders.

use vstd::prelude::*;
use web_sys::WebGlUniformLocation;

verus! {

/// One of the uniforms that the shader program must declare.
#[derive(Clone, Copy, Debug, PartialEq, Eq, Hash, Structural)]
pub enum UniformSlot {
    /// `u_time`: the frame's time.
    Time,
    /// `u_resolution`: the canvas width and height.
    Resolution,
    /// `u_phase`: the phase offset between neighbouring elements.
    Phase,
    /// `u_wavelength`: the wavelength, in canvas heights.
    Wavelength,
    /// `u_num_array_elements`: how many elements are drawn.
    ElementCount,
    /// `u_array_elements`: the elements' positions, as (x, y) pairs.
    ElementPositions,
}

impl UniformSlot {
    /// The name under which the shaders declare this uniform.
    pub open spec fn name_text(self) -> Seq<char> {
        match self {
            UniformSlot::Time => "u_time"@,
            UniformSlot::Resolution => "u_resolution"@,
            UniformSlot::Phase => "u_phase"@,
            UniformSlot::Wavelength => "u_wavelength"@,
            UniformSlot::ElementCount => "u_num_array_elements"@,
            UniformSlot::ElementPositions => "u_array_elements"@,
        }
    }

    /// The name under which the shaders declare this uniform.
    pub fn name(self) -> (name: &'static str)
        ensures
            name@ == self.name_text(),
    {
        match self {
            UniformSlot::Time => "u_time",
            UniformSlot::Resolution => "u_resolution",
            UniformSlot::Phase => "u_phase",
            UniformSlot::Wavelength => "u_wavelength",
            UniformSlot::ElementCount => "u_num_array_elements",
            UniformSlot::ElementPositions => "u_array_elements",
        }
    }
}

/// The places of all six uniforms in one linked program.
pub struct UniformLocations {
    pub time: WebGlUniformLocation,
    pub resolution: WebGlUniformLocation,
    pub phase: WebGlUniformLocation,
    pub wavelength: WebGlUniformLocation,
    pub element_count: WebGlUniformLocation,
    pub element_positions: WebGlUniformLocation,
}

impl UniformLocations {
    /// The place of one uniform.
    pub open spec fn of(self, slot: UniformSlot) -> WebGlUniformLocation {
        match slot {
            UniformSlot::Time => self.time,
            UniformSlot::Resolution => self.resolution,
            UniformSlot::Phase => self.phase,
            UniformSlot::Wavelength => self.wavelength,
            UniformSlot::ElementCount => self.element_count,
            UniformSlot::ElementPositions => self.element_positions,
        }
    }

    /// The place of one uniform.
    pub fn get(&self, slot: UniformSlot) -> (location: &WebGlUniformLocation)
        ensures
            *location == self.of(slot),
    {
        match slot {
            UniformSlot::Time => &self.time,
            UniformSlot::Resolution => &self.resolution,
            UniformSlot::Phase => &self.phase,
            UniformSlot::Wavelength => &self.wavelength,
            UniformSlot::ElementCount => &self.element_count,
            UniformSlot::ElementPositions => &self.element_positions,
        }
    }
}

/// Different uniforms have different names, so a name found missing identifies
/// its uniform.
pub proof fn lemma_names_distinct(a: UniformSlot, b: UniformSlot)
    requires
        a.name_text() == b.name_text(),
    ensures
        a == b,
{
    reveal_strlit("u_time");
    reveal_strlit("u_resolution");
    reveal_strlit("u_phase");
    reveal_strlit("u_wavelength");
    reveal_strlit("u_num_array_elements");
    reveal_strlit("u_array_elements");
    if a != b {
        let s = a.name_text();
        let t = b.name_text();
        assert(s.len() == t.len());
        assert(s[2] == t[2]);
    }
}

} // verus!
