//! The two shaders of the wave program.
//!
//! The vertex shader reads the attribute `position`; the fragment shader reads
//! the six uniforms of [`crate::uniforms::UniformSlot`] under their names.

use vstd::prelude::*;

verus! {

/// The most elements that the fragment shader has room for.
pub const MAX_ARRAY_ELEMENTS: usize = 128;

/// The name of the vertex attribute that receives the quad's corners.
pub const POSITION_ATTRIBUTE: &'static str = "position";

/// The source of the vertex shader, which passes the quad's corners through.
pub const VERTEX_SOURCE: &'static str = "#version 300 es
in vec2 position;

void main() {
    gl_Position = vec4(position, 0.0, 1.0);
}
";

/// The source of the fragment shader, which paints for each pixel the sum of
/// the waves that reach it from the elements.
pub const FRAGMENT_SOURCE: &'static str = "#version 300 es
precision highp float;

#define MAX_ARRAY_ELEMENTS 128
#define TWO_PI 6.28318530718

uniform float u_time;
uniform vec2 u_resolution;
uniform float u_phase;
uniform float u_wavelength;
uniform uint u_num_array_elements;
uniform vec2 u_array_elements[MAX_ARRAY_ELEMENTS];

out vec4 out_color;

void main() {
    vec2 point = gl_FragCoord.xy / u_resolution;
    float sum = 0.0;
    for (uint i = 0u; i < u_num_array_elements && i < uint(MAX_ARRAY_ELEMENTS); i++) {
        float travelled = distance(point, u_array_elements[i]);
        sum += sin(TWO_PI * (travelled / u_wavelength - u_time) + float(i) * u_phase);
    }
    float level = 0.5 + 0.5 * sum / float(max(u_num_array_elements, 1u));
    out_color = vec4(level, level, level, 1.0);
}
";

} // verus!
