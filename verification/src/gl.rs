//! The calls into the browser's WebGL2 binding, and the numbers it goes by.
//!
//! Nothing is known of what the device answers: a context may be lost at any
//! time, after which it hands out no objects and reports no success. What each
//! declaration states is therefore only which arguments the renderer passes.
//! The binding exists inside a browser; built for any other target its functions
//! are stubs that do not return.

use vstd::prelude::*;
use wasm_bindgen::JsValue;
use web_sys::WebGl2RenderingContext;
use web_sys::WebGlBuffer;
use web_sys::WebGlProgram;
use web_sys::WebGlShader;
use web_sys::WebGlUniformLocation;
use web_sys::WebGlVertexArrayObject;

verus! {

/// Shader kind of the vertex stage.
pub const VERTEX_SHADER: u32 = 35633;

/// Shader kind of the fragment stage.
pub const FRAGMENT_SHADER: u32 = 35632;

/// Shader parameter that tells whether the last compilation succeeded.
pub const COMPILE_STATUS: u32 = 35713;

/// Program parameter that tells whether the last link succeeded.
pub const LINK_STATUS: u32 = 35714;

/// Binding point of vertex attribute data.
pub const ARRAY_BUFFER: u32 = 34962;

/// Usage hint of data that is written once and drawn many times.
pub const STATIC_DRAW: u32 = 35044;

/// Component type of single-precision numbers.
pub const FLOAT: u32 = 5126;

/// Mask bit of the colour buffer.
pub const COLOR_BUFFER_BIT: u32 = 16384;

/// Primitive mode in which each vertex after the second closes a triangle.
pub const TRIANGLE_STRIP: u32 = 5;

/// A WebGL2 rendering context, as the browser hands it out for a canvas.
#[verifier::external_type_specification]
#[verifier::external_body]
pub struct ExWebGl2RenderingContext(WebGl2RenderingContext);

/// A shader object of the device.
#[verifier::external_type_specification]
#[verifier::external_body]
pub struct ExWebGlShader(WebGlShader);

/// A program object of the device.
#[verifier::external_type_specification]
#[verifier::external_body]
pub struct ExWebGlProgram(WebGlProgram);

/// A buffer object of the device.
#[verifier::external_type_specification]
#[verifier::external_body]
pub struct ExWebGlBuffer(WebGlBuffer);

/// A vertex-array object of the device.
#[verifier::external_type_specification]
#[verifier::external_body]
pub struct ExWebGlVertexArrayObject(WebGlVertexArrayObject);

/// The place of a uniform in a linked program.
#[verifier::external_type_specification]
#[verifier::external_body]
pub struct ExWebGlUniformLocation(WebGlUniformLocation);

/// A value of the host page's script engine.
#[verifier::external_type_specification]
#[verifier::external_body]
pub struct ExJsValue(JsValue);

/// `createShader`: asked only for one of the two shader kinds. The device may
/// hand out no object.
pub assume_specification[ WebGl2RenderingContext::create_shader ](
    this: &WebGl2RenderingContext,
    type_: u32,
) -> (shader: Option<WebGlShader>)
    requires
        type_ == VERTEX_SHADER || type_ == FRAGMENT_SHADER,
;

/// `shaderSource`: replaces the source text of a shader.
pub assume_specification[ WebGl2RenderingContext::shader_source ](
    this: &WebGl2RenderingContext,
    shader: &WebGlShader,
    source: &str,
)
;

/// `compileShader`: compiles the source last given; the outcome is asked for
/// separately.
pub assume_specification[ WebGl2RenderingContext::compile_shader ](
    this: &WebGl2RenderingContext,
    shader: &WebGlShader,
)
;

/// `getShaderParameter`: asked only for the compile status. The answer is a
/// script value of no known kind.
pub assume_specification[ WebGl2RenderingContext::get_shader_parameter ](
    this: &WebGl2RenderingContext,
    shader: &WebGlShader,
    pname: u32,
) -> (value: JsValue)
    requires
        pname == COMPILE_STATUS,
;

/// `getShaderInfoLog`: the driver's text for the last compilation, if any.
pub assume_specification[ WebGl2RenderingContext::get_shader_info_log ](
    this: &WebGl2RenderingContext,
    shader: &WebGlShader,
) -> (log: Option<String>)
;

/// `createProgram`: the device may hand out no object.
pub assume_specification[ WebGl2RenderingContext::create_program ](
    this: &WebGl2RenderingContext,
) -> (program: Option<WebGlProgram>)
;

/// `attachShader`: attaches a shader to a program.
pub assume_specification[ WebGl2RenderingContext::attach_shader ](
    this: &WebGl2RenderingContext,
    program: &WebGlProgram,
    shader: &WebGlShader,
)
;

/// `linkProgram`: links the attached shaders; the outcome is asked for separately.
pub assume_specification[ WebGl2RenderingContext::link_program ](
    this: &WebGl2RenderingContext,
    program: &WebGlProgram,
)
;

/// `getProgramParameter`: asked only for the link status. The answer is a script
/// value of no known kind.
pub assume_specification[ WebGl2RenderingContext::get_program_parameter ](
    this: &WebGl2RenderingContext,
    program: &WebGlProgram,
    pname: u32,
) -> (value: JsValue)
    requires
        pname == LINK_STATUS,
;

/// `getProgramInfoLog`: the driver's text for the last link, if any.
pub assume_specification[ WebGl2RenderingContext::get_program_info_log ](
    this: &WebGl2RenderingContext,
    program: &WebGlProgram,
) -> (log: Option<String>)
;

/// `useProgram`: makes a program the context's current one.
pub assume_specification[ WebGl2RenderingContext::use_program ](
    this: &WebGl2RenderingContext,
    program: Option<&WebGlProgram>,
)
;

/// `getAttribLocation`: asked only for the attribute `position`. Nothing is
/// claimed of the index.
pub assume_specification[ WebGl2RenderingContext::get_attrib_location ](
    this: &WebGl2RenderingContext,
    program: &WebGlProgram,
    name: &str,
) -> (location: i32)
    requires
        name@ == "position"@,
;

/// `createBuffer`: the device may hand out no object.
pub assume_specification[ WebGl2RenderingContext::create_buffer ](
    this: &WebGl2RenderingContext,
) -> (buffer: Option<WebGlBuffer>)
;

/// `bindBuffer`: used only on the binding point of vertex attribute data.
pub assume_specification[ WebGl2RenderingContext::bind_buffer ](
    this: &WebGl2RenderingContext,
    target: u32,
    buffer: Option<&WebGlBuffer>,
)
    requires
        target == ARRAY_BUFFER,
;

/// `bufferData`, from bytes: used only to store vertex attribute data once.
pub assume_specification[ WebGl2RenderingContext::buffer_data_with_u8_array ](
    this: &WebGl2RenderingContext,
    target: u32,
    src_data: &[u8],
    usage: u32,
)
    requires
        target == ARRAY_BUFFER,
        usage == STATIC_DRAW,
;

/// `createVertexArray`: the device may hand out no object.
pub assume_specification[ WebGl2RenderingContext::create_vertex_array ](
    this: &WebGl2RenderingContext,
) -> (array: Option<WebGlVertexArrayObject>)
;

/// `bindVertexArray`: makes a vertex-array object the current one.
pub assume_specification[ WebGl2RenderingContext::bind_vertex_array ](
    this: &WebGl2RenderingContext,
    array: Option<&WebGlVertexArrayObject>,
)
;

/// `vertexAttribPointer`: used only for tightly packed single-precision
/// components, one to four per vertex, read from the start of the buffer.
pub assume_specification[ WebGl2RenderingContext::vertex_attrib_pointer_with_i32 ](
    this: &WebGl2RenderingContext,
    indx: u32,
    size: i32,
    type_: u32,
    normalized: bool,
    stride: i32,
    offset: i32,
)
    requires
        1 <= size <= 4,
        type_ == FLOAT,
        stride == 0,
        offset == 0,
;

/// `enableVertexAttribArray`: switches a vertex attribute to array input.
pub assume_specification[ WebGl2RenderingContext::enable_vertex_attrib_array ](
    this: &WebGl2RenderingContext,
    index: u32,
)
;

/// `getUniformLocation`: asked only for the six uniforms of the wave program.
/// The answer is the place of the uniform, or nothing where the linked program
/// has no active uniform of that name.
pub assume_specification[ WebGl2RenderingContext::get_uniform_location ](
    this: &WebGl2RenderingContext,
    program: &WebGlProgram,
    name: &str,
) -> (location: Option<WebGlUniformLocation>)
    requires
        name@ == "u_time"@ || name@ == "u_resolution"@ || name@ == "u_phase"@ || name@
            == "u_wavelength"@ || name@ == "u_num_array_elements"@ || name@
            == "u_array_elements"@,
;

/// `JsValue::as_bool`: the truth value of a script value that is a boolean,
/// nothing for any other.
pub assume_specification[ JsValue::as_bool ](this: &JsValue) -> (value: Option<bool>)
;

} // verus!
