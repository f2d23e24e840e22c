use innards::error::GeometryObject;
use innards::error::RenderError;
use innards::error::ShaderStage;
use innards::gl::COLOR_BUFFER_BIT;
use innards::gl::ARRAY_BUFFER;
use innards::gl::COMPILE_STATUS;
use innards::gl::FLOAT;
use innards::gl::FRAGMENT_SHADER;
use innards::gl::LINK_STATUS;
use innards::gl::STATIC_DRAW;
use innards::gl::TRIANGLE_STRIP;
use innards::gl::VERTEX_SHADER;
use innards::shaders::FRAGMENT_SOURCE;
use innards::shaders::POSITION_ATTRIBUTE;
use innards::shaders::VERTEX_SOURCE;
use innards::shaders::MAX_ARRAY_ELEMENTS;
use innards::uniforms::UniformSlot;
use web_sys::WebGl2RenderingContext;

#[test]
fn messages_are_those_handed_to_the_host_page() {
    assert_eq!(
        RenderError::BufferAllocationError { object: GeometryObject::VertexBuffer }.message(),
        "Couldn't create buffer"
    );
    assert_eq!(
        RenderError::BufferAllocationError { object: GeometryObject::VertexArray }.message(),
        "Could not create vertex array object"
    );
    assert_eq!(
        RenderError::ShaderCompileError {
            stage: ShaderStage::Vertex,
            log: String::from("ERROR: 0:1: syntax error"),
        }
        .message(),
        "ERROR: 0:1: syntax error"
    );
    assert_eq!(
        RenderError::ProgramLinkError { log: String::from("link failed") }.message(),
        "link failed"
    );
    assert_eq!(
        RenderError::UniformResolutionError { name: String::from("u_wavelength") }.message(),
        "Couldn't get uniform location for u_wavelength"
    );
    assert_eq!(
        RenderError::UniformResolutionError { name: String::from("u_time") }.message(),
        "Couldn't get uniform location for u_time"
    );
}

#[test]
fn stages_go_by_the_device_numbers() {
    assert_eq!(ShaderStage::Vertex.kind(), WebGl2RenderingContext::VERTEX_SHADER);
    assert_eq!(ShaderStage::Fragment.kind(), WebGl2RenderingContext::FRAGMENT_SHADER);
}

#[test]
fn numbers_are_those_of_the_binding() {
    assert_eq!(VERTEX_SHADER, WebGl2RenderingContext::VERTEX_SHADER);
    assert_eq!(FRAGMENT_SHADER, WebGl2RenderingContext::FRAGMENT_SHADER);
    assert_eq!(COMPILE_STATUS, WebGl2RenderingContext::COMPILE_STATUS);
    assert_eq!(LINK_STATUS, WebGl2RenderingContext::LINK_STATUS);
    assert_eq!(ARRAY_BUFFER, WebGl2RenderingContext::ARRAY_BUFFER);
    assert_eq!(STATIC_DRAW, WebGl2RenderingContext::STATIC_DRAW);
    assert_eq!(FLOAT, WebGl2RenderingContext::FLOAT);
    assert_eq!(COLOR_BUFFER_BIT, WebGl2RenderingContext::COLOR_BUFFER_BIT);
    assert_eq!(TRIANGLE_STRIP, WebGl2RenderingContext::TRIANGLE_STRIP);
}

#[test]
fn uniforms_go_by_the_names_in_the_shaders() {
    assert_eq!(UniformSlot::Time.name(), "u_time");
    assert_eq!(UniformSlot::Resolution.name(), "u_resolution");
    assert_eq!(UniformSlot::Phase.name(), "u_phase");
    assert_eq!(UniformSlot::Wavelength.name(), "u_wavelength");
    assert_eq!(UniformSlot::ElementCount.name(), "u_num_array_elements");
    assert_eq!(UniformSlot::ElementPositions.name(), "u_array_elements");
}

#[test]
fn shaders_declare_what_the_renderer_resolves() {
    let slots = [
        (UniformSlot::Time, "uniform float u_time;"),
        (UniformSlot::Resolution, "uniform vec2 u_resolution;"),
        (UniformSlot::Phase, "uniform float u_phase;"),
        (UniformSlot::Wavelength, "uniform float u_wavelength;"),
        (UniformSlot::ElementCount, "uniform uint u_num_array_elements;"),
        (UniformSlot::ElementPositions, "uniform vec2 u_array_elements[MAX_ARRAY_ELEMENTS];"),
    ];
    for (slot, declaration) in slots {
        assert!(declaration.contains(slot.name()));
        assert!(FRAGMENT_SOURCE.contains(declaration));
    }
    assert_eq!(POSITION_ATTRIBUTE, "position");
    assert!(VERTEX_SOURCE.contains("in vec2 position;"));
    assert!(FRAGMENT_SOURCE.contains(&format!("#define MAX_ARRAY_ELEMENTS {}", MAX_ARRAY_ELEMENTS)));
    assert!(VERTEX_SOURCE.starts_with("#version 300 es"));
    assert!(FRAGMENT_SOURCE.starts_with("#version 300 es"));
}
