use innards::error::GeometryObject;
use innards::error::RenderError;
use innards::error::ShaderStage;
use innards::setup::attribute_index;
use innards::setup::compile_failure;
use innards::setup::link_failure;
use innards::setup::program_unavailable;
use innards::setup::require_object;
use innards::setup::require_uniform;
use innards::setup::shader_unavailable;
use innards::setup::status_is_success;
use innards::uniforms::UniformSlot;
use wasm_bindgen::JsCast;
use wasm_bindgen::JsValue;
use web_sys::WebGlUniformLocation;

fn all_slots() -> Vec<UniformSlot> {
    vec![
        UniformSlot::Time,
        UniformSlot::Resolution,
        UniformSlot::Phase,
        UniformSlot::Wavelength,
        UniformSlot::ElementCount,
        UniformSlot::ElementPositions,
    ]
}

#[test]
fn only_true_is_success() {
    assert!(status_is_success(Some(true)));
    assert!(!status_is_success(Some(false)));
    assert!(!status_is_success(None));
}

#[test]
fn syntax_error_in_a_shader_is_a_compile_error() {
    let log = String::from("ERROR: 0:3: 'vec5' : undeclared identifier");
    assert!(!status_is_success(Some(false)));
    assert_eq!(
        compile_failure(ShaderStage::Vertex, Some(log.clone())),
        RenderError::ShaderCompileError { stage: ShaderStage::Vertex, log: log.clone() }
    );
    assert_eq!(
        compile_failure(ShaderStage::Fragment, Some(log.clone())),
        RenderError::ShaderCompileError { stage: ShaderStage::Fragment, log }
    );
}

#[test]
fn compile_failure_without_a_log_says_so() {
    assert_eq!(
        compile_failure(ShaderStage::Fragment, None),
        RenderError::ShaderCompileError {
            stage: ShaderStage::Fragment,
            log: String::from("Unknown error creating shader"),
        }
    );
}

#[test]
fn missing_shader_object_is_a_compile_error_of_its_stage() {
    assert_eq!(
        shader_unavailable(ShaderStage::Vertex),
        RenderError::ShaderCompileError {
            stage: ShaderStage::Vertex,
            log: String::from("Unable to create shader object"),
        }
    );
    assert_eq!(
        shader_unavailable(ShaderStage::Fragment),
        RenderError::ShaderCompileError {
            stage: ShaderStage::Fragment,
            log: String::from("Unable to create shader object"),
        }
    );
}

#[test]
fn link_failure_carries_the_log() {
    assert_eq!(
        link_failure(Some(String::from("varying v_uv not written"))),
        RenderError::ProgramLinkError { log: String::from("varying v_uv not written") }
    );
    assert_eq!(
        link_failure(None),
        RenderError::ProgramLinkError { log: String::from("Unknown error creating program object") }
    );
    assert_eq!(
        program_unavailable(),
        RenderError::ProgramLinkError { log: String::from("Unable to create shader object") }
    );
}

#[test]
fn refused_allocation_names_its_object() {
    assert_eq!(
        require_object::<u8>(GeometryObject::VertexBuffer, None),
        Err(RenderError::BufferAllocationError { object: GeometryObject::VertexBuffer })
    );
    assert_eq!(
        require_object::<u8>(GeometryObject::VertexArray, None),
        Err(RenderError::BufferAllocationError { object: GeometryObject::VertexArray })
    );
    assert_eq!(require_object(GeometryObject::VertexBuffer, Some(17u8)), Ok(17u8));
}

#[test]
fn missing_wavelength_uniform_is_reported_by_name() {
    match require_uniform(UniformSlot::Wavelength, None) {
        Err(error) => assert_eq!(
            error,
            RenderError::UniformResolutionError { name: String::from("u_wavelength") }
        ),
        Ok(_) => panic!("a missing uniform was accepted"),
    }
}

#[test]
fn every_missing_uniform_is_reported_by_its_name() {
    for slot in all_slots() {
        match require_uniform(slot, None) {
            Err(RenderError::UniformResolutionError { name }) => assert_eq!(name, slot.name()),
            _ => panic!("a missing uniform was not reported"),
        }
    }
}

#[test]
fn found_uniform_is_accepted() {
    let location: WebGlUniformLocation = JsValue::NULL.unchecked_into();
    assert!(require_uniform(UniformSlot::Time, Some(location)).is_ok());
}

#[test]
fn attribute_index_is_the_location_as_unsigned() {
    assert_eq!(attribute_index(0), 0);
    assert_eq!(attribute_index(3), 3);
    assert_eq!(attribute_index(i32::MAX), i32::MAX as u32);
    assert_eq!(attribute_index(-1), u32::MAX);
    assert_eq!(attribute_index(-2), -2i32 as u32);
    assert_eq!(attribute_index(i32::MIN), i32::MIN as u32);
}
