//! The decisions of a construction: what each answer of the device leads to.

use vstd::prelude::*;
use web_sys::WebGlUniformLocation;
use crate::error::no_compile_log_text;
use crate::error::no_link_log_text;
use crate::error::no_program_text;
use crate::error::no_shader_text;
use crate::error::GeometryObject;
use crate::error::RenderError;
use crate::error::ShaderStage;
use crate::uniforms::UniformSlot;

verus! {

/// The driver's log where it left one, the given text where it left none.
pub open spec fn log_text(log: Option<String>, fallback: Seq<char>) -> Seq<char> {
    match log {
        Some(text) => text@,
        None => fallback,
    }
}

/// Whether a compile or link status reports success. Only the boolean `true`
/// does: a status of another kind, as a lost context gives it, counts as failure.
pub fn status_is_success(status: Option<bool>) -> (success: bool)
    ensures
        success == (status == Some(true)),
{
    match status {
        Some(flag) => flag,
        None => false,
    }
}

/// The error for a stage whose shader object the device did not hand out.
pub fn shader_unavailable(stage: ShaderStage) -> (error: RenderError)
    ensures
        error.is_compile_failure(stage, no_shader_text()),
{
    RenderError::ShaderCompileError { stage, log: "Unable to create shader object".to_owned() }
}

/// The error for a shader that did not compile, from the driver's log.
pub fn compile_failure(stage: ShaderStage, log: Option<String>) -> (error: RenderError)
    ensures
        error.is_compile_failure(stage, log_text(log, no_compile_log_text())),
{
    match log {
        Some(text) => RenderError::ShaderCompileError { stage, log: text },
        None => RenderError::ShaderCompileError {
            stage,
            log: "Unknown error creating shader".to_owned(),
        },
    }
}

/// The error for a program object that the device did not hand out.
pub fn program_unavailable() -> (error: RenderError)
    ensures
        error.is_link_failure(no_program_text()),
{
    RenderError::ProgramLinkError { log: "Unable to create shader object".to_owned() }
}

/// The error for a program that did not link, from the driver's log.
pub fn link_failure(log: Option<String>) -> (error: RenderError)
    ensures
        error.is_link_failure(log_text(log, no_link_log_text())),
{
    match log {
        Some(text) => RenderError::ProgramLinkError { log: text },
        None => RenderError::ProgramLinkError {
            log: "Unknown error creating program object".to_owned(),
        },
    }
}

/// The geometry object that the device handed out, or the error that names the
/// object it refused.
pub fn require_object<T>(object: GeometryObject, found: Option<T>) -> (made: Result<
    T,
    RenderError,
>)
    ensures
        match found {
            Some(handle) => made == Ok::<T, RenderError>(handle),
            None => made == Err::<T, RenderError>(RenderError::BufferAllocationError { object }),
        },
{
    match found {
        Some(handle) => Ok(handle),
        None => Err(RenderError::BufferAllocationError { object }),
    }
}

/// The place at which a uniform was found, or the error that names the uniform
/// that the program lacks.
pub fn require_uniform(slot: UniformSlot, found: Option<WebGlUniformLocation>) -> (made: Result<
    WebGlUniformLocation,
    RenderError,
>)
    ensures
        match found {
            Some(location) => made == Ok::<WebGlUniformLocation, RenderError>(location),
            None => made matches Err(error) && error.is_missing_uniform(slot),
        },
{
    match found {
        Some(location) => Ok(location),
        None => Err(RenderError::UniformResolutionError { name: slot.name().to_owned() }),
    }
}

/// The index of a vertex attribute as an unsigned number: the location itself,
/// and for the location -1 of an attribute that the program lacks the greatest
/// index, which the device rejects.
pub open spec fn attribute_index_of(location: i32) -> u32 {
    if location >= 0 {
        location as u32
    } else {
        (location + 0x1_0000_0000) as u32
    }
}

/// The index of a vertex attribute as an unsigned number.
pub fn attribute_index(location: i32) -> (index: u32)
    ensures
        index == attribute_index_of(location),
{
    if location >= 0 {
        location as u32
    } else {
        u32::MAX - ((-(location + 1)) as u32)
    }
}

} // verus!
