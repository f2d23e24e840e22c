//! A frame as the sequence of calls on the rendering context that draws it.
//!
//! The library decides the calls and their order; whoever holds the context
//! makes them.

use vstd::prelude::*;
use crate::gl::COLOR_BUFFER_BIT;
use crate::gl::TRIANGLE_STRIP;
use crate::layout::element_positions;
use crate::layout::element_x;
use crate::layout::interleave_positions;
use crate::scalar::Scalar;
use crate::scalar::ONE_BITS;
use crate::scalar::ONE_TENTH_BITS;
use crate::scalar::ZERO_BITS;
use crate::uniforms::UniformSlot;

verus! {

/// One call on the rendering context, with its arguments.
#[derive(Clone, Debug, PartialEq, Eq)]
pub enum GpuCommand {
    /// `clearColor`
    ClearColor { red: Scalar, green: Scalar, blue: Scalar, alpha: Scalar },
    /// `clear`
    Clear { mask: u32 },
    /// `uniform1f`
    Uniform1f { slot: UniformSlot, value: Scalar },
    /// `uniform2f`
    Uniform2f { slot: UniformSlot, x: Scalar, y: Scalar },
    /// `uniform1ui`
    Uniform1ui { slot: UniformSlot, number: u32 },
    /// `uniform2fv`, with the pairs flattened
    Uniform2fv { slot: UniformSlot, values: Vec<Scalar> },
    /// `drawArrays`
    DrawArrays { mode: u32, first: i32, count: i32 },
}

/// What a [`GpuCommand`] says, with the array it carries as a sequence.
pub enum Command {
    /// Sets the colour that clearing fills with.
    ClearColor { red: Scalar, green: Scalar, blue: Scalar, alpha: Scalar },
    /// Clears the buffers of the mask.
    Clear { mask: u32 },
    /// Writes a number to a uniform.
    Uniform1f { slot: UniformSlot, value: Scalar },
    /// Writes a pair of numbers to a uniform.
    Uniform2f { slot: UniformSlot, x: Scalar, y: Scalar },
    /// Writes an unsigned integer to a uniform.
    Uniform1ui { slot: UniformSlot, number: u32 },
    /// Writes pairs of numbers to a uniform array.
    Uniform2fv { slot: UniformSlot, values: Seq<Scalar> },
    /// Draws `count` vertices from `first` on.
    DrawArrays { mode: u32, first: i32, count: i32 },
}

impl View for GpuCommand {
    type V = Command;

    open spec fn view(&self) -> Command {
        match *self {
            GpuCommand::ClearColor { red, green, blue, alpha } => Command::ClearColor {
                red,
                green,
                blue,
                alpha,
            },
            GpuCommand::Clear { mask } => Command::Clear { mask },
            GpuCommand::Uniform1f { slot, value } => Command::Uniform1f { slot, value },
            GpuCommand::Uniform2f { slot, x, y } => Command::Uniform2f { slot, x, y },
            GpuCommand::Uniform1ui { slot, number } => Command::Uniform1ui { slot, number },
            GpuCommand::Uniform2fv { slot, values } => Command::Uniform2fv { slot, values: values@ },
            GpuCommand::DrawArrays { mode, first, count } => Command::DrawArrays {
                mode,
                first,
                count,
            },
        }
    }
}

/// What a list of commands says, one by one.
pub open spec fn commands_of(list: Seq<GpuCommand>) -> Seq<Command> {
    Seq::new(list.len(), |i: int| list[i]@)
}

/// The element count as the shader receives it: an unsigned 32-bit number, the
/// count reduced modulo 2^32.
pub open spec fn count_uniform(element_count: nat) -> u32 {
    (element_count % 0x1_0000_0000) as u32
}

/// The element count as the shader receives it.
pub fn count_as_uniform(element_count: usize) -> (value: u32)
    ensures
        value == count_uniform(element_count as nat),
        element_count <= u32::MAX ==> value == element_count,
{
    let wide: u64 = element_count as u64;
    (wide % 0x1_0000_0000u64) as u32
}

/// The calls that draw one frame, in order: clear to opaque black; write time,
/// phase, resolution and element count; write the wavelength; write the
/// elements' positions; draw the quad as a triangle strip.
pub open spec fn frame_commands(
    canvas_width: Scalar,
    canvas_height: Scalar,
    vertex_count: i32,
    time: Scalar,
    phase: Scalar,
    wavelength: Scalar,
    heights: Seq<Scalar>,
) -> Seq<Command> {
    seq![
        Command::ClearColor {
            red: Scalar { bits: ZERO_BITS },
            green: Scalar { bits: ZERO_BITS },
            blue: Scalar { bits: ZERO_BITS },
            alpha: Scalar { bits: ONE_BITS },
        },
        Command::Clear { mask: COLOR_BUFFER_BIT },
        Command::Uniform1f { slot: UniformSlot::Time, value: time },
        Command::Uniform1f { slot: UniformSlot::Phase, value: phase },
        Command::Uniform2f { slot: UniformSlot::Resolution, x: canvas_width, y: canvas_height },
        Command::Uniform1ui { slot: UniformSlot::ElementCount, number: count_uniform(heights.len()) },
        Command::Uniform1f { slot: UniformSlot::Wavelength, value: wavelength },
        Command::Uniform2fv {
            slot: UniformSlot::ElementPositions,
            values: element_positions(heights),
        },
        Command::DrawArrays { mode: TRIANGLE_STRIP, first: 0, count: vertex_count },
    ]
}

/// How many calls draw one frame.
pub const FRAME_LENGTH: usize = 9;

/// Where in a frame the resolution is written.
pub const RESOLUTION_WRITE: usize = 4;

/// Where in a frame the elements' positions are written.
pub const POSITIONS_WRITE: usize = 7;

/// In every frame, every element is written with one tenth as its horizontal
/// coordinate and with its own height as its vertical coordinate.
pub proof fn lemma_frame_positions(
    canvas_width: Scalar,
    canvas_height: Scalar,
    vertex_count: i32,
    time: Scalar,
    phase: Scalar,
    wavelength: Scalar,
    heights: Seq<Scalar>,
    i: int,
)
    requires
        0 <= i < heights.len(),
    ensures
        frame_commands(
            canvas_width,
            canvas_height,
            vertex_count,
            time,
            phase,
            wavelength,
            heights,
        )[POSITIONS_WRITE as int] matches Command::Uniform2fv { slot, values } && {
            &&& slot == UniformSlot::ElementPositions
            &&& values.len() == 2 * heights.len()
            &&& values[2 * i] == element_x()
            &&& values[2 * i].bits == ONE_TENTH_BITS
            &&& values[2 * i + 1] == heights[i]
        },
{
}

/// Drawing is repeatable: two frames that were built for the same canvas size
/// from the same arguments consist of the same calls, write for write.
pub proof fn lemma_frames_repeat(
    first: Seq<GpuCommand>,
    second: Seq<GpuCommand>,
    canvas_width: Scalar,
    canvas_height: Scalar,
    vertex_count: i32,
    time: Scalar,
    phase: Scalar,
    wavelength: Scalar,
    heights: Seq<Scalar>,
)
    requires
        commands_of(first) == frame_commands(
            canvas_width,
            canvas_height,
            vertex_count,
            time,
            phase,
            wavelength,
            heights,
        ),
        commands_of(second) == frame_commands(
            canvas_width,
            canvas_height,
            vertex_count,
            time,
            phase,
            wavelength,
            heights,
        ),
    ensures
        first.len() == FRAME_LENGTH,
        second.len() == FRAME_LENGTH,
        forall|k: int| 0 <= k < FRAME_LENGTH ==> first[k]@ == second[k]@,
{
    assert(commands_of(first).len() == first.len());
    assert(commands_of(second).len() == second.len());
    assert forall|k: int| 0 <= k < FRAME_LENGTH implies first[k]@ == second[k]@ by {
        assert(commands_of(first)[k] == first[k]@);
        assert(commands_of(second)[k] == second[k]@);
    }
}

/// The canvas size reaches a frame only through the write of the resolution:
/// frames for canvases of different sizes agree in every other call.
pub proof fn lemma_canvas_reaches_resolution_only(
    width_a: Scalar,
    height_a: Scalar,
    width_b: Scalar,
    height_b: Scalar,
    vertex_count: i32,
    time: Scalar,
    phase: Scalar,
    wavelength: Scalar,
    heights: Seq<Scalar>,
    k: int,
)
    requires
        0 <= k < FRAME_LENGTH,
        k != RESOLUTION_WRITE,
    ensures
        frame_commands(width_a, height_a, vertex_count, time, phase, wavelength, heights)[k]
            == frame_commands(width_b, height_b, vertex_count, time, phase, wavelength, heights)[k],
        frame_commands(
            width_a,
            height_a,
            vertex_count,
            time,
            phase,
            wavelength,
            heights,
        )[RESOLUTION_WRITE as int] == (Command::Uniform2f {
            slot: UniformSlot::Resolution,
            x: width_a,
            y: height_a,
        }),
{
}

/// Builds the calls that draw one frame on a canvas of the given size, for
/// elements at the given heights.
pub fn plan_frame(
    canvas_width: Scalar,
    canvas_height: Scalar,
    vertex_count: i32,
    time: Scalar,
    phase: Scalar,
    wavelength: Scalar,
    heights: &Vec<Scalar>,
) -> (plan: Vec<GpuCommand>)
    ensures
        commands_of(plan@) == frame_commands(
            canvas_width,
            canvas_height,
            vertex_count,
            time,
            phase,
            wavelength,
            heights@,
        ),
{
    let zero = Scalar::from_bits(ZERO_BITS);
    let one = Scalar::from_bits(ONE_BITS);
    let positions = interleave_positions(heights);
    let mut plan: Vec<GpuCommand> = Vec::new();
    plan.push(GpuCommand::ClearColor { red: zero, green: zero, blue: zero, alpha: one });
    plan.push(GpuCommand::Clear { mask: COLOR_BUFFER_BIT });
    plan.push(GpuCommand::Uniform1f { slot: UniformSlot::Time, value: time });
    plan.push(GpuCommand::Uniform1f { slot: UniformSlot::Phase, value: phase });
    plan.push(
        GpuCommand::Uniform2f { slot: UniformSlot::Resolution, x: canvas_width, y: canvas_height },
    );
    plan.push(
        GpuCommand::Uniform1ui {
            slot: UniformSlot::ElementCount,
            number: count_as_uniform(heights.len()),
        },
    );
    plan.push(GpuCommand::Uniform1f { slot: UniformSlot::Wavelength, value: wavelength });
    plan.push(GpuCommand::Uniform2fv { slot: UniformSlot::ElementPositions, values: positions });
    plan.push(GpuCommand::DrawArrays { mode: TRIANGLE_STRIP, first: 0, count: vertex_count });
    assert(commands_of(plan@) =~= frame_commands(
        canvas_width,
        canvas_height,
        vertex_count,
        time,
        phase,
        wavelength,
        heights@,
    ));
    plan
}

} // verus!
