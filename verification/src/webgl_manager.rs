//! The renderer: a rendering context with the wave program set up on it.

use vstd::prelude::*;
use web_sys::WebGl2RenderingContext;
use web_sys::WebGlProgram;
use web_sys::WebGlShader;
use web_sys::WebGlUniformLocation;
use crate::error::GeometryObject;
use crate::error::RenderError;
use crate::error::ShaderStage;
use crate::frame::commands_of;
use crate::frame::frame_commands;
use crate::frame::plan_frame;
use crate::frame::GpuCommand;
use crate::gl::ARRAY_BUFFER;
use crate::gl::COMPILE_STATUS;
use crate::gl::FLOAT;
use crate::gl::LINK_STATUS;
use crate::gl::STATIC_DRAW;
use crate::layout::element_heights;
use crate::layout::heights_of;
use crate::layout::square_side;
use crate::layout::square_side_of;
use crate::layout::wavelength;
use crate::layout::wavelength_of;
use crate::layout::MIN_ELEMENT_COUNT;
use crate::quad::pack;
use crate::quad::quad_vertices;
use crate::quad::COMPONENTS_PER_VERTEX;
use crate::quad::QUAD_VERTEX_COUNT;
use crate::scalar::Scalar;
use crate::setup::attribute_index;
use crate::setup::compile_failure;
use crate::setup::link_failure;
use crate::setup::program_unavailable;
use crate::setup::require_object;
use crate::setup::require_uniform;
use crate::setup::shader_unavailable;
use crate::setup::status_is_success;
use crate::shaders::FRAGMENT_SOURCE;
use crate::shaders::POSITION_ATTRIBUTE;
use crate::shaders::VERTEX_SOURCE;
use crate::uniforms::UniformLocations;
use crate::uniforms::UniformSlot;

verus! {

/// What a renderer remembers between frames, apart from its device handles.
pub struct RenderState {
    /// The width that is reported to the shaders as the resolution.
    pub canvas_width: Scalar,
    /// The height that is reported to the shaders as the resolution.
    pub canvas_height: Scalar,
    /// How many vertices a frame draws.
    pub vert_count: int,
}

/// A rendering context on which the wave program is current, the quad is bound
/// and every uniform is resolved.
pub struct WebglManager {
    context: WebGl2RenderingContext,
    canvas_width: Scalar,
    canvas_height: Scalar,
    vert_count: i32,
    locations: UniformLocations,
}

impl View for WebglManager {
    type V = RenderState;

    closed spec fn view(&self) -> RenderState {
        RenderState {
            canvas_width: self.canvas_width,
            canvas_height: self.canvas_height,
            vert_count: self.vert_count as int,
        }
    }
}

impl WebglManager {
    #[verifier::type_invariant]
    spec fn draws_the_quad(self) -> bool {
        self.vert_count == QUAD_VERTEX_COUNT
    }

    /// The rendering context that this renderer owns.
    pub closed spec fn device(self) -> WebGl2RenderingContext {
        self.context
    }

    /// The places at which the uniforms were resolved when the renderer was made.
    pub closed spec fn uniforms(self) -> UniformLocations {
        self.locations
    }

    /// Sets the wave program up on `context`: compiles the two shaders of
    /// [`crate::shaders`], links them, uploads the quad, describes its layout to
    /// the `position` attribute and resolves the six uniforms.
    ///
    /// What the device answers decides between success and each error. On
    /// success the renderer reports the given canvas size; no renderer is
    /// handed out unless every step succeeded.
    pub fn new(context: WebGl2RenderingContext, canvas_width: Scalar, canvas_height: Scalar) -> (made:
        Result<WebglManager, RenderError>)
        ensures
            made matches Ok(manager) ==> manager@ == (RenderState {
                canvas_width,
                canvas_height,
                vert_count: QUAD_VERTEX_COUNT as int,
            }) && manager.device() == context,
            made matches Err(error) ==> error.arises_in_construction(),
    {
        Self::with_sources(
            context,
            VERTEX_SOURCE,
            FRAGMENT_SOURCE,
            canvas_width,
            canvas_height,
        )
    }

    /// Sets a program of the given shader sources up on `context`, as [`Self::new`]
    /// does with the shaders of the library. The sources must declare the
    /// attribute `position` and the six uniforms.
    pub fn with_sources(
        context: WebGl2RenderingContext,
        vertex_source: &str,
        fragment_source: &str,
        canvas_width: Scalar,
        canvas_height: Scalar,
    ) -> (made: Result<WebglManager, RenderError>)
        ensures
            made matches Ok(manager) ==> manager@ == (RenderState {
                canvas_width,
                canvas_height,
                vert_count: QUAD_VERTEX_COUNT as int,
            }) && manager.device() == context,
            made matches Err(error) ==> error.arises_in_construction(),
    {
        let vert_shader = Self::compile_shader(&context, ShaderStage::Vertex, vertex_source)?;
        let frag_shader = Self::compile_shader(&context, ShaderStage::Fragment, fragment_source)?;

        let program = Self::link_program(&context, &vert_shader, &frag_shader)?;

        let position_attribute_location = context.get_attrib_location(
            &program,
            POSITION_ATTRIBUTE,
        );
        let vertices = quad_vertices();
        let vertex_buf = require_object(GeometryObject::VertexBuffer, context.create_buffer())?;
        context.bind_buffer(ARRAY_BUFFER, Some(&vertex_buf));

        let vertex_bytes = pack(&vertices);
        context.buffer_data_with_u8_array(ARRAY_BUFFER, vertex_bytes.as_slice(), STATIC_DRAW);

        let vao = require_object(GeometryObject::VertexArray, context.create_vertex_array())?;
        context.bind_vertex_array(Some(&vao));

        let position_index = attribute_index(position_attribute_location);
        context.vertex_attrib_pointer_with_i32(
            position_index,
            COMPONENTS_PER_VERTEX,
            FLOAT,
            false,
            0,
            0,
        );
        context.enable_vertex_attrib_array(position_index);

        context.bind_vertex_array(Some(&vao));

        let locations = Self::resolve_uniforms(&context, &program)?;

        Ok(Self::assemble(context, locations, canvas_width, canvas_height))
    }

    /// A renderer on a context on which the wave program is already set up,
    /// with the places of its uniforms.
    pub fn assemble(
        context: WebGl2RenderingContext,
        locations: UniformLocations,
        canvas_width: Scalar,
        canvas_height: Scalar,
    ) -> (manager: WebglManager)
        ensures
            manager@ == (RenderState {
                canvas_width,
                canvas_height,
                vert_count: QUAD_VERTEX_COUNT as int,
            }),
            manager.device() == context,
            manager.uniforms() == locations,
    {
        WebglManager {
            context,
            canvas_width,
            canvas_height,
            vert_count: QUAD_VERTEX_COUNT,
            locations,
        }
    }

    /// The calls that draw one frame, in the order in which they are to be made
    /// on [`Self::context`]: clear, write the uniforms, draw the quad.
    ///
    /// The wavelength is `zoom / (count - 1) / spacing` and element `i` stands
    /// at the height `(1 - zoom) / 2 + i * zoom / (count - 1)`, one tenth of the
    /// width from the left. There are at least two elements, and the spacing is
    /// not zero. The frequency is accepted and reaches no uniform. The same
    /// arguments give the same calls until the canvas is resized.
    pub fn draw_frame(
        &self,
        u_time: Scalar,
        u_num_array_elements: usize,
        spacing: Scalar,
        u_frequency: Scalar,
        u_phase: Scalar,
        zoom: Scalar,
    ) -> (plan: Vec<GpuCommand>)
        requires
            u_num_array_elements >= MIN_ELEMENT_COUNT,
            !spacing.is_zero(),
        ensures
            commands_of(plan@) == frame_commands(
                self@.canvas_width,
                self@.canvas_height,
                QUAD_VERTEX_COUNT,
                u_time,
                u_phase,
                wavelength_of(zoom, u_num_array_elements as nat, spacing),
                heights_of(u_num_array_elements as nat, zoom),
            ),
    {
        proof {
            use_type_invariant(self);
        }
        let length = wavelength(zoom, u_num_array_elements, spacing);
        let heights = element_heights(u_num_array_elements, zoom);
        plan_frame(
            self.canvas_width,
            self.canvas_height,
            self.vert_count,
            u_time,
            u_phase,
            length,
            &heights,
        )
    }

    /// The calls that draw one frame, where a frame can be drawn: with fewer
    /// than two elements or a spacing of zero there is none.
    pub fn try_draw_frame(
        &self,
        u_time: Scalar,
        u_num_array_elements: usize,
        spacing: Scalar,
        u_frequency: Scalar,
        u_phase: Scalar,
        zoom: Scalar,
    ) -> (plan: Option<Vec<GpuCommand>>)
        ensures
            plan is Some <==> u_num_array_elements >= MIN_ELEMENT_COUNT && !spacing.is_zero(),
            plan matches Some(calls) ==> commands_of(calls@) == frame_commands(
                self@.canvas_width,
                self@.canvas_height,
                QUAD_VERTEX_COUNT,
                u_time,
                u_phase,
                wavelength_of(zoom, u_num_array_elements as nat, spacing),
                heights_of(u_num_array_elements as nat, zoom),
            ),
    {
        if u_num_array_elements < MIN_ELEMENT_COUNT || spacing.vanishes() {
            None
        } else {
            Some(self.draw_frame(u_time, u_num_array_elements, spacing, u_frequency, u_phase, zoom))
        }
    }

    /// Makes the canvas square: both its width and its height become the smaller
    /// of three quarters of the view's width and the view's height. No call is
    /// made on the device; the next frame reports the new size.
    pub fn resize(&mut self, width: Scalar, height: Scalar)
        ensures
            final(self)@.canvas_width == square_side_of(width, height),
            final(self)@.canvas_height == square_side_of(width, height),
            final(self)@.canvas_width == final(self)@.canvas_height,
            final(self)@.vert_count == old(self)@.vert_count,
            final(self).device() == old(self).device(),
            final(self).uniforms() == old(self).uniforms(),
    {
        proof {
            use_type_invariant(&*self);
        }
        let side = square_side(width, height);
        self.canvas_width = side;
        self.canvas_height = side;
    }

    /// The rendering context, for making the calls of a frame.
    pub fn context(&self) -> (context: &WebGl2RenderingContext)
        ensures
            *context == self.device(),
    {
        &self.context
    }

    /// The place of a uniform, for making the calls of a frame.
    pub fn uniform_location(&self, slot: UniformSlot) -> (location: &WebGlUniformLocation)
        ensures
            *location == self.uniforms().of(slot),
    {
        self.locations.get(slot)
    }

    /// How many vertices a frame draws: always the four of the quad.
    pub fn vert_count(&self) -> (count: i32)
        ensures
            count == QUAD_VERTEX_COUNT,
            count == self@.vert_count,
    {
        proof {
            use_type_invariant(self);
        }
        self.vert_count
    }

    /// The canvas width that frames report.
    pub fn canvas_width(&self) -> (width: Scalar)
        ensures
            width == self@.canvas_width,
    {
        self.canvas_width
    }

    /// The canvas height that frames report.
    pub fn canvas_height(&self) -> (height: Scalar)
        ensures
            height == self@.canvas_height,
    {
        self.canvas_height
    }

    /// Creates a shader of the given stage from `source` and compiles it. A
    /// failure carries the stage and the driver's log.
    fn compile_shader(context: &WebGl2RenderingContext, stage: ShaderStage, source: &str) -> (made:
        Result<WebGlShader, RenderError>)
        ensures
            made matches Err(error) ==> error.is_compile_failure_of(stage),
    {
        let shader = match context.create_shader(stage.kind()) {
            Some(shader) => shader,
            None => {
                return Err(shader_unavailable(stage));
            },
        };
        context.shader_source(&shader, source);
        context.compile_shader(&shader);

        let status = context.get_shader_parameter(&shader, COMPILE_STATUS).as_bool();
        if status_is_success(status) {
            Ok(shader)
        } else {
            Err(compile_failure(stage, context.get_shader_info_log(&shader)))
        }
    }

    /// Links the two shaders into a program and makes it current. A failure
    /// carries the driver's log.
    fn link_program(
        context: &WebGl2RenderingContext,
        vert_shader: &WebGlShader,
        frag_shader: &WebGlShader,
    ) -> (made: Result<WebGlProgram, RenderError>)
        ensures
            made matches Err(error) ==> error is ProgramLinkError,
    {
        let program = match context.create_program() {
            Some(program) => program,
            None => {
                return Err(program_unavailable());
            },
        };
        context.attach_shader(&program, vert_shader);
        context.attach_shader(&program, frag_shader);
        context.link_program(&program);

        let status = context.get_program_parameter(&program, LINK_STATUS).as_bool();
        if status_is_success(status) {
            context.use_program(Some(&program));
            Ok(program)
        } else {
            Err(link_failure(context.get_program_info_log(&program)))
        }
    }

    /// Resolves the six uniforms in their order. The first that the program
    /// lacks ends the search with the error that names it.
    fn resolve_uniforms(context: &WebGl2RenderingContext, program: &WebGlProgram) -> (found: Result<
        UniformLocations,
        RenderError,
    >)
        ensures
            found matches Err(error) ==> exists|slot: UniformSlot|
                #[trigger] error.is_missing_uniform(slot),
    {
        let time = Self::resolve_uniform(context, program, UniformSlot::Time)?;
        let resolution = Self::resolve_uniform(context, program, UniformSlot::Resolution)?;
        let phase = Self::resolve_uniform(context, program, UniformSlot::Phase)?;
        let wavelength = Self::resolve_uniform(context, program, UniformSlot::Wavelength)?;
        let element_count = Self::resolve_uniform(context, program, UniformSlot::ElementCount)?;
        let element_positions = Self::resolve_uniform(
            context,
            program,
            UniformSlot::ElementPositions,
        )?;
        Ok(
            UniformLocations {
                time,
                resolution,
                phase,
                wavelength,
                element_count,
                element_positions,
            },
        )
    }

    /// Looks a uniform up by its name. A failure carries the name.
    fn resolve_uniform(context: &WebGl2RenderingContext, program: &WebGlProgram, slot: UniformSlot)
        -> (found: Result<WebGlUniformLocation, RenderError>)
        ensures
            found matches Err(error) ==> error.is_missing_uniform(slot),
    {
        require_uniform(slot, context.get_uniform_location(program, slot.name()))
    }
}

} // verus!
