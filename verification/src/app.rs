//! The renderer as the host page drives it.

use vstd::prelude::*;
use crate::frame::commands_of;
use crate::frame::frame_commands;
use crate::frame::GpuCommand;
use crate::layout::heights_of;
use crate::layout::wavelength_of;
use crate::layout::MIN_ELEMENT_COUNT;
use crate::quad::QUAD_VERTEX_COUNT;
use crate::scalar::Scalar;
use crate::webgl_manager::WebglManager;

verus! {

/// What the host page holds: one renderer, asked for one frame at a time.
pub struct App {
    webgl_manager: WebglManager,
}

impl App {
    /// The renderer that this application draws with.
    pub closed spec fn manager(self) -> WebglManager {
        self.webgl_manager
    }

    /// An application that draws with the given renderer.
    pub fn new(webgl_manager: WebglManager) -> (app: App)
        ensures
            app.manager() == webgl_manager,
    {
        App { webgl_manager }
    }

    /// The renderer, for making the calls of a frame and for resizing.
    pub fn webgl_manager(&self) -> (manager: &WebglManager)
        ensures
            *manager == self.manager(),
    {
        &self.webgl_manager
    }

    /// The calls that draw one frame: those of the renderer's
    /// [`WebglManager::draw_frame`].
    pub fn draw(
        &self,
        u_time: Scalar,
        u_num_array_elements: usize,
        spacing: Scalar,
        u_frequency: Scalar,
        u_phase: Scalar,
        zoom: Scalar,
    ) -> (plan: Vec<GpuCommand>)
        requires
            u_num_array_elements >= MIN_ELEMENT_COUNT,
            !spacing.is_zero(),
        ensures
            commands_of(plan@) == frame_commands(
                self.manager()@.canvas_width,
                self.manager()@.canvas_height,
                QUAD_VERTEX_COUNT,
                u_time,
                u_phase,
                wavelength_of(zoom, u_num_array_elements as nat, spacing),
                heights_of(u_num_array_elements as nat, zoom),
            ),
    {
        self.webgl_manager.draw_frame(
            u_time,
            u_num_array_elements,
            spacing,
            u_frequency,
            u_phase,
            zoom,
        )
    }

    /// The calls that draw one frame, where a frame can be drawn: those of the
    /// renderer's [`WebglManager::try_draw_frame`].
    pub fn try_draw(
        &self,
        u_time: Scalar,
        u_num_array_elements: usize,
        spacing: Scalar,
        u_frequency: Scalar,
        u_phase: Scalar,
        zoom: Scalar,
    ) -> (plan: Option<Vec<GpuCommand>>)
        ensures
            plan is Some <==> u_num_array_elements >= MIN_ELEMENT_COUNT && !spacing.is_zero(),
            plan matches Some(calls) ==> commands_of(calls@) == frame_commands(
                self.manager()@.canvas_width,
                self.manager()@.canvas_height,
                QUAD_VERTEX_COUNT,
                u_time,
                u_phase,
                wavelength_of(zoom, u_num_array_elements as nat, spacing),
                heights_of(u_num_array_elements as nat, zoom),
            ),
    {
        self.webgl_manager.try_draw_frame(
            u_time,
            u_num_array_elements,
            spacing,
            u_frequency,
            u_phase,
            zoom,
        )
    }
}

} // verus!
