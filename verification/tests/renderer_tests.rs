use innards::app::App;
use innards::frame::plan_frame;
use innards::layout::element_heights;
use innards::layout::wavelength;
use innards::frame::GpuCommand;
use innards::scalar::Scalar;
use innards::uniforms::UniformLocations;
use innards::uniforms::UniformSlot;
use innards::webgl_manager::WebglManager;
use wasm_bindgen::JsCast;
use wasm_bindgen::JsValue;
use web_sys::WebGl2RenderingContext;
use web_sys::WebGlUniformLocation;

fn scalar(x: f32) -> Scalar {
    Scalar::from_bits(x.to_bits())
}

fn number(s: Scalar) -> f32 {
    f32::from_bits(s.to_bits())
}

fn scalars(values: &[f32]) -> Vec<Scalar> {
    values.iter().map(|x| scalar(*x)).collect()
}

fn placeholder_location() -> WebGlUniformLocation {
    JsValue::NULL.unchecked_into()
}

// A renderer on handles that stand for no object of any device: enough for all
// that makes no call on it.
fn renderer(width: f32, height: f32) -> WebglManager {
    let context: WebGl2RenderingContext = JsValue::NULL.unchecked_into();
    let locations = UniformLocations {
        time: placeholder_location(),
        resolution: placeholder_location(),
        phase: placeholder_location(),
        wavelength: placeholder_location(),
        element_count: placeholder_location(),
        element_positions: placeholder_location(),
    };
    WebglManager::assemble(context, locations, scalar(width), scalar(height))
}

#[test]
fn assembled_renderer_reports_its_canvas() {
    let manager = renderer(640.0, 480.0);
    assert_eq!(number(manager.canvas_width()), 640.0);
    assert_eq!(number(manager.canvas_height()), 480.0);
    assert_eq!(manager.vert_count(), 4);
}

#[test]
fn resize_makes_the_canvas_square() {
    let mut manager = renderer(640.0, 480.0);
    manager.resize(scalar(800.0), scalar(300.0));
    assert_eq!(number(manager.canvas_width()), 300.0);
    assert_eq!(number(manager.canvas_height()), 300.0);
    manager.resize(scalar(400.0), scalar(500.0));
    assert_eq!(number(manager.canvas_width()), 300.0);
    assert_eq!(number(manager.canvas_height()), 300.0);
    manager.resize(scalar(100.0), scalar(500.0));
    assert_eq!(number(manager.canvas_width()), 75.0);
    assert_eq!(number(manager.canvas_height()), 75.0);
}

#[test]
fn resize_stores_equal_sides_for_any_sizes() {
    let sizes: Vec<f32> = vec![0.0, -0.0, 1.0, 299.25, 300.0, 1.0e30, f32::INFINITY, -5.0, f32::NAN];
    let mut manager = renderer(1.0, 2.0);
    for w in &sizes {
        for h in &sizes {
            manager.resize(scalar(*w), scalar(*h));
            assert_eq!(manager.canvas_width(), manager.canvas_height());
            let expected = (0.75 * *w).min(*h);
            if expected.is_nan() {
                assert!(manager.canvas_width().not_a_number());
            } else {
                assert_eq!(number(manager.canvas_width()), expected);
            }
            assert_eq!(manager.vert_count(), 4);
        }
    }
}

#[test]
fn frame_reports_the_canvas_and_draws_the_quad() {
    let manager = renderer(640.0, 480.0);
    let plan = manager.draw_frame(scalar(2.0), 3, scalar(1.0), scalar(7.0), scalar(0.5), scalar(0.8));
    let heights = element_heights(3, scalar(0.8));
    assert_eq!(
        plan,
        plan_frame(
            scalar(640.0),
            scalar(480.0),
            4,
            scalar(2.0),
            scalar(0.5),
            wavelength(scalar(0.8), 3, scalar(1.0)),
            &heights
        )
    );
    assert_eq!(
        plan[4],
        GpuCommand::Uniform2f { slot: UniformSlot::Resolution, x: scalar(640.0), y: scalar(480.0) }
    );
    assert_eq!(plan[8], GpuCommand::DrawArrays { mode: 5, first: 0, count: 4 });
}

#[test]
fn frame_of_five_elements() {
    let manager = renderer(300.0, 300.0);
    let plan = manager.draw_frame(scalar(1.5), 5, scalar(2.0), scalar(0.0), scalar(0.25), scalar(0.8));
    let zoom: f32 = 0.8;
    let mut positions: Vec<Scalar> = Vec::new();
    for i in 0..5 {
        positions.push(scalar(0.1));
        positions.push(scalar((1.0 - zoom) / 2.0 + (i as f32) * zoom / (5usize as f32 - 1.0)));
    }
    let expected = vec![
        GpuCommand::ClearColor {
            red: scalar(0.0),
            green: scalar(0.0),
            blue: scalar(0.0),
            alpha: scalar(1.0),
        },
        GpuCommand::Clear { mask: 16384 },
        GpuCommand::Uniform1f { slot: UniformSlot::Time, value: scalar(1.5) },
        GpuCommand::Uniform1f { slot: UniformSlot::Phase, value: scalar(0.25) },
        GpuCommand::Uniform2f { slot: UniformSlot::Resolution, x: scalar(300.0), y: scalar(300.0) },
        GpuCommand::Uniform1ui { slot: UniformSlot::ElementCount, number: 5 },
        GpuCommand::Uniform1f { slot: UniformSlot::Wavelength, value: scalar(0.1) },
        GpuCommand::Uniform2fv { slot: UniformSlot::ElementPositions, values: positions },
        GpuCommand::DrawArrays { mode: 5, first: 0, count: 4 },
    ];
    assert_eq!(plan, expected);
}

#[test]
fn frequency_reaches_no_call() {
    let manager = renderer(640.0, 480.0);
    let slow = manager.draw_frame(scalar(3.0), 4, scalar(2.0), scalar(1.0), scalar(0.0), scalar(0.5));
    let fast = manager.draw_frame(scalar(3.0), 4, scalar(2.0), scalar(99.0), scalar(0.0), scalar(0.5));
    assert_eq!(slow, fast);
}

#[test]
fn drawing_twice_gives_the_same_calls() {
    let manager = renderer(640.0, 480.0);
    let first = manager.draw_frame(scalar(3.0), 2, scalar(2.0), scalar(1.0), scalar(0.0), scalar(0.5));
    let second = manager.draw_frame(scalar(3.0), 2, scalar(2.0), scalar(1.0), scalar(0.0), scalar(0.5));
    assert_eq!(first, second);
}

#[test]
fn two_elements_are_the_fewest_that_are_drawn() {
    let manager = renderer(640.0, 480.0);
    let plan = manager.draw_frame(scalar(0.0), 2, scalar(1.0), scalar(1.0), scalar(0.0), scalar(0.5));
    assert_eq!(plan[5], GpuCommand::Uniform1ui { slot: UniformSlot::ElementCount, number: 2 });
    assert_eq!(plan[6], GpuCommand::Uniform1f { slot: UniformSlot::Wavelength, value: scalar(0.5) });
    assert_eq!(
        plan[7],
        GpuCommand::Uniform2fv {
            slot: UniformSlot::ElementPositions,
            values: scalars(&[0.1, 0.25, 0.1, 0.75]),
        }
    );
}

#[test]
fn resize_takes_effect_on_the_next_frame() {
    let mut manager = renderer(640.0, 480.0);
    let before = manager.draw_frame(scalar(3.0), 2, scalar(2.0), scalar(1.0), scalar(0.0), scalar(0.5));
    manager.resize(scalar(800.0), scalar(300.0));
    let after = manager.draw_frame(scalar(3.0), 2, scalar(2.0), scalar(1.0), scalar(0.0), scalar(0.5));
    assert_ne!(before, after);
    assert_eq!(
        after[4],
        GpuCommand::Uniform2f { slot: UniformSlot::Resolution, x: scalar(300.0), y: scalar(300.0) }
    );
    for i in [0usize, 1, 2, 3, 5, 6, 7, 8] {
        assert_eq!(before[i], after[i]);
    }
}

#[test]
fn app_draws_what_its_renderer_draws() {
    let expected = renderer(512.0, 512.0).draw_frame(
        scalar(1.0),
        5,
        scalar(2.0),
        scalar(3.0),
        scalar(0.5),
        scalar(0.8),
    );
    let app = App::new(renderer(512.0, 512.0));
    assert_eq!(
        app.draw(scalar(1.0), 5, scalar(2.0), scalar(3.0), scalar(0.5), scalar(0.8)),
        expected
    );
    assert_eq!(number(app.webgl_manager().canvas_width()), 512.0);
}

#[test]
fn no_frame_is_drawn_without_an_interval_or_with_no_spacing() {
    let manager = renderer(640.0, 480.0);
    let args = (scalar(1.0), scalar(2.0), scalar(3.0), scalar(0.5), scalar(0.8));
    assert_eq!(manager.try_draw_frame(args.0, 0, args.1, args.2, args.3, args.4), None);
    assert_eq!(manager.try_draw_frame(args.0, 1, args.1, args.2, args.3, args.4), None);
    assert_eq!(manager.try_draw_frame(args.0, 5, scalar(0.0), args.2, args.3, args.4), None);
    assert_eq!(manager.try_draw_frame(args.0, 5, scalar(-0.0), args.2, args.3, args.4), None);
    assert_eq!(
        manager.try_draw_frame(args.0, 2, args.1, args.2, args.3, args.4),
        Some(manager.draw_frame(args.0, 2, args.1, args.2, args.3, args.4))
    );
    assert_eq!(
        manager.try_draw_frame(args.0, 5, scalar(f32::NAN), args.2, args.3, args.4),
        Some(manager.draw_frame(args.0, 5, scalar(f32::NAN), args.2, args.3, args.4))
    );
}

#[test]
fn app_plans_no_frame_where_its_renderer_plans_none() {
    let app = App::new(renderer(512.0, 512.0));
    assert_eq!(app.try_draw(scalar(1.0), 1, scalar(2.0), scalar(3.0), scalar(0.5), scalar(0.8)), None);
    assert_eq!(
        app.try_draw(scalar(1.0), 5, scalar(2.0), scalar(3.0), scalar(0.5), scalar(0.8)),
        Some(app.draw(scalar(1.0), 5, scalar(2.0), scalar(3.0), scalar(0.5), scalar(0.8)))
    );
}
