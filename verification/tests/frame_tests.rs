use innards::frame::count_as_uniform;
use innards::frame::plan_frame;
use innards::frame::GpuCommand;
use innards::scalar::Scalar;
use innards::uniforms::UniformSlot;

fn scalar(x: f32) -> Scalar {
    Scalar::from_bits(x.to_bits())
}

fn scalars(values: &[f32]) -> Vec<Scalar> {
    values.iter().map(|x| scalar(*x)).collect()
}

fn example_plan() -> Vec<GpuCommand> {
    plan_frame(
        scalar(640.0),
        scalar(480.0),
        4,
        scalar(1.5),
        scalar(0.25),
        scalar(0.1),
        &scalars(&[0.1, 0.3, 0.5, 0.7, 0.9]),
    )
}

#[test]
fn frame_is_the_sequence_of_nine_calls() {
    let expected = vec![
        GpuCommand::ClearColor {
            red: scalar(0.0),
            green: scalar(0.0),
            blue: scalar(0.0),
            alpha: scalar(1.0),
        },
        GpuCommand::Clear { mask: 16384 },
        GpuCommand::Uniform1f { slot: UniformSlot::Time, value: scalar(1.5) },
        GpuCommand::Uniform1f { slot: UniformSlot::Phase, value: scalar(0.25) },
        GpuCommand::Uniform2f { slot: UniformSlot::Resolution, x: scalar(640.0), y: scalar(480.0) },
        GpuCommand::Uniform1ui { slot: UniformSlot::ElementCount, number: 5 },
        GpuCommand::Uniform1f { slot: UniformSlot::Wavelength, value: scalar(0.1) },
        GpuCommand::Uniform2fv {
            slot: UniformSlot::ElementPositions,
            values: scalars(&[0.1, 0.1, 0.1, 0.3, 0.1, 0.5, 0.1, 0.7, 0.1, 0.9]),
        },
        GpuCommand::DrawArrays { mode: 5, first: 0, count: 4 },
    ];
    assert_eq!(example_plan(), expected);
}

#[test]
fn same_arguments_give_the_same_frame() {
    assert_eq!(example_plan(), example_plan());
}

#[test]
fn frame_clears_before_it_writes_and_draws_last() {
    let plan = example_plan();
    assert_eq!(plan.len(), 9);
    assert!(matches!(plan[0], GpuCommand::ClearColor { .. }));
    assert!(matches!(plan[1], GpuCommand::Clear { .. }));
    for command in &plan[2..8] {
        assert!(matches!(
            command,
            GpuCommand::Uniform1f { .. }
                | GpuCommand::Uniform2f { .. }
                | GpuCommand::Uniform1ui { .. }
                | GpuCommand::Uniform2fv { .. }
        ));
    }
    assert!(matches!(plan[8], GpuCommand::DrawArrays { .. }));
}

#[test]
fn frame_carries_the_wavelength_of_five_elements() {
    let element_count: usize = 5;
    let zoom: f32 = 0.8;
    let spacing: f32 = 2.0;
    let wavelength = zoom / (element_count as f32 - 1.0) / spacing;
    let heights: Vec<Scalar> = (0..element_count)
        .map(|i| scalar((1.0 - zoom) / 2.0 + (i as f32) * zoom / (element_count as f32 - 1.0)))
        .collect();
    let plan = plan_frame(
        scalar(300.0),
        scalar(300.0),
        4,
        scalar(0.0),
        scalar(0.0),
        scalar(wavelength),
        &heights,
    );
    assert_eq!(plan[6], GpuCommand::Uniform1f { slot: UniformSlot::Wavelength, value: scalar(0.1) });
}

#[test]
fn two_elements_are_the_fewest() {
    let plan = plan_frame(
        scalar(1.0),
        scalar(1.0),
        4,
        scalar(0.0),
        scalar(0.0),
        scalar(0.5),
        &scalars(&[0.0, 1.0]),
    );
    assert_eq!(plan[5], GpuCommand::Uniform1ui { slot: UniformSlot::ElementCount, number: 2 });
    assert_eq!(
        plan[7],
        GpuCommand::Uniform2fv {
            slot: UniformSlot::ElementPositions,
            values: scalars(&[0.1, 0.0, 0.1, 1.0]),
        }
    );
}

#[test]
fn frame_passes_numbers_through_bit_for_bit() {
    let nan = Scalar::from_bits(0x7FC0_1234);
    let plan = plan_frame(nan, scalar(-0.0), 4, nan, scalar(f32::INFINITY), nan, &vec![nan, nan]);
    assert_eq!(plan[2], GpuCommand::Uniform1f { slot: UniformSlot::Time, value: nan });
    assert_eq!(
        plan[3],
        GpuCommand::Uniform1f { slot: UniformSlot::Phase, value: scalar(f32::INFINITY) }
    );
    assert_eq!(
        plan[4],
        GpuCommand::Uniform2f { slot: UniformSlot::Resolution, x: nan, y: scalar(-0.0) }
    );
}

#[test]
fn count_is_written_as_an_unsigned_number() {
    assert_eq!(count_as_uniform(0), 0);
    assert_eq!(count_as_uniform(2), 2);
    assert_eq!(count_as_uniform(5), 5);
    assert_eq!(count_as_uniform(u32::MAX as usize), u32::MAX);
    assert_eq!(count_as_uniform(usize::MAX), usize::MAX as u32);
    assert_eq!(count_as_uniform(123_456_789), 123_456_789usize as u32);
}
