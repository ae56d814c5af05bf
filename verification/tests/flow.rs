use lbm::barrier_shapes::blob::Blob;
use lbm::click_handler::ClickType;
use lbm::control::{plan_frame, BarrierPreset, ControlState, FluidPreset, RunAction};
use lbm::lattice::{equilibrium, Lattice, SummaryStat, SPEED_SCALE};
use lbm::resolution::{calculate_dimensions, Resolution};

fn w36_table() -> [i64; 9] {
    [1, 4, 1, 4, 16, 4, 1, 4, 1]
}

#[test]
fn equilibrium_distributions_sum_to_density() {
    for &(rho, ux, uy) in [(1000i64, 100i64, 0i64), (1000, 0, 0), (2500, -300, 150), (1, 1, -1)]
        .iter()
    {
        let e = equilibrium(rho, ux, uy);
        let sum: i64 = e.iter().sum();
        assert_eq!(sum, 72 * SPEED_SCALE * SPEED_SCALE * rho);
    }
}

#[test]
fn equilibrium_matches_the_d2q9_formula() {
    // density one, a rightward tenth drift: spot-check two directions
    let e = equilibrium(1000, 100, 0);
    // east: w = 4/36, inner = 2e6 + 6e5 + 9e4 - 3e4
    assert_eq!(e[5], 4 * 1000 * (2_000_000 + 600_000 + 90_000 - 30_000));
    // rest: w = 16/36, no directional terms
    assert_eq!(e[4], 16 * 1000 * (2_000_000 - 30_000));
    // west mirrors east with the drift sign flipped
    assert_eq!(e[3], 4 * 1000 * (2_000_000 - 600_000 + 90_000 - 30_000));
}

#[test]
fn uniform_equilibrium_is_a_fixed_point_of_one_step() {
    let mut l = Lattice::new(8, 8, 1000, 800);
    l.custom_speed(0);
    let before = l.fa.clone();
    assert_eq!(l.compute_step, 0);
    l.compute_step();
    assert_eq!(l.compute_step, 1);
    // after one full collide-and-stream step every distribution is unchanged
    let expect: Vec<i64> = w36_table()
        .iter()
        .map(|w| 2 * SPEED_SCALE * SPEED_SCALE * SPEED_SCALE * w)
        .collect();
    for d in 0..9 {
        for c in 0..64 {
            assert_eq!(before[d][c], expect[d]);
            assert_eq!(l.fa[d][c], expect[d]);
            assert_eq!(l.fb[d][c], expect[d]);
        }
    }
}

#[test]
fn streaming_advances_a_value_downstream() {
    let mut l = Lattice::new(6, 6, 1000, 800);
    l.reset_barrier();
    for d in 0..9 {
        for c in 0..36 {
            l.fa[d][c] = 0;
            l.fb[d][c] = 0;
        }
    }
    for c in 0..36 {
        l.barrier[c] = false;
    }
    // an eastward packet in the middle of an open lattice moves one cell east
    let src = 2 + 2 * 6;
    l.fa[5][src] = 42;
    l.stream();
    assert_eq!(l.fb[5][src + 1], 42);
    assert_eq!(l.fb[3][src], 0);
}

#[test]
fn streaming_into_a_barrier_bounces_back() {
    let mut l = Lattice::new(6, 6, 1000, 800);
    for d in 0..9 {
        for c in 0..36 {
            l.fa[d][c] = 0;
            l.fb[d][c] = 0;
        }
    }
    for c in 0..36 {
        l.barrier[c] = false;
    }
    let src = 2 + 2 * 6;
    l.barrier[src + 1] = true;
    l.fa[5][src] = 42;
    l.stream();
    // the eastward value lands in the westward slot of its own cell
    assert_eq!(l.fb[3][src], 42);
    // and nothing crossed into the solid cell
    assert_eq!(l.fb[5][src + 1], 0);
}

#[test]
fn bottom_wall_bounces_southward_flow() {
    let mut l = Lattice::new(6, 6, 1000, 800);
    for d in 0..9 {
        for c in 0..36 {
            l.fa[d][c] = 0;
            l.fb[d][c] = 0;
        }
    }
    // keep the default walls: row zero and the top row are solid
    let src = 3 + 1 * 6;
    l.fa[7][src] = 9; // southward, into the bottom wall
    l.stream();
    assert_eq!(l.fb[1][src], 9); // reflected into the northward slot
}

#[test]
fn single_cell_preset_spikes_one_slot() {
    let mut l = Lattice::new(8, 8, 1000, 800);
    l.single_cell(5);
    let idx = 4 + 4 * 8; // (x/2, y/2)
    assert_eq!(l.fa[5][idx], 288_000_000_000);
    assert_eq!(l.fb[5][idx], 288_000_000_000);
    let eq = equilibrium(1000, 0, 0);
    assert_eq!(l.fa[5][idx + 1], eq[5]);
    assert_eq!(l.compute_step, 0);
}

#[test]
fn iterate_counts_steps_and_frames() {
    let mut l = Lattice::new(8, 8, 1000, 800);
    l.custom_speed(100);
    let out = l.iterate(3);
    assert_eq!(l.compute_step, 3);
    assert_eq!(l.frame_number, 1);
    assert_eq!(out.len(), 64);
}

#[test]
fn density_summary_reads_the_moment_buffer() {
    let mut l = Lattice::new(8, 8, 1000, 800);
    l.custom_speed(0);
    l.set_summary(SummaryStat::Rho);
    let out = l.calculate_summary();
    for c in 0..64 {
        // the uniform density one, at the distribution scale
        assert_eq!(out[c], 72 * SPEED_SCALE * SPEED_SCALE * SPEED_SCALE);
    }
}

#[test]
fn velocity_summary_recovers_the_drift() {
    let mut l = Lattice::new(8, 8, 1000, 800);
    l.custom_speed(100);
    l.set_summary(SummaryStat::Ux);
    let out = l.calculate_summary();
    for c in 0..64 {
        assert_eq!(out[c], 100);
    }
    l.set_summary(SummaryStat::Uy);
    let out = l.calculate_summary();
    for c in 0..64 {
        assert_eq!(out[c], 0);
    }
}

#[test]
fn barrier_presets_only_touch_the_mask() {
    let mut l = Lattice::new(100, 50, 1000, 800);
    let step_before = l.compute_step;
    l.welcome_barrier();
    l.curl_barrier();
    l.chaos_barrier();
    assert_eq!(l.barrier.len(), 5000);
    assert_eq!(l.compute_step, step_before);
    // the presets drew solid cells somewhere inside the channel
    assert!((100..4900).any(|c| l.barrier[c]));
    l.reset_barrier();
    for c in 100..4900 {
        assert!(!l.barrier[c]);
    }
    for c in 0..100 {
        assert!(l.barrier[c]);
        assert!(l.barrier[4900 + c]);
    }
}

#[test]
fn drawing_a_blob_writes_the_mask() {
    let mut l = Lattice::new(10, 10, 1000, 800);
    let mut b = Blob::new_empty();
    b.add(&vec![(3, 4, true), (6, 6, true)], 10, 10);
    l.draw_shape(&b);
    assert!(l.barrier[3 + 4 * 10]);
    assert!(l.barrier[6 + 6 * 10]);
    b.add(&vec![(3, 4, false)], 10, 10);
    l.draw_shape(&b);
    assert!(!l.barrier[3 + 4 * 10]);
}

#[test]
fn hd_preset_on_a_full_hd_viewport() {
    let (x, y) = calculate_dimensions(Resolution::HD, 1920, 1080);
    assert_eq!((x, y), (1280, 720));
    assert!(x as u64 * y as u64 <= 921600);
}

#[test]
fn dimension_product_stays_within_every_budget() {
    for &res in [Resolution::TEST, Resolution::NHD, Resolution::HD, Resolution::FHD,
        Resolution::UHD]
        .iter()
    {
        for &(w, h) in [(1920u32, 1080u32), (1013, 771), (640, 480), (3840, 2160), (333, 1000)]
            .iter()
        {
            let (x, y) = calculate_dimensions(res, w, h);
            assert!(x as u64 * y as u64 <= res.pixel_budget() as u64);
        }
    }
}

#[test]
fn frame_plan_runs_the_simulation_by_default() {
    let mut s = ControlState::new();
    s.output_changed = false;
    s.click_type_changed = false;
    let plan = plan_frame(&mut s, false);
    assert_eq!(plan.run, RunAction::Iterate(15));
    assert_eq!(plan.barrier_preset, None);
    assert_eq!(plan.undo_steps, 0);
    assert!(!plan.draw_pending);
}

#[test]
fn frame_plan_services_flags_in_priority_order() {
    let mut s = ControlState::new();
    s.pause = true;
    s.output_changed = false;
    s.change_barrier_preset(BarrierPreset::Chaos);
    s.undo();
    s.undo();
    s.change_fluid_preset(FluidPreset::Equilibrium);
    let plan = plan_frame(&mut s, true);
    // the barrier preset wins: pending strokes and undo requests are dropped
    assert_eq!(plan.barrier_preset, Some(BarrierPreset::Chaos));
    assert_eq!(plan.undo_steps, 0);
    assert!(!plan.draw_pending);
    assert_eq!(plan.fluid_preset, Some(FluidPreset::Equilibrium));
    assert_eq!(plan.run, RunAction::Rerender);
    // every pending flag was drained
    assert!(!s.barrier_preset_change && !s.undo_changed && !s.fluid_preset_change);
    assert_eq!(s.undo_count, 0);
}

#[test]
fn frame_plan_undo_discards_pending_stroke() {
    let mut s = ControlState::new();
    s.pause = true;
    s.output_changed = false;
    s.undo();
    let plan = plan_frame(&mut s, true);
    assert_eq!(plan.undo_steps, 1);
    assert!(!plan.draw_pending);
    assert_eq!(plan.run, RunAction::Rerender);
}

#[test]
fn frame_plan_single_step_consumes_the_request() {
    let mut s = ControlState::new();
    s.output_changed = false;
    s.set_step_mode();
    s.take_step();
    let plan = plan_frame(&mut s, false);
    assert_eq!(plan.run, RunAction::StepOne);
    assert!(!s.step_taken);
    let plan = plan_frame(&mut s, false);
    assert_eq!(plan.run, RunAction::Nothing);
}

#[test]
fn control_setters_raise_their_flags() {
    let mut s = ControlState::new();
    s.set_draw_type(ClickType::Erase);
    assert_eq!(s.click_type, ClickType::Erase);
    assert!(s.click_type_changed);
    s.update_viscosity(250);
    assert_eq!(s.viscosity_milli, 250);
    assert!(s.viscosity_changed);
    s.update_flow_speed(40);
    assert_eq!(s.fluid_preset, FluidPreset::CustomSpeed);
    assert_eq!(s.fluid_speed_milli, 40);
    s.toggle_pause();
    assert!(s.pause);
    s.toggle_pause();
    assert!(!s.pause);
}
