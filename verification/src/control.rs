//! The shared control surface between the input path and the render path:
//! one field per flag, setters the UI bindings call, and the per-frame
//! planner that services every pending flag exactly once, in fixed priority
//! order.

use vstd::prelude::*;

use crate::click_handler::ClickType;
use crate::lattice::{ColorMap, SummaryStat};

verus! {

/// A fluid-state preset the lattice can be reset to.
#[derive(PartialEq, Eq, Structural, Clone, Copy, Debug)]
pub enum FluidPreset {
    Equilibrium,
    CustomSpeed,
    SingleNorth,
    SingleOrigin,
    SingleEast,
    SingleNorthEast,
}

/// A barrier-layout preset.
#[derive(PartialEq, Eq, Structural, Clone, Copy, Debug)]
pub enum BarrierPreset {
    Welcome,
    Tunnel,
    Curl,
    Chaos,
}

/// The externally mutable control flags; each is serviced once per frame.
/// Viscosity and flow speed are carried in thousandths.
pub struct ControlState {
    pub current_output: SummaryStat,
    pub output_changed: bool,
    pub pause: bool,
    pub compute_per_render: u32,
    pub viscosity_milli: u32,
    pub viscosity_changed: bool,
    pub current_color_map: ColorMap,
    pub color_changed: bool,
    pub click_type: ClickType,
    pub click_type_changed: bool,
    pub undo_changed: bool,
    pub undo_count: usize,
    pub step_mode: bool,
    pub step_taken: bool,
    pub fluid_preset_change: bool,
    pub fluid_preset: FluidPreset,
    pub fluid_speed_milli: u32,
    pub barrier_preset_change: bool,
    pub barrier_preset: BarrierPreset,
}

impl ControlState {
    /// The state at startup: vorticity view, jet palette, fifteen compute
    /// steps per frame, a tenth viscosity and flow speed, nothing pending
    /// but the initial output and click-type refresh.
    pub fn new() -> (r: ControlState)
        ensures
            r.current_output == SummaryStat::Curl,
            r.output_changed == true,
            r.pause == false,
            r.compute_per_render == 15,
            r.viscosity_milli == 100,
            r.viscosity_changed == false,
            r.current_color_map == ColorMap::Jet,
            r.color_changed == false,
            r.click_type == ClickType::Inactive,
            r.click_type_changed == true,
            r.undo_changed == false,
            r.undo_count == 0,
            r.step_mode == false,
            r.step_taken == false,
            r.fluid_preset_change == false,
            r.fluid_preset == FluidPreset::Equilibrium,
            r.fluid_speed_milli == 100,
            r.barrier_preset_change == false,
            r.barrier_preset == BarrierPreset::Tunnel,
    {
        ControlState {
            current_output: SummaryStat::Curl,
            output_changed: true,
            pause: false,
            compute_per_render: 15,
            viscosity_milli: 100,
            viscosity_changed: false,
            current_color_map: ColorMap::Jet,
            color_changed: false,
            click_type: ClickType::Inactive,
            click_type_changed: true,
            undo_changed: false,
            undo_count: 0,
            step_mode: false,
            step_taken: false,
            fluid_preset_change: false,
            fluid_preset: FluidPreset::Equilibrium,
            fluid_speed_milli: 100,
            barrier_preset_change: false,
            barrier_preset: BarrierPreset::Tunnel,
        }
    }

    /// Select which summary field is rendered.
    pub fn set_output(&mut self, summary_stat: SummaryStat)
        ensures
            *final(self) == (ControlState {
                current_output: summary_stat,
                output_changed: true,
                ..*old(self)
            }),
    {
        self.current_output = summary_stat;
        self.output_changed = true;
    }

    /// Select what a pointer press does.
    pub fn set_draw_type(&mut self, draw_type: ClickType)
        ensures
            *final(self) == (ControlState {
                click_type: draw_type,
                click_type_changed: true,
                ..*old(self)
            }),
    {
        self.click_type = draw_type;
        self.click_type_changed = true;
    }

    /// Select the palette.
    pub fn set_color_map(&mut self, color_map: ColorMap)
        ensures
            *final(self) == (ControlState {
                current_color_map: color_map,
                color_changed: true,
                ..*old(self)
            }),
    {
        self.current_color_map = color_map;
        self.color_changed = true;
    }

    /// Toggle the pause flag.
    pub fn toggle_pause(&mut self)
        ensures
            *final(self) == (ControlState { pause: !old(self).pause, ..*old(self) }),
    {
        self.pause = !self.pause;
    }

    /// Set how many compute steps run per rendered frame.
    pub fn update_compute_rate(&mut self, rate: u32)
        ensures
            *final(self) == (ControlState { compute_per_render: rate, ..*old(self) }),
    {
        self.compute_per_render = rate;
    }

    /// Set the fluid viscosity, in thousandths.
    pub fn update_viscosity(&mut self, viscosity_milli: u32)
        ensures
            *final(self) == (ControlState {
                viscosity_milli,
                viscosity_changed: true,
                ..*old(self)
            }),
    {
        self.viscosity_milli = viscosity_milli;
        self.viscosity_changed = true;
    }

    /// Set a custom flow speed, in thousandths, and request the matching
    /// fluid preset.
    pub fn update_flow_speed(&mut self, speed_milli: u32)
        ensures
            *final(self) == (ControlState {
                fluid_preset_change: true,
                fluid_preset: FluidPreset::CustomSpeed,
                fluid_speed_milli: speed_milli,
                ..*old(self)
            }),
    {
        self.fluid_preset_change = true;
        self.fluid_preset = FluidPreset::CustomSpeed;
        self.fluid_speed_milli = speed_milli;
    }

    /// Request one more undo step.
    pub fn undo(&mut self)
        requires
            old(self).undo_count < usize::MAX,
        ensures
            *final(self) == (ControlState {
                undo_count: (old(self).undo_count + 1) as usize,
                undo_changed: true,
                ..*old(self)
            }),
    {
        self.undo_count = self.undo_count + 1;
        self.undo_changed = true;
    }

    /// Enter single-step mode.
    pub fn set_step_mode(&mut self)
        ensures
            *final(self) == (ControlState { step_mode: true, ..*old(self) }),
    {
        self.step_mode = true;
    }

    /// Leave single-step mode.
    pub fn release_step_mode(&mut self)
        ensures
            *final(self) == (ControlState { step_mode: false, ..*old(self) }),
    {
        self.step_mode = false;
    }

    /// Request one compute step while in single-step mode.
    pub fn take_step(&mut self)
        ensures
            *final(self) == (ControlState { step_taken: true, ..*old(self) }),
    {
        self.step_taken = true;
    }

    /// Request a fluid-state preset.
    pub fn change_fluid_preset(&mut self, f: FluidPreset)
        ensures
            *final(self) == (ControlState {
                fluid_preset_change: true,
                fluid_preset: f,
                ..*old(self)
            }),
    {
        self.fluid_preset_change = true;
        self.fluid_preset = f;
    }

    /// Request a barrier-layout preset.
    pub fn change_barrier_preset(&mut self, b: BarrierPreset)
        ensures
            *final(self) == (ControlState {
                barrier_preset_change: true,
                barrier_preset: b,
                ..*old(self)
            }),
    {
        self.barrier_preset_change = true;
        self.barrier_preset = b;
    }
}

/// How the simulation advances this frame.
#[derive(PartialEq, Eq, Structural, Clone, Copy, Debug)]
pub enum RunAction {
    Iterate(u32),
    StepOne,
    Rerender,
    Nothing,
}

/// Everything one frame has to do, in order: apply a barrier preset, undo,
/// apply a fluid preset, switch the output field, switch the palette, draw
/// the pending stroke, refresh the relaxation rate, then advance.
pub struct FrameActions {
    pub barrier_preset: Option<BarrierPreset>,
    pub undo_steps: usize,
    pub fluid_preset: Option<FluidPreset>,
    pub fluid_speed_milli: u32,
    pub output_stat: Option<SummaryStat>,
    pub color_map: Option<ColorMap>,
    pub draw_pending: bool,
    pub viscosity_milli: Option<u32>,
    pub run: RunAction,
}

/// Decide what this frame does from the pending flags, draining each flag
/// exactly once.  A barrier preset discards pending strokes and undo
/// requests; an undo discards pending strokes; the simulation advances
/// unless paused or single-stepping, and a frame that changed only what is
/// shown re-renders without advancing.
pub fn plan_frame(state: &mut ControlState, blob_pending: bool) -> (r: FrameActions)
    ensures
        r.barrier_preset == (if old(state).barrier_preset_change {
            Some(old(state).barrier_preset)
        } else {
            Option::<BarrierPreset>::None
        }),
        r.undo_steps == (if !old(state).barrier_preset_change && old(state).undo_changed {
            old(state).undo_count as int
        } else {
            0
        }),
        r.fluid_preset == (if old(state).fluid_preset_change {
            Some(old(state).fluid_preset)
        } else {
            Option::<FluidPreset>::None
        }),
        r.fluid_speed_milli == old(state).fluid_speed_milli,
        r.output_stat == (if old(state).output_changed {
            Some(old(state).current_output)
        } else {
            Option::<SummaryStat>::None
        }),
        r.color_map == (if old(state).color_changed {
            Some(old(state).current_color_map)
        } else {
            Option::<ColorMap>::None
        }),
        r.draw_pending == (blob_pending && !old(state).barrier_preset_change && !old(
            state,
        ).undo_changed),
        r.viscosity_milli == (if old(state).viscosity_changed {
            Some(old(state).viscosity_milli)
        } else {
            Option::<u32>::None
        }),
        r.run == (if !old(state).pause && !old(state).step_mode {
            RunAction::Iterate(old(state).compute_per_render)
        } else if old(state).step_mode && old(state).step_taken {
            RunAction::StepOne
        } else if old(state).output_changed || (blob_pending && !old(state).barrier_preset_change
            && !old(state).undo_changed) || old(state).color_changed || old(
            state,
        ).fluid_preset_change || old(state).undo_changed || old(state).barrier_preset_change {
            RunAction::Rerender
        } else {
            RunAction::Nothing
        }),
        *final(state) == (ControlState {
            output_changed: false,
            color_changed: false,
            fluid_preset_change: false,
            barrier_preset_change: false,
            undo_changed: false,
            undo_count: 0usize,
            viscosity_changed: false,
            step_taken: (if old(state).step_mode && old(state).step_taken {
                false
            } else {
                old(state).step_taken
            }),
            ..*old(state)
        }),
{
    let barrier_preset: Option<BarrierPreset> = if state.barrier_preset_change {
        Some(state.barrier_preset)
    } else {
        None
    };
    let undo_steps: usize = if !state.barrier_preset_change && state.undo_changed {
        state.undo_count
    } else {
        0
    };
    let draw_pending = blob_pending && !state.barrier_preset_change && !state.undo_changed;
    let fluid_preset: Option<FluidPreset> = if state.fluid_preset_change {
        Some(state.fluid_preset)
    } else {
        None
    };
    let output_stat: Option<SummaryStat> = if state.output_changed {
        Some(state.current_output)
    } else {
        None
    };
    let color_map: Option<ColorMap> = if state.color_changed {
        Some(state.current_color_map)
    } else {
        None
    };
    let viscosity_milli: Option<u32> = if state.viscosity_changed {
        Some(state.viscosity_milli)
    } else {
        None
    };
    let run: RunAction = if !state.pause && !state.step_mode {
        RunAction::Iterate(state.compute_per_render)
    } else if state.step_mode && state.step_taken {
        state.step_taken = false;
        RunAction::StepOne
    } else if state.output_changed || draw_pending || state.color_changed
        || state.fluid_preset_change || state.undo_changed || state.barrier_preset_change {
        RunAction::Rerender
    } else {
        RunAction::Nothing
    };
    state.output_changed = false;
    state.color_changed = false;
    state.fluid_preset_change = false;
    state.barrier_preset_change = false;
    state.undo_changed = false;
    state.undo_count = 0;
    state.viscosity_changed = false;
    FrameActions {
        barrier_preset,
        undo_steps,
        fluid_preset,
        fluid_speed_milli: state.fluid_speed_milli,
        output_stat,
        color_map,
        draw_pending,
        viscosity_milli,
        run,
    }
}

} // verus!
