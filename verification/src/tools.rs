//! Active tool mode, the type palette, and what a tool does to the world.
use vstd::prelude::*;

use crate::cell::Cell;
use crate::coord::WorldPos;
use crate::generator_period;
use crate::sim::Simulation;
use crate::world::spec_with_dirty;
use crate::types::{
    make_aggregator, make_generator, make_transformer, spec_make_aggregator, spec_make_generator,
    spec_make_transformer, Direction, ReduceMode,
};

verus! {

/// Player tool mode.
#[derive(Clone, Copy, Debug, PartialEq, Eq, Structural)]
pub enum ActiveTool {
    Place,
    Erase,
    Inspect,
}

impl Default for ActiveTool {
    fn default() -> (r: Self)
        ensures
            r == ActiveTool::Place,
    {
        ActiveTool::Place
    }
}

impl ActiveTool {
    pub fn label(self) -> (r: &'static str)
        ensures
            r@ == match self {
                ActiveTool::Place => "Place"@,
                ActiveTool::Erase => "Erase"@,
                ActiveTool::Inspect => "Inspect"@,
            },
    {
        match self {
            ActiveTool::Place => "Place",
            ActiveTool::Erase => "Erase",
            ActiveTool::Inspect => "Inspect",
        }
    }
}

/// Factory cell preset for a palette slot.
#[derive(Clone, Copy, Debug, PartialEq, Eq, Structural)]
pub enum PalettePreset {
    Generator { period: u32 },
    Transformer { direction: Direction },
    Aggregator { mode: ReduceMode },
}

impl PalettePreset {
    /// The cell a preset places: its type with state 0.
    pub open spec fn spec_to_cell(self) -> Cell {
        match self {
            PalettePreset::Generator { period } => spec_make_generator(period, 0),
            PalettePreset::Transformer { direction } => spec_make_transformer(direction, 0),
            PalettePreset::Aggregator { mode } => spec_make_aggregator(mode, 0),
        }
    }

    pub fn to_cell(self) -> (r: Cell)
        ensures
            r == self.spec_to_cell(),
            !r.spec_is_empty(),
    {
        match self {
            PalettePreset::Generator { period } => make_generator(period, 0),
            PalettePreset::Transformer { direction } => make_transformer(direction, 0),
            PalettePreset::Aggregator { mode } => make_aggregator(mode, 0),
        }
    }

    pub fn label(self) -> (r: &'static str)
        ensures
            r@ == match self {
                PalettePreset::Generator { .. } => "generator"@,
                PalettePreset::Transformer { .. } => "transformer"@,
                PalettePreset::Aggregator { .. } => "aggregator"@,
            },
    {
        match self {
            PalettePreset::Generator { .. } => "generator",
            PalettePreset::Transformer { .. } => "transformer",
            PalettePreset::Aggregator { .. } => "aggregator",
        }
    }
}

/// The nine presets of the default palette, slot by slot.
pub open spec fn default_palette() -> Seq<PalettePreset> {
    seq![
        PalettePreset::Generator { period: generator_period::STANDARD },
        PalettePreset::Generator { period: generator_period::FAST },
        PalettePreset::Generator { period: generator_period::SLOW },
        PalettePreset::Transformer { direction: Direction::PosX },
        PalettePreset::Transformer { direction: Direction::PosZ },
        PalettePreset::Aggregator { mode: ReduceMode::Sum },
        PalettePreset::Aggregator { mode: ReduceMode::Max },
        PalettePreset::Transformer { direction: Direction::NegY },
        PalettePreset::Transformer { direction: Direction::PosY },
    ]
}

/// Tool and palette state for factory building.
#[derive(Clone, Copy, Debug)]
pub struct ToolState {
    pub active: ActiveTool,
    pub palette: [PalettePreset; 9],
    pub selected_slot: usize,
}

impl Default for ToolState {
    fn default() -> (r: Self)
        ensures
            r.active == ActiveTool::Place,
            r.palette@ == default_palette(),
            r.selected_slot == 0,
    {
        let r = ToolState {
            active: ActiveTool::Place,
            palette: [
                PalettePreset::Generator { period: generator_period::STANDARD },
                PalettePreset::Generator { period: generator_period::FAST },
                PalettePreset::Generator { period: generator_period::SLOW },
                PalettePreset::Transformer { direction: Direction::PosX },
                PalettePreset::Transformer { direction: Direction::PosZ },
                PalettePreset::Aggregator { mode: ReduceMode::Sum },
                PalettePreset::Aggregator { mode: ReduceMode::Max },
                PalettePreset::Transformer { direction: Direction::NegY },
                PalettePreset::Transformer { direction: Direction::PosY },
            ],
            selected_slot: 0,
        };
        assert(r.palette@ =~= default_palette());
        r
    }
}

/// Tool keys pressed this frame: the tool hotkeys, the held modifiers, and
/// the palette slot of the first digit key pressed (digit 1 is slot 0).
#[derive(Clone, Copy, Debug, PartialEq, Eq, Structural)]
pub struct ToolKeys {
    pub erase: bool,
    pub place: bool,
    pub inspect: bool,
    pub shift: bool,
    pub ctrl: bool,
    pub digit_slot: Option<usize>,
}

impl ToolState {
    /// The tool the hotkeys select (the later of erase, place, inspect
    /// wins), or `current` when none is pressed.
    pub open spec fn spec_hotkey_tool(current: ActiveTool, keys: ToolKeys) -> ActiveTool {
        if keys.inspect {
            ActiveTool::Inspect
        } else if keys.place {
            ActiveTool::Place
        } else if keys.erase {
            ActiveTool::Erase
        } else {
            current
        }
    }

    pub fn selected_preset(&self) -> (r: PalettePreset)
        requires
            self.selected_slot < 9,
        ensures
            r == self.palette@[self.selected_slot as int],
    {
        self.palette[self.selected_slot]
    }

    /// Apply this frame's tool keys: hotkeys switch the tool; shift (without
    /// ctrl) with a digit selects that palette slot and the place tool.
    pub fn apply_keys(&mut self, keys: ToolKeys)
        ensures
            final(self).palette == old(self).palette,
            (keys.shift && !keys.ctrl && keys.digit_slot is Some) ==> {
                &&& final(self).selected_slot == keys.digit_slot->0
                &&& final(self).active == ActiveTool::Place
            },
            !(keys.shift && !keys.ctrl && keys.digit_slot is Some) ==> {
                &&& final(self).selected_slot == old(self).selected_slot
                &&& final(self).active == Self::spec_hotkey_tool(old(self).active, keys)
            },
    {
        if keys.erase {
            self.active = ActiveTool::Erase;
        }
        if keys.place {
            self.active = ActiveTool::Place;
        }
        if keys.inspect {
            self.active = ActiveTool::Inspect;
        }
        if keys.shift && !keys.ctrl {
            if let Some(slot) = keys.digit_slot {
                self.selected_slot = slot;
                self.active = ActiveTool::Place;
            }
        }
    }
}

pub fn direction_label(direction: Direction) -> (r: &'static str)
    ensures
        r@ == spec_direction_label(direction),
{
    match direction {
        Direction::PosX => "+X",
        Direction::NegX => "-X",
        Direction::PosY => "+Y",
        Direction::NegY => "-Y",
        Direction::PosZ => "+Z",
        Direction::NegZ => "-Z",
    }
}

pub open spec fn spec_direction_label(direction: Direction) -> Seq<char> {
    match direction {
        Direction::PosX => "+X"@,
        Direction::NegX => "-X"@,
        Direction::PosY => "+Y"@,
        Direction::NegY => "-Y"@,
        Direction::PosZ => "+Z"@,
        Direction::NegZ => "-Z"@,
    }
}

pub open spec fn spec_reduce_mode_label(mode: ReduceMode) -> Seq<char> {
    match mode {
        ReduceMode::Sum => "sum"@,
        ReduceMode::Max => "max"@,
    }
}

pub fn reduce_mode_label(mode: ReduceMode) -> (r: &'static str)
    ensures
        r@ == spec_reduce_mode_label(mode),
{
    match mode {
        ReduceMode::Sum => "sum",
        ReduceMode::Max => "max",
    }
}

/// What applying a tool to a cell did.
#[derive(Clone, Copy, Debug, PartialEq, Eq, Structural)]
pub enum ToolOutcome {
    /// Nothing changed (erasing an empty cell).
    Unchanged,
    /// The cell was cleared.
    Erased,
    /// The selected preset was written and the cell queued for evaluation.
    Placed,
    /// The cell was read, unchanged.
    Inspected(Cell),
}

/// A held (not newly pressed) button dragged onto the same cell it last
/// applied to: the application is skipped.
pub fn is_drag_repeat(pressed: bool, held: bool, last: Option<WorldPos>, pos: WorldPos) -> (r: bool)
    ensures
        r == (held && !pressed && last == Some(pos)),
{
    held && !pressed && match last {
        Some(p) => p == pos,
        None => false,
    }
}

/// Apply the active tool to the cell at `pos`: erase clears a non-empty
/// cell, place writes the selected preset and marks it dirty, inspect reads.
pub fn apply_tool(sim: &mut Simulation, tools: &ToolState, pos: WorldPos) -> (r: ToolOutcome)
    requires
        old(sim).wf(),
        tools.selected_slot < 9,
    ensures
        final(sim).wf(),
        final(sim).tick == old(sim).tick,
        final(sim).config == old(sim).config,
        match tools.active {
            ActiveTool::Erase => if old(sim).world.cell(pos).spec_is_empty() {
                r == ToolOutcome::Unchanged && *final(sim) == *old(sim)
            } else {
                &&& r == ToolOutcome::Erased
                &&& old(sim).world.chunks.cells_after_set(final(sim).world.chunks, pos, Cell::spec_empty())
                &&& final(sim).dirty == old(sim).dirty
            },
            ActiveTool::Place => {
                let placed = tools.palette@[tools.selected_slot as int].spec_to_cell();
                &&& r == ToolOutcome::Placed
                &&& pos.spec_in_bounds() ==> {
                    &&& final(sim).world.cell(pos) == spec_with_dirty(placed)
                    &&& forall|q: WorldPos| q != pos ==> #[trigger] final(sim).world.cell(q) == old(sim).world.cell(q)
                    &&& final(sim).queue() == if old(sim).queue().contains(pos) {
                        old(sim).queue()
                    } else {
                        old(sim).queue().push(pos)
                    }
                    &&& final(sim).pending_chunks() == old(sim).pending_chunks().insert(pos.spec_chunk_coord())
                }
                &&& !pos.spec_in_bounds() ==> old(sim).world.same_cells(final(sim).world) && final(sim).dirty == old(sim).dirty
            },
            ActiveTool::Inspect => r == ToolOutcome::Inspected(old(sim).world.cell(pos)) && *final(sim) == *old(sim),
        },
{
    match tools.active {
        ActiveTool::Erase => {
            if sim.world.get(pos).is_empty() {
                return ToolOutcome::Unchanged;
            }
            let _ = sim.world.set(pos, Cell::empty());
            ToolOutcome::Erased
        },
        ActiveTool::Place => {
            let cell = tools.selected_preset().to_cell();
            let _ = sim.world.set(pos, cell);
            sim.mark_dirty(pos);
            ToolOutcome::Placed
        },
        ActiveTool::Inspect => ToolOutcome::Inspected(sim.world.get(pos)),
    }
}

/// Depth-slice and zoom keys pressed this frame, and whether Ctrl is held.
#[derive(Clone, Copy, Debug, PartialEq, Eq, Structural)]
pub struct SliceKeys {
    pub bracket_left: bool,
    pub bracket_right: bool,
    pub page_down: bool,
    pub page_up: bool,
    pub minus: bool,
    pub equal: bool,
    pub ctrl: bool,
}

/// The depth-slice step the keys ask for: without Ctrl, `[`, PageDown or
/// `-` step one layer toward the camera (-1), else `]`, PageUp or `=` one
/// layer away (+1); with Ctrl the keys zoom instead.
pub open spec fn spec_slice_step(keys: SliceKeys) -> Option<i16> {
    if keys.ctrl {
        None
    } else if keys.bracket_left || keys.page_down || keys.minus {
        Some(-1i16)
    } else if keys.bracket_right || keys.page_up || keys.equal {
        Some(1i16)
    } else {
        None
    }
}

/// The zoom step the keys ask for: with Ctrl, `[` zooms out (-1) and `]`
/// zooms in (+1).
pub open spec fn spec_zoom_step(keys: SliceKeys) -> Option<i16> {
    if !keys.ctrl {
        None
    } else if keys.bracket_left {
        Some(-1i16)
    } else if keys.bracket_right {
        Some(1i16)
    } else {
        None
    }
}

pub fn slice_step(keys: SliceKeys) -> (r: Option<i16>)
    ensures
        r == spec_slice_step(keys),
{
    if keys.ctrl {
        None
    } else if keys.bracket_left || keys.page_down || keys.minus {
        Some(-1)
    } else if keys.bracket_right || keys.page_up || keys.equal {
        Some(1)
    } else {
        None
    }
}

pub fn zoom_step(keys: SliceKeys) -> (r: Option<i16>)
    ensures
        r == spec_zoom_step(keys),
{
    if !keys.ctrl {
        None
    } else if keys.bracket_left {
        Some(-1)
    } else if keys.bracket_right {
        Some(1)
    } else {
        None
    }
}

} // verus!
