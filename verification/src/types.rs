//! Cell type identifiers, encoding helpers, and factory defaults.
use vstd::prelude::*;

use crate::cell::{Cell, TYPE_EMPTY};
use crate::coord::{spec_phase, WorldPos};

verus! {

/// Periodic output on phased ticks.
pub const TYPE_GENERATOR: u8 = 1;

/// Copies an input neighbor state when dirty.
pub const TYPE_TRANSFORMER: u8 = 2;

/// Reduces neighbor states when dirty.
pub const TYPE_AGGREGATOR: u8 = 3;

/// Aggregator reduce modes stored in the low byte of `Cell::reserved`
/// (`Sum` = 0, `Max` = 1).
#[derive(Clone, Copy, Debug, PartialEq, Eq, Structural)]
pub enum ReduceMode {
    Sum,
    Max,
}

impl ReduceMode {
    pub open spec fn spec_from_u8(value: u8) -> ReduceMode {
        if value == 1 {
            ReduceMode::Max
        } else {
            ReduceMode::Sum
        }
    }

    pub open spec fn spec_to_u8(self) -> u8 {
        match self {
            ReduceMode::Sum => 0,
            ReduceMode::Max => 1,
        }
    }

    pub fn from_u8(value: u8) -> (r: Self)
        ensures
            r == Self::spec_from_u8(value),
    {
        match value {
            1 => ReduceMode::Max,
            _ => ReduceMode::Sum,
        }
    }

    /// The stored byte of this mode.
    pub fn to_u8(self) -> (r: u8)
        ensures
            r == self.spec_to_u8(),
    {
        match self {
            ReduceMode::Sum => 0,
            ReduceMode::Max => 1,
        }
    }
}

/// Axis direction for transformer input (face neighbor index:
/// `PosX` = 0, `NegX` = 1, `PosY` = 2, `NegY` = 3, `PosZ` = 4, `NegZ` = 5).
#[derive(Clone, Copy, Debug, PartialEq, Eq, Structural)]
pub enum Direction {
    PosX,
    NegX,
    PosY,
    NegY,
    PosZ,
    NegZ,
}

impl Direction {
    pub open spec fn spec_from_u8(value: u8) -> Direction {
        let v = value % 6;
        if v == 1 {
            Direction::NegX
        } else if v == 2 {
            Direction::PosY
        } else if v == 3 {
            Direction::NegY
        } else if v == 4 {
            Direction::PosZ
        } else if v == 5 {
            Direction::NegZ
        } else {
            Direction::PosX
        }
    }

    pub open spec fn spec_to_u8(self) -> u8 {
        match self {
            Direction::PosX => 0,
            Direction::NegX => 1,
            Direction::PosY => 2,
            Direction::NegY => 3,
            Direction::PosZ => 4,
            Direction::NegZ => 5,
        }
    }

    pub fn from_u8(value: u8) -> (r: Self)
        ensures
            r == Self::spec_from_u8(value),
    {
        match value % 6 {
            1 => Direction::NegX,
            2 => Direction::PosY,
            3 => Direction::NegY,
            4 => Direction::PosZ,
            5 => Direction::NegZ,
            _ => Direction::PosX,
        }
    }

    /// The stored byte of this direction.
    pub fn to_u8(self) -> (r: u8)
        ensures
            r == self.spec_to_u8(),
    {
        match self {
            Direction::PosX => 0,
            Direction::NegX => 1,
            Direction::PosY => 2,
            Direction::NegY => 3,
            Direction::PosZ => 4,
            Direction::NegZ => 5,
        }
    }
}

/// Static catalog metadata for one cell type.
#[derive(Clone, Copy, Debug, PartialEq, Eq)]
pub struct CellTypeInfo {
    pub id: u8,
    pub name: &'static str,
    pub is_event_driven: bool,
    pub is_phase_driven: bool,
}

/// Registry of built-in cell types.
#[derive(Clone, Copy, Debug, Default)]
pub struct CellTypeRegistry;

impl CellTypeRegistry {
    /// Catalog entry for `type_id`, if it names one of the four v1 types.
    pub open spec fn spec_get(type_id: u8) -> Option<CellTypeInfo> {
        if type_id == TYPE_EMPTY {
            Some(CellTypeInfo { id: TYPE_EMPTY, name: "empty", is_event_driven: false, is_phase_driven: false })
        } else if type_id == TYPE_GENERATOR {
            Some(CellTypeInfo { id: TYPE_GENERATOR, name: "generator", is_event_driven: false, is_phase_driven: true })
        } else if type_id == TYPE_TRANSFORMER {
            Some(CellTypeInfo { id: TYPE_TRANSFORMER, name: "transformer", is_event_driven: true, is_phase_driven: false })
        } else if type_id == TYPE_AGGREGATOR {
            Some(CellTypeInfo { id: TYPE_AGGREGATOR, name: "aggregator", is_event_driven: true, is_phase_driven: false })
        } else {
            None
        }
    }

    pub open spec fn spec_listens_to_neighbors(type_id: u8) -> bool {
        type_id == TYPE_TRANSFORMER || type_id == TYPE_AGGREGATOR
    }

    /// The four built-in types in id order.
    pub fn all() -> (r: Vec<CellTypeInfo>)
        ensures
            r@.len() == 4,
            forall|i: int| 0 <= i < 4 ==> Self::spec_get(i as u8) == Some(#[trigger] r@[i]),
    {
        let mut v: Vec<CellTypeInfo> = Vec::new();
        let mut id: u8 = 0;
        while id < 4
            invariant
                id <= 4,
                v@.len() == id,
                forall|i: int| 0 <= i < id ==> Self::spec_get(i as u8) == Some(#[trigger] v@[i]),
            decreases 4 - id,
        {
            match Self::get(id) {
                Some(info) => v.push(info),
                None => {},
            }
            id = id + 1;
        }
        v
    }

    pub fn get(type_id: u8) -> (r: Option<CellTypeInfo>)
        ensures
            r == Self::spec_get(type_id),
    {
        if type_id == TYPE_EMPTY {
            Some(CellTypeInfo { id: TYPE_EMPTY, name: "empty", is_event_driven: false, is_phase_driven: false })
        } else if type_id == TYPE_GENERATOR {
            Some(CellTypeInfo { id: TYPE_GENERATOR, name: "generator", is_event_driven: false, is_phase_driven: true })
        } else if type_id == TYPE_TRANSFORMER {
            Some(CellTypeInfo { id: TYPE_TRANSFORMER, name: "transformer", is_event_driven: true, is_phase_driven: false })
        } else if type_id == TYPE_AGGREGATOR {
            Some(CellTypeInfo { id: TYPE_AGGREGATOR, name: "aggregator", is_event_driven: true, is_phase_driven: false })
        } else {
            None
        }
    }

    pub fn listens_to_neighbors(type_id: u8) -> (r: bool)
        ensures
            r == Self::spec_listens_to_neighbors(type_id),
    {
        type_id == TYPE_TRANSFORMER || type_id == TYPE_AGGREGATOR
    }
}

/// A type listens to its neighbors exactly when it is a registered,
/// event-driven type; registered types carry their own id.
pub proof fn lemma_listeners_are_event_driven(type_id: u8)
    ensures
        CellTypeRegistry::spec_listens_to_neighbors(type_id) <==> (match CellTypeRegistry::spec_get(type_id) {
            Some(info) => info.is_event_driven,
            None => false,
        }),
        CellTypeRegistry::spec_get(type_id) is Some <==> type_id <= TYPE_AGGREGATOR,
        CellTypeRegistry::spec_get(type_id) matches Some(info) ==> info.id == type_id,
{
}

pub open spec fn spec_make_generator(period_ticks: u32, output: u16) -> Cell {
    Cell { type_id: TYPE_GENERATOR, flags: 0, state: output, reserved: period_ticks }
}

pub open spec fn spec_make_transformer(direction: Direction, initial_state: u16) -> Cell {
    Cell { type_id: TYPE_TRANSFORMER, flags: 0, state: initial_state, reserved: direction.spec_to_u8() as u32 }
}

pub open spec fn spec_make_aggregator(mode: ReduceMode, initial_state: u16) -> Cell {
    Cell { type_id: TYPE_AGGREGATOR, flags: 0, state: initial_state, reserved: mode.spec_to_u8() as u32 }
}

/// Generator period: the stored period, at least one tick.
pub open spec fn spec_generator_period(cell: Cell) -> u32 {
    if cell.reserved >= 1 {
        cell.reserved
    } else {
        1
    }
}

/// Transformer input direction from the low byte of `reserved`.
pub open spec fn spec_transformer_direction(cell: Cell) -> Direction {
    Direction::spec_from_u8((cell.reserved % 256) as u8)
}

/// Aggregator mode from the low byte of `reserved`.
pub open spec fn spec_aggregator_mode(cell: Cell) -> ReduceMode {
    ReduceMode::spec_from_u8((cell.reserved % 256) as u8)
}

/// A generator at phase `ph` fires on `tick` when `(tick + ph)` is a
/// multiple of its period (a period of 0 counts as 1).
pub open spec fn spec_should_fire(tick: int, ph: int, period_ticks: int) -> bool {
    let period = if period_ticks >= 1 { period_ticks } else { 1 };
    (tick + ph) % period == 0
}

pub fn make_generator(period_ticks: u32, output: u16) -> (r: Cell)
    ensures
        r == spec_make_generator(period_ticks, output),
{
    Cell { type_id: TYPE_GENERATOR, flags: 0, state: output, reserved: period_ticks }
}

pub fn make_transformer(direction: Direction, initial_state: u16) -> (r: Cell)
    ensures
        r == spec_make_transformer(direction, initial_state),
{
    Cell { type_id: TYPE_TRANSFORMER, flags: 0, state: initial_state, reserved: direction.to_u8() as u32 }
}

pub fn make_aggregator(mode: ReduceMode, initial_state: u16) -> (r: Cell)
    ensures
        r == spec_make_aggregator(mode, initial_state),
{
    Cell { type_id: TYPE_AGGREGATOR, flags: 0, state: initial_state, reserved: mode.to_u8() as u32 }
}

pub fn generator_period(cell: Cell) -> (r: u32)
    ensures
        r == spec_generator_period(cell),
{
    if cell.reserved >= 1 {
        cell.reserved
    } else {
        1
    }
}

pub fn transformer_direction(cell: Cell) -> (r: Direction)
    ensures
        r == spec_transformer_direction(cell),
{
    Direction::from_u8((cell.reserved % 256) as u8)
}

pub fn aggregator_mode(cell: Cell) -> (r: ReduceMode)
    ensures
        r == spec_aggregator_mode(cell),
{
    ReduceMode::from_u8((cell.reserved % 256) as u8)
}

/// Returns true when a generator at `pos` should fire on simulation tick `tick`.
pub fn generator_should_fire(tick: u64, pos: WorldPos, period_ticks: u32) -> (r: bool)
    ensures
        r == spec_should_fire(tick as int, pos.spec_phase(), period_ticks as int),
{
    let period: u128 = if period_ticks >= 1 { period_ticks as u128 } else { 1 };
    let ph = pos.phase() as u128;
    (tick as u128 + ph) % period == 0
}

/// The encodings round-trip: a made cell reports the direction, mode and
/// period it was made with (a zero period reads as one tick).
pub proof fn lemma_factory_round_trip(d: Direction, m: ReduceMode, period: u32, s: u16)
    ensures
        spec_transformer_direction(spec_make_transformer(d, s)) == d,
        spec_aggregator_mode(spec_make_aggregator(m, s)) == m,
        spec_generator_period(spec_make_generator(period, s)) == (if period >= 1 { period } else { 1 }),
        !spec_make_generator(period, s).spec_is_empty(),
        !spec_make_transformer(d, s).spec_is_empty(),
        !spec_make_aggregator(m, s).spec_is_empty(),
{
}

/// Within any window of `period` consecutive ticks a generator fires on
/// exactly one tick.
pub proof fn lemma_fires_once_per_period(t0: int, ph: int, period: int, t: int)
    requires
        period >= 1,
        t0 <= t < t0 + period,
    ensures
        spec_should_fire(t, ph, period) <==> t == t0 + (period - (t0 + ph) % period) % period,
{
    let r = (t0 + ph) % period;
    let first = t0 + (period - r) % period;
    assert(0 <= r < period);
    if r == 0 {
        assert((period - r) % period == 0) by {
            vstd::arithmetic::div_mod::lemma_mod_self_0(period);
        }
    } else {
        assert((period - r) % period == period - r) by {
            vstd::arithmetic::div_mod::lemma_small_mod((period - r) as nat, period as nat);
        }
    }
    // (t + ph) - (t0 + ph) = t - t0 and 0 <= t - t0 < period
    vstd::arithmetic::div_mod::lemma_fundamental_div_mod(t0 + ph, period);
    vstd::arithmetic::div_mod::lemma_fundamental_div_mod(t + ph, period);
    let q0 = (t0 + ph) / period;
    let q = (t + ph) / period;
    let rt = (t + ph) % period;
    assert(t + ph == period * q + rt);
    assert(t0 + ph == period * q0 + r);
    assert(0 <= rt < period);
    // t - t0 = period * (q - q0) + (rt - r), with 0 <= t - t0 < period
    assert(period * (q - q0) == (t - t0) - (rt - r)) by (nonlinear_arith)
        requires
            t + ph == period * q + rt,
            t0 + ph == period * q0 + r,
    ;
    assert(-period < (t - t0) - (rt - r) < 2 * period);
    assert(q - q0 == 0 || q - q0 == 1) by (nonlinear_arith)
        requires
            -period < period * (q - q0) < 2 * period,
            period >= 1,
    ;
    if q - q0 == 0 {
        assert(t - t0 == rt - r);
    } else {
        assert(t - t0 == period + rt - r) by (nonlinear_arith)
            requires
                period * (q - q0) == (t - t0) - (rt - r),
                q - q0 == 1,
        ;
    }
}

/// With a period of at least `PHASE_COUNT` ticks, generators of different
/// phases never fire on the same tick.
pub proof fn lemma_stagger_separates_phases(tick: int, ph1: int, ph2: int, period: int)
    requires
        period >= 8,
        0 <= ph1 < 8,
        0 <= ph2 < 8,
        spec_should_fire(tick, ph1, period),
        spec_should_fire(tick, ph2, period),
    ensures
        ph1 == ph2,
{
    vstd::arithmetic::div_mod::lemma_fundamental_div_mod(tick + ph1, period);
    vstd::arithmetic::div_mod::lemma_fundamental_div_mod(tick + ph2, period);
    let q1 = (tick + ph1) / period;
    let q2 = (tick + ph2) / period;
    assert(ph1 - ph2 == period * (q1 - q2)) by (nonlinear_arith)
        requires
            tick + ph1 == period * q1,
            tick + ph2 == period * q2,
    ;
    assert(q1 - q2 == 0) by (nonlinear_arith)
        requires
            ph1 - ph2 == period * (q1 - q2),
            -8 < ph1 - ph2 < 8,
            period >= 8,
    ;
}

} // verus!
