//! Human-readable cell and HUD strings for the factory UI panels.
use vstd::prelude::*;

use crate::cell::Cell;
use crate::coord::WorldPos;
use crate::playback::SimTickStats;
use crate::tools::{direction_label, reduce_mode_label, spec_direction_label, spec_reduce_mode_label};
use crate::view::OrthoView;
use crate::types::{
    aggregator_mode, generator_period, spec_aggregator_mode, spec_generator_period,
    spec_transformer_direction, transformer_direction, CellTypeRegistry, TYPE_AGGREGATOR,
    TYPE_GENERATOR, TYPE_TRANSFORMER,
};

verus! {

/// The decimal digit `d` (0..=9) as a character.
pub open spec fn digit_char(d: nat) -> char {
    if d == 0 {
        '0'
    } else if d == 1 {
        '1'
    } else if d == 2 {
        '2'
    } else if d == 3 {
        '3'
    } else if d == 4 {
        '4'
    } else if d == 5 {
        '5'
    } else if d == 6 {
        '6'
    } else if d == 7 {
        '7'
    } else if d == 8 {
        '8'
    } else {
        '9'
    }
}

/// Decimal notation of `n`, most significant digit first, no leading zeros.
pub open spec fn decimal(n: nat) -> Seq<char>
    decreases n,
{
    if n < 10 {
        seq![digit_char(n)]
    } else {
        decimal(n / 10) + seq![digit_char(n % 10)]
    }
}

fn digit_str(d: u64) -> (r: &'static str)
    requires
        d < 10,
    ensures
        r@ == seq![digit_char(d as nat)],
{
    let r = if d == 0 {
        "0"
    } else if d == 1 {
        "1"
    } else if d == 2 {
        "2"
    } else if d == 3 {
        "3"
    } else if d == 4 {
        "4"
    } else if d == 5 {
        "5"
    } else if d == 6 {
        "6"
    } else if d == 7 {
        "7"
    } else if d == 8 {
        "8"
    } else {
        "9"
    };
    proof {
        reveal_strlit("0");
        reveal_strlit("1");
        reveal_strlit("2");
        reveal_strlit("3");
        reveal_strlit("4");
        reveal_strlit("5");
        reveal_strlit("6");
        reveal_strlit("7");
        reveal_strlit("8");
        reveal_strlit("9");
    }
    assert(r@ =~= seq![digit_char(d as nat)]);
    r
}

/// Append the decimal notation of `n` to `s`.
fn push_decimal(s: &mut String, n: u64)
    ensures
        final(s)@ == old(s)@ + decimal(n as nat),
    decreases n,
{
    if n >= 10 {
        push_decimal(s, n / 10);
        s.append(digit_str(n % 10));
        assert(final(s)@ =~= old(s)@ + decimal(n as nat));
    } else {
        s.append(digit_str(n));
    }
}

/// Name of the registered type `type_id`, or "unknown".
pub open spec fn spec_type_name(type_id: u8) -> Seq<char> {
    match CellTypeRegistry::spec_get(type_id) {
        Some(info) => info.name@,
        None => "unknown"@,
    }
}

/// The type-specific inspector line (with its leading line break), if any.
pub open spec fn inspector_kind_line(cell: Cell) -> Seq<char> {
    if cell.type_id == TYPE_GENERATOR {
        "\n"@ + "period_ticks: "@ + decimal(spec_generator_period(cell) as nat)
    } else if cell.type_id == TYPE_TRANSFORMER {
        "\n"@ + "input: "@ + spec_direction_label(spec_transformer_direction(cell))
    } else if cell.type_id == TYPE_AGGREGATOR {
        "\n"@ + "mode: "@ + spec_reduce_mode_label(spec_aggregator_mode(cell))
    } else {
        Seq::empty()
    }
}

/// Inspector text: a prompt when nothing is picked; otherwise one line each
/// for position, type name and state, then the type-specific line, then a
/// note for an empty cell.
pub open spec fn spec_inspector_text(pos: Option<WorldPos>, cell: Cell) -> Seq<char> {
    match pos {
        None => "Inspect a cell (RMB or inspect tool)"@,
        Some(p) => "pos: ("@ + decimal(p.x as nat) + ", "@ + decimal(p.y as nat) + ", "@ + decimal(p.z as nat) + ")"@
            + "\n"@ + "type: "@ + spec_type_name(cell.type_id)
            + "\n"@ + "state: "@ + decimal(cell.state as nat)
            + inspector_kind_line(cell)
            + (if cell.spec_is_empty() { "\n"@ + "empty cell"@ } else { Seq::empty() }),
    }
}

/// Format inspector body text for a picked cell (or empty prompt).
pub fn format_inspector(pos: Option<WorldPos>, cell: Cell) -> (r: String)
    ensures
        r@ == spec_inspector_text(pos, cell),
{
    let pos = match pos {
        Some(p) => p,
        None => {
            return String::from_str("Inspect a cell (RMB or inspect tool)");
        },
    };
    let kind_name = match CellTypeRegistry::get(cell.type_id) {
        Some(info) => info.name,
        None => "unknown",
    };
    let mut s = String::from_str("pos: (");
    push_decimal(&mut s, pos.x as u64);
    s.append(", ");
    push_decimal(&mut s, pos.y as u64);
    s.append(", ");
    push_decimal(&mut s, pos.z as u64);
    s.append(")");
    s.append("\n");
    s.append("type: ");
    s.append(kind_name);
    s.append("\n");
    s.append("state: ");
    push_decimal(&mut s, cell.state as u64);
    let ghost base = s@;
    if cell.type_id == TYPE_GENERATOR {
        s.append("\n");
        s.append("period_ticks: ");
        push_decimal(&mut s, generator_period(cell) as u64);
    } else if cell.type_id == TYPE_TRANSFORMER {
        s.append("\n");
        s.append("input: ");
        s.append(direction_label(transformer_direction(cell)));
    } else if cell.type_id == TYPE_AGGREGATOR {
        s.append("\n");
        s.append("mode: ");
        s.append(reduce_mode_label(aggregator_mode(cell)));
    }
    assert(s@ =~= base + inspector_kind_line(cell));
    let ghost with_kind = s@;
    if cell.is_empty() {
        s.append("\n");
        s.append("empty cell");
    }
    assert(s@ =~= with_kind + (if cell.spec_is_empty() { "\n"@ + "empty cell"@ } else { Seq::empty() }));
    s
}

/// One-line throughput readout for the HUD.
pub open spec fn spec_throughput_text(tick: u64, total_updates: u64, dirty_chunks: usize) -> Seq<char> {
    "tick: "@ + decimal(tick as nat) + "  updates: "@ + decimal(total_updates as nat) + "  dirty chunks: "@
        + decimal(dirty_chunks as nat)
}

/// One-line throughput readout for the HUD.
pub fn format_throughput(tick: u64, total_updates: u64, dirty_chunks: usize) -> (r: String)
    ensures
        r@ == spec_throughput_text(tick, total_updates, dirty_chunks),
{
    let mut s = String::from_str("tick: ");
    push_decimal(&mut s, tick);
    s.append("  updates: ");
    push_decimal(&mut s, total_updates);
    s.append("  dirty chunks: ");
    push_decimal(&mut s, dirty_chunks as u64);
    s
}

/// Depth readout: the depth axis, the slice depth, and the face.
pub open spec fn spec_depth_slice_text(view: OrthoView, depth: u16) -> Seq<char> {
    "depth "@ + view.spec_depth_axis_label() + "="@ + decimal(depth as nat) + " ("@ + view.spec_label() + ")"@
}

/// HUD line for the current depth slice of `view`.
pub fn format_depth_slice(view: OrthoView, depth: u16) -> (r: String)
    ensures
        r@ == spec_depth_slice_text(view, depth),
{
    let mut s = String::from_str("depth ");
    s.append(view.depth_axis_label());
    s.append("=");
    push_decimal(&mut s, depth as u64);
    s.append(" (");
    s.append(view.label());
    s.append(")");
    s
}

/// Debug overlay text: last-tick updates and dirty chunks when enabled,
/// nothing otherwise.
pub open spec fn spec_debug_overlay_text(stats: SimTickStats, enabled: bool) -> Seq<char> {
    if enabled {
        "last tick: "@ + decimal(stats.last_cell_updates as nat) + " cell updates, "@ + decimal(stats.last_dirty_chunks as nat)
            + " dirty chunks"@
    } else {
        Seq::empty()
    }
}

/// Debug overlay readout for the most recent tick.
pub fn format_debug_overlay(stats: &SimTickStats, enabled: bool) -> (r: String)
    ensures
        r@ == spec_debug_overlay_text(*stats, enabled),
{
    if !enabled {
        return String::new();
    }
    let mut s = String::from_str("last tick: ");
    push_decimal(&mut s, stats.last_cell_updates);
    s.append(" cell updates, ");
    push_decimal(&mut s, stats.last_dirty_chunks as u64);
    s.append(" dirty chunks");
    s
}

} // verus!
