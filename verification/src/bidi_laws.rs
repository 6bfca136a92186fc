//! What the isolation pass keeps on every frame.

use crate::bidi_isolate::{
    cell_columns, extend_runs, first_host, frame_controls, hostable_row, hosts, in_order,
    isolate_control, last_host, lemma_first_host, lemma_last_host, lemma_runs_in_order, lri_host,
    measured_row, owned_runs, owner_at, row_controls, row_length, segment_controls,
    symbol_columns, uncovered, without_controls, Run, LRI, PDI,
};
use crate::buffer::{BufferView, CellDiffOption, CellView};
use crate::geometry::{greater, Rect};
use vstd::prelude::*;

verus! {

// ---------------------------------------------------------------------------
// Parts of a row
// ---------------------------------------------------------------------------

/// Column `x` lies in the run.
pub open spec fn in_run(run: Run, x: int) -> bool {
    run.start <= x < run.end
}

/// The parts of a row come in order and do not overlap; a cell lies in a part
/// exactly when a region shows there, and then the part belongs to that region;
/// and parts that touch belong to different regions, so that a stretch that
/// shows one region is never split.
pub proof fn law_parts_are_the_longest_stretches_of_one_region(
    regions: Seq<Rect>,
    y: int,
    lo: int,
    hi: int,
)
    requires
        lo <= hi,
    ensures
        ({
            let runs = owned_runs(regions, y, lo, hi);
            &&& in_order(runs, lo, hi)
            &&& forall|i: int, x: int|
                0 <= i < runs.len() && #[trigger] in_run(runs[i], x) ==> owner_at(regions, x, y)
                    == Some(runs[i].owner)
            &&& forall|x: int|
                #![trigger owner_at(regions, x, y)]
                lo <= x < hi && owner_at(regions, x, y) is Some ==> exists|i: int|
                    0 <= i < runs.len() && #[trigger] in_run(runs[i], x)
            &&& forall|i: int|
                0 < i < runs.len() && runs[i - 1].end == (#[trigger] runs[i]).start
                    ==> runs[i - 1].owner != runs[i].owner
        }),
    decreases hi - lo,
{
    lemma_runs_in_order(regions, y, lo, hi);
    if lo < hi {
        law_parts_are_the_longest_stretches_of_one_region(regions, y, lo, hi - 1);
        lemma_runs_in_order(regions, y, lo, hi - 1);
        let before = owned_runs(regions, y, lo, hi - 1);
        let runs = owned_runs(regions, y, lo, hi);
        match owner_at(regions, hi - 1, y) {
            None => {},
            Some(owner) => {
                assert(runs == extend_runs(before, hi - 1, hi, owner));
                let joined = before.len() > 0 && before.last().end == hi - 1 && before.last().owner
                    == owner;
                assert forall|i: int, x: int|
                    0 <= i < runs.len() && #[trigger] in_run(runs[i], x) implies owner_at(
                    regions,
                    x,
                    y,
                ) == Some(runs[i].owner) by {
                    if x < hi - 1 {
                        assert(i < before.len());
                        assert(in_run(before[i], x));
                    }
                }
                assert forall|x: int|
                    #![trigger owner_at(regions, x, y)]
                    lo <= x < hi && owner_at(regions, x, y) is Some implies exists|i: int|
                    0 <= i < runs.len() && #[trigger] in_run(runs[i], x) by {
                    if x == hi - 1 {
                        assert(in_run(runs[runs.len() - 1], x));
                    } else {
                        let i = choose|i: int|
                            0 <= i < before.len() && #[trigger] in_run(before[i], x);
                        assert(in_run(runs[i], x));
                    }
                }
                assert forall|i: int|
                    0 < i < runs.len() && runs[i - 1].end == (#[trigger] runs[i]).start implies
                    runs[i - 1].owner != runs[i].owner by {
                    assert(runs[i - 1].owner == before[i - 1].owner);
                    if i < before.len() {
                        assert(runs[i].start == before[i].start);
                        assert(runs[i].owner == before[i].owner);
                    }
                }
            },
        }
    }
}

// ---------------------------------------------------------------------------
// Cells
// ---------------------------------------------------------------------------

/// Where the controls of one segment go: to an emitted cell each, the LRI not
/// behind the PDI, the PDI inside the segment, and the LRI outside it whenever
/// an emitted cell lies to its left.
proof fn lemma_segment_hosts(hostable: Seq<bool>, left: int, start: int, end: int)
    requires
        left <= start,
    ensures
        match last_host(hostable, left, start, end) {
            None => true,
            Some(pdi) => {
                let lri = lri_host(hostable, left, start, pdi);
                &&& start <= pdi < end
                &&& left <= lri <= pdi
                &&& hosts(hostable, left, lri)
                &&& hosts(hostable, left, pdi)
                &&& forall|x: int| lri < x < start ==> !hosts(hostable, left, x)
                &&& forall|x: int| left <= x < start && hosts(hostable, left, x) ==> x <= lri
            },
        },
{
    lemma_last_host(hostable, left, start, end);
    lemma_last_host(hostable, left, left, start);
    match last_host(hostable, left, start, end) {
        None => {},
        Some(pdi) => {
            lemma_first_host(hostable, left, start, pdi + 1);
        },
    }
}

/// The controls of a row go to emitted cells to the left of the last column, and
/// there is no character among them but LRI and PDI.
proof fn lemma_row_controls(hostable: Seq<bool>, left: int, runs: Seq<Run>, hi: int, x: int)
    requires
        in_order(runs, left, hi),
    ensures
        row_controls(hostable, left, runs, x).len() > 0 ==> left <= x < hi && hosts(
            hostable,
            left,
            x,
        ),
        forall|i: int|
            0 <= i < row_controls(hostable, left, runs, x).len() ==> {
                let control = #[trigger] row_controls(hostable, left, runs, x)[i];
                control == LRI || control == PDI
            },
    decreases runs.len(),
{
    if runs.len() > 0 {
        let rest = runs.drop_last();
        assert(runs.last() == runs[runs.len() - 1]);
        lemma_row_controls(hostable, left, rest, hi, x);
        lemma_segment_hosts(hostable, left, runs.last().start, runs.last().end);
        let before = row_controls(hostable, left, rest, x);
        let added = segment_controls(hostable, left, runs.last().start, runs.last().end, x);
        assert forall|i: int| 0 <= i < row_controls(hostable, left, runs, x).len() implies {
            let control = #[trigger] row_controls(hostable, left, runs, x)[i];
            control == LRI || control == PDI
        } by {
            if i < before.len() {
                assert(row_controls(hostable, left, runs, x)[i] == before[i]);
            } else {
                assert(row_controls(hostable, left, runs, x)[i] == added[i - before.len()]);
            }
        }
    }
}

/// A cell gains nothing but LRI and PDI.
pub proof fn law_only_isolate_controls_are_added(
    buf: BufferView,
    regions: Seq<Rect>,
    x: int,
    y: int,
)
    ensures
        forall|i: int|
            0 <= i < frame_controls(buf, regions, x, y).len() ==> {
                let control = #[trigger] frame_controls(buf, regions, x, y)[i];
                control == LRI || control == PDI
            },
{
    let (lo, hi) = (buf.area.x as int, buf.area.right_edge());
    lemma_runs_in_order(regions, y, lo, hi);
    lemma_row_controls(
        hostable_row(buf, y, measured_row(buf, y)),
        lo,
        owned_runs(regions, y, lo, hi),
        hi,
        x,
    );
}

/// Isolate controls behind a symbol come off again.
proof fn lemma_controls_come_off(symbol: Seq<char>, controls: Seq<char>)
    requires
        forall|i: int| 0 <= i < controls.len() ==> isolate_control(#[trigger] controls[i]),
    ensures
        without_controls(symbol + controls) == without_controls(symbol),
    decreases controls.len(),
{
    if controls.len() == 0 {
        assert(symbol + controls =~= symbol);
    } else {
        let rest = controls.drop_last();
        assert forall|i: int| 0 <= i < rest.len() implies isolate_control(#[trigger] rest[i]) by {
            assert(rest[i] == controls[i]);
        }
        lemma_controls_come_off(symbol, rest);
        assert((symbol + controls).drop_last() =~= symbol + rest);
        assert((symbol + controls).last() == controls[controls.len() - 1]);
    }
}

/// LRI and PDI take no column: a cell is as wide with them behind its symbol as
/// without.
pub proof fn law_controls_take_no_column(cell: CellView, controls: Seq<char>)
    requires
        forall|i: int| 0 <= i < controls.len() ==> isolate_control(#[trigger] controls[i]),
    ensures
        cell_columns(cell.with_controls(controls)) == cell_columns(cell),
{
    lemma_controls_come_off(cell.symbol, controls);
}

/// The pass leaves the geometry of a frame as it is: on every row of `after`, which
/// is `before` with the controls of the pass, each cell is as wide as it was, and
/// the same cells are emitted.
pub proof fn law_geometry_is_unaffected(
    before: BufferView,
    after: BufferView,
    regions: Seq<Rect>,
    y: int,
)
    requires
        after.area == before.area,
        before.area.y <= y < before.area.y + before.area.height,
        forall|x: int|
            before.has(x, y) ==> #[trigger] after.at(x, y) == before.at(x, y).with_controls(
                frame_controls(before, regions, x, y),
            ),
    ensures
        measured_row(after, y) == measured_row(before, y),
        hostable_row(after, y, measured_row(after, y)) == hostable_row(
            before,
            y,
            measured_row(before, y),
        ),
{
    let widths = measured_row(before, y);
    assert forall|i: int| 0 <= i < row_length(before.area) implies {
        let (cell, changed) = (
            before.at(before.area.x + i, y),
            #[trigger] after.at(before.area.x + i, y),
        );
        &&& cell_columns(changed) == cell_columns(cell)
        &&& changed.skipped() == cell.skipped()
        &&& changed.symbol.len() == 0 <==> cell.symbol.len() == 0
    } by {
        let x = before.area.x + i;
        let controls = frame_controls(before, regions, x, y);
        assert(before.has(x, y));
        law_only_isolate_controls_are_added(before, regions, x, y);
        assert forall|k: int| 0 <= k < controls.len() implies isolate_control(
            #[trigger] controls[k],
        ) by {
            assert(frame_controls(before, regions, x, y)[k] == controls[k]);
        }
        law_controls_take_no_column(before.at(x, y), controls);
        if before.at(x, y).symbol.len() == 0 {
            law_hidden_cells_are_untouched(before, regions, x, y);
        }
    }
    assert(measured_row(after, y) =~= widths);
    assert(hostable_row(after, y, widths) =~= hostable_row(before, y, widths));
}

/// A cell that the terminal is never sent stays as it is: one that is skipped,
/// has no symbol, or lies beneath a wide cell to its left.
pub proof fn law_hidden_cells_are_untouched(buf: BufferView, regions: Seq<Rect>, x: int, y: int)
    requires
        buf.has(x, y),
        buf.at(x, y).skipped() || buf.at(x, y).symbol.len() == 0 || !uncovered(
            measured_row(buf, y),
            x - buf.area.x,
        ),
    ensures
        frame_controls(buf, regions, x, y) == Seq::<char>::empty(),
{
    let (lo, hi) = (buf.area.x as int, buf.area.right_edge());
    lemma_runs_in_order(regions, y, lo, hi);
    lemma_row_controls(
        hostable_row(buf, y, measured_row(buf, y)),
        lo,
        owned_runs(regions, y, lo, hi),
        hi,
        x,
    );
    assert(buf.area.x + (x - buf.area.x) == x);
}

/// A row that no region shows in stays as it is.
pub proof fn law_rows_outside_all_regions_are_untouched(
    buf: BufferView,
    regions: Seq<Rect>,
    y: int,
)
    requires
        forall|x: int|
            buf.area.x <= x < buf.area.right_edge() ==> owner_at(regions, x, y) is None,
    ensures
        forall|x: int| #[trigger] frame_controls(buf, regions, x, y) == Seq::<char>::empty(),
{
    let (lo, hi) = (buf.area.x as int, buf.area.right_edge());
    law_parts_are_the_longest_stretches_of_one_region(regions, y, lo, hi);
    let runs = owned_runs(regions, y, lo, hi);
    if runs.len() > 0 {
        assert(in_run(runs[0], runs[0].start));
    }
}

// ---------------------------------------------------------------------------
// Rows
// ---------------------------------------------------------------------------

/// What `f` gives for the columns `lo` up to `hi`, one after the other.
pub open spec fn gather(f: spec_fn(int) -> Seq<char>, lo: int, hi: int) -> Seq<char>
    decreases hi - lo,
{
    if hi <= lo {
        Seq::empty()
    } else {
        gather(f, lo, hi - 1) + f(hi - 1)
    }
}

/// `n` isolates, each opened and closed again before the next one.
pub open spec fn isolates(n: nat) -> Seq<char>
    decreases n,
{
    if n == 0 {
        Seq::empty()
    } else {
        isolates((n - 1) as nat) + seq![LRI, PDI]
    }
}

/// The number of runs with an emitted cell.
pub open spec fn hosted(hostable: Seq<bool>, left: int, runs: Seq<Run>) -> nat
    decreases runs.len(),
{
    if runs.len() == 0 {
        0
    } else {
        let rest = hosted(hostable, left, runs.drop_last());
        if last_host(hostable, left, runs.last().start, runs.last().end) is Some {
            rest + 1
        } else {
            rest
        }
    }
}

/// How often `wanted` occurs in `s`.
pub open spec fn occurrences(s: Seq<char>, wanted: char) -> nat
    decreases s.len(),
{
    if s.len() == 0 {
        0
    } else {
        occurrences(s.drop_last(), wanted) + if s.last() == wanted {
            1nat
        } else {
            0nat
        }
    }
}

/// Columns that give nothing add nothing.
proof fn lemma_gather_silence(f: spec_fn(int) -> Seq<char>, lo: int, mid: int, hi: int)
    requires
        lo <= mid <= hi,
        forall|x: int| mid <= x < hi ==> (#[trigger] f(x)).len() == 0,
    ensures
        gather(f, lo, hi) == gather(f, lo, mid),
    decreases hi - mid,
{
    if mid < hi {
        lemma_gather_silence(f, lo, mid, hi - 1);
        assert(f(hi - 1).len() == 0);
        assert(gather(f, lo, hi) =~= gather(f, lo, hi - 1));
    }
}

/// When `g` is silent up to column `turn` and `f` is silent behind it, what they
/// give together is what `f` gives and then what `g` gives.
proof fn lemma_gather_in_turn(
    f: spec_fn(int) -> Seq<char>,
    g: spec_fn(int) -> Seq<char>,
    lo: int,
    hi: int,
    turn: int,
)
    requires
        forall|x: int| lo <= x < turn ==> (#[trigger] g(x)).len() == 0,
        forall|x: int| turn < x ==> (#[trigger] f(x)).len() == 0,
    ensures
        gather(|x: int| f(x) + g(x), lo, hi) == gather(f, lo, hi) + gather(g, lo, hi),
    decreases hi - lo,
{
    let both = |x: int| f(x) + g(x);
    if lo < hi {
        lemma_gather_in_turn(f, g, lo, hi - 1, turn);
        if turn < hi - 1 {
            assert(f(hi - 1).len() == 0);
        } else {
            lemma_gather_silence(g, lo, lo, hi - 1);
        }
        assert(gather(both, lo, hi) =~= gather(f, lo, hi) + gather(g, lo, hi));
    } else {
        assert(gather(both, lo, hi) =~= gather(f, lo, hi) + gather(g, lo, hi));
    }
}

/// The controls of one segment with an emitted cell read LRI, PDI.
proof fn lemma_gather_segment(hostable: Seq<bool>, left: int, start: int, end: int, hi: int)
    requires
        left <= start,
        end <= hi,
        last_host(hostable, left, start, end) is Some,
    ensures
        gather(|x: int| segment_controls(hostable, left, start, end, x), left, hi) == seq![
            LRI,
            PDI,
        ],
{
    let g = |x: int| segment_controls(hostable, left, start, end, x);
    let pdi = last_host(hostable, left, start, end)->0;
    let lri = lri_host(hostable, left, start, pdi);
    lemma_segment_hosts(hostable, left, start, end);
    lemma_gather_silence(g, left, pdi + 1, hi);
    assert(gather(g, left, pdi + 1) == gather(g, left, pdi) + g(pdi));
    if lri == pdi {
        lemma_gather_silence(g, left, left, pdi);
        assert(g(pdi) =~= seq![LRI, PDI]);
    } else {
        lemma_gather_silence(g, left, lri + 1, pdi);
        lemma_gather_silence(g, left, left, lri);
        assert(gather(g, left, lri + 1) == gather(g, left, lri) + g(lri));
        assert(g(lri) =~= seq![LRI]);
        assert(g(pdi) =~= seq![PDI]);
    }
    assert(gather(g, left, hi) =~= seq![LRI, PDI]);
}

/// The controls of a row read as one isolate after the other.
proof fn lemma_row_reads_as_isolates(hostable: Seq<bool>, left: int, runs: Seq<Run>, hi: int)
    requires
        left <= hi,
        in_order(runs, left, hi),
    ensures
        gather(|x: int| row_controls(hostable, left, runs, x), left, hi) == isolates(
            hosted(hostable, left, runs),
        ),
    decreases runs.len(),
{
    let all = |x: int| row_controls(hostable, left, runs, x);
    if runs.len() == 0 {
        lemma_gather_silence(all, left, left, hi);
    } else {
        let rest = runs.drop_last();
        let (start, end) = (runs.last().start, runs.last().end);
        assert(runs.last() == runs[runs.len() - 1]);
        lemma_row_reads_as_isolates(hostable, left, rest, hi);
        let f = |x: int| row_controls(hostable, left, rest, x);
        let g = |x: int| segment_controls(hostable, left, start, end, x);
        assert(all =~= |x: int| f(x) + g(x));
        assert(in_order(rest, left, start));
        lemma_segment_hosts(hostable, left, start, end);
        match last_host(hostable, left, start, end) {
            None => {
                assert forall|x: int| hi < x implies (#[trigger] f(x)).len() == 0 by {
                    lemma_row_controls(hostable, left, rest, start, x);
                }
                lemma_gather_in_turn(f, g, left, hi, hi);
                lemma_gather_silence(g, left, left, hi);
                assert(gather(all, left, hi) =~= gather(f, left, hi));
            },
            Some(pdi) => {
                let lri = lri_host(hostable, left, start, pdi);
                assert forall|x: int| lri < x implies (#[trigger] f(x)).len() == 0 by {
                    lemma_row_controls(hostable, left, rest, start, x);
                }
                lemma_gather_in_turn(f, g, left, hi, lri);
                lemma_gather_segment(hostable, left, start, end, hi);
            },
        }
    }
}

/// Isolates hold one LRI and one PDI each.
proof fn lemma_isolates_are_balanced(n: nat)
    ensures
        occurrences(isolates(n), LRI) == n,
        occurrences(isolates(n), PDI) == n,
    decreases n,
{
    if n > 0 {
        let rest = isolates((n - 1) as nat);
        lemma_isolates_are_balanced((n - 1) as nat);
        let whole = isolates(n);
        assert(whole.drop_last() =~= rest.push(LRI));
        assert(whole.drop_last().drop_last() =~= rest);
        reveal_with_fuel(occurrences, 3);
    }
}

/// Read from left to right, the controls of every row form one isolate after
/// the other: each is closed before the next one opens, and none stays open at
/// the end of the row. So a row gains as many LRI as PDI: one of each for every
/// part of it that has an emitted cell.
pub proof fn law_isolates_are_balanced_on_every_row(buf: BufferView, regions: Seq<Rect>, y: int)
    ensures
        ({
            let (lo, hi) = (buf.area.x as int, buf.area.right_edge());
            let added = gather(|x: int| frame_controls(buf, regions, x, y), lo, hi);
            let n = hosted(
                hostable_row(buf, y, measured_row(buf, y)),
                lo,
                owned_runs(regions, y, lo, hi),
            );
            &&& added == isolates(n)
            &&& occurrences(added, LRI) == n
            &&& occurrences(added, PDI) == n
        }),
{
    let (lo, hi) = (buf.area.x as int, buf.area.right_edge());
    let hostable = hostable_row(buf, y, measured_row(buf, y));
    let runs = owned_runs(regions, y, lo, hi);
    lemma_runs_in_order(regions, y, lo, hi);
    lemma_row_reads_as_isolates(hostable, lo, runs, hi);
    lemma_isolates_are_balanced(hosted(hostable, lo, runs));
    assert((|x: int| frame_controls(buf, regions, x, y)) =~= |x: int|
        row_controls(hostable, lo, runs, x));
}

/// An isolate holds the text of its own part of the row and no other: every
/// emitted cell of the part lies between the cells that host LRI and PDI, and
/// every emitted cell behind the LRI up to the PDI belongs to the part.
pub proof fn law_isolate_holds_exactly_its_part(
    hostable: Seq<bool>,
    left: int,
    start: int,
    end: int,
    x: int,
)
    requires
        left <= start,
        last_host(hostable, left, start, end) is Some,
        hosts(hostable, left, x),
    ensures
        ({
            let pdi = last_host(hostable, left, start, end)->0;
            let lri = lri_host(hostable, left, start, pdi);
            &&& start <= x < end ==> lri <= x <= pdi
            &&& lri < x <= pdi ==> start <= x < end
        }),
{
    lemma_last_host(hostable, left, start, end);
    lemma_segment_hosts(hostable, left, start, end);
    let pdi = last_host(hostable, left, start, end)->0;
    lemma_first_host(hostable, left, start, pdi + 1);
    lemma_last_host(hostable, left, left, start);
    assert(first_host(hostable, left, start, pdi + 1) is Some);
}

/// When an emitted cell lies to the left of a part, the LRI goes to the closest
/// one, so that the whole part lies behind it.
pub proof fn law_left_neighbour_opens_the_isolate(
    hostable: Seq<bool>,
    left: int,
    start: int,
    end: int,
    neighbour: int,
)
    requires
        left <= neighbour < start,
        hosts(hostable, left, neighbour),
        forall|x: int| neighbour < x < start ==> !hosts(hostable, left, x),
        last_host(hostable, left, start, end) is Some,
    ensures
        lri_host(hostable, left, start, last_host(hostable, left, start, end)->0) == neighbour,
{
    lemma_last_host(hostable, left, left, start);
}

// ---------------------------------------------------------------------------
// Which controls go to which cell
// ---------------------------------------------------------------------------

/// The terminal is sent the cell at column `x` and row `y`: the cell has a symbol,
/// is not skipped, and no cell to its left is wide enough to cover it.
pub open spec fn emitted(buf: BufferView, x: int, y: int) -> bool {
    &&& buf.area.x <= x < buf.area.x + buf.area.width
    &&& x < 0xffff
    &&& buf.at(x, y).symbol.len() > 0
    &&& !(buf.at(x, y).diff_option is Skip)
    &&& buf.at(x, y).skip ==> !(buf.at(x, y).diff_option is Normal)
    &&& forall|z: int| buf.area.x <= z < x ==> z + #[trigger] cell_columns(buf.at(z, y)) <= x
}

/// The cells that can host a control are exactly those that the terminal is sent.
pub proof fn law_emitted_cells_host_controls(buf: BufferView, x: int, y: int)
    ensures
        hosts(hostable_row(buf, y, measured_row(buf, y)), buf.area.x as int, x) <==> emitted(
            buf,
            x,
            y,
        ),
{
    let widths = measured_row(buf, y);
    let left = buf.area.x as int;
    let i = x - left;
    if 0 <= i < row_length(buf.area) {
        assert(left + i == x);
        if uncovered(widths, i) {
            assert forall|z: int| left <= z < x implies z + #[trigger] cell_columns(buf.at(z, y))
                <= x by {
                let j = z - left;
                assert(left + j == z);
                assert(j + greater(widths[j] as int, 1) <= i);
            }
        }
        if emitted(buf, x, y) {
            assert forall|j: int| 0 <= j < i implies j + greater(#[trigger] widths[j] as int, 1)
                <= i by {
                let z = left + j;
                assert(z + cell_columns(buf.at(z, y)) <= x);
            }
        }
    }
}

/// One region shows in all of the columns `a` to `b` of row `y`.
pub open spec fn same_part(regions: Seq<Rect>, y: int, a: int, b: int) -> bool {
    forall|z: int|
        a <= z <= b ==> #[trigger] owner_at(regions, z, y) is Some && owner_at(regions, z, y)
            == owner_at(regions, a, y)
}

/// A region shows in the cell, and it is the first of its row that is emitted.
pub open spec fn leads_row(buf: BufferView, regions: Seq<Rect>, x: int, y: int) -> bool {
    &&& emitted(buf, x, y)
    &&& owner_at(regions, x, y) is Some
    &&& forall|z: int| z < x ==> !#[trigger] emitted(buf, z, y)
}

/// A region shows in the cell, and it is the last emitted one of the stretch in
/// which that region shows.
pub open spec fn ends_part(buf: BufferView, regions: Seq<Rect>, x: int, y: int) -> bool {
    &&& emitted(buf, x, y)
    &&& owner_at(regions, x, y) is Some
    &&& forall|z: int| x < z && #[trigger] emitted(buf, z, y) ==> !same_part(regions, y, x, z)
}

/// The next emitted cell of the row is at column `z`.
pub open spec fn next_emitted(buf: BufferView, x: int, z: int, y: int) -> bool {
    &&& x < z
    &&& emitted(buf, z, y)
    &&& forall|m: int| x < m < z ==> !#[trigger] emitted(buf, m, y)
}

/// The next emitted cell of the row shows a region that does not reach from here to
/// there.
pub open spec fn precedes_part(buf: BufferView, regions: Seq<Rect>, x: int, y: int) -> bool {
    &&& emitted(buf, x, y)
    &&& exists|z: int| #[trigger]
        next_emitted(buf, x, z, y) && owner_at(regions, z, y) is Some && !same_part(
            regions,
            y,
            x,
            z,
        )
}

/// The control, if it is wanted.
pub open spec fn control_if(wanted: bool, control: char) -> Seq<char> {
    if wanted {
        seq![control]
    } else {
        Seq::empty()
    }
}

/// The run with the emitted cell is opened at column `x`, to its left.
spec fn opened_at(hostable: Seq<bool>, left: int, run: Run, x: int) -> bool {
    &&& x < run.start
    &&& last_host(hostable, left, run.start, run.end) is Some
    &&& last_host(hostable, left, left, run.start) == Some(x)
}

/// What the runs add to a cell: the controls of its own run, and the LRI of a run to
/// its right.
proof fn lemma_controls_of_runs(hostable: Seq<bool>, left: int, runs: Seq<Run>, hi: int, x: int)
    requires
        left <= x,
        in_order(runs, left, hi),
    ensures
        (exists|k: int| 0 <= k < runs.len() && #[trigger] in_run(runs[k], x)) ==> exists|k: int|
            #![trigger runs[k]]
            {
                &&& 0 <= k < runs.len()
                &&& in_run(runs[k], x)
                &&& row_controls(hostable, left, runs, x) == segment_controls(
                    hostable,
                    left,
                    runs[k].start,
                    runs[k].end,
                    x,
                ) + control_if(
                    exists|i: int|
                        0 <= i < runs.len() && #[trigger] opened_at(hostable, left, runs[i], x),
                    LRI,
                )
            },
        !(exists|k: int| 0 <= k < runs.len() && #[trigger] in_run(runs[k], x)) ==> row_controls(
            hostable,
            left,
            runs,
            x,
        ) == control_if(
            exists|i: int| 0 <= i < runs.len() && #[trigger] opened_at(hostable, left, runs[i], x),
            LRI,
        ),
    decreases runs.len(),
{
    if runs.len() > 0 {
        let rest = runs.drop_last();
        let n = runs.len() - 1;
        let last = runs[n];
        assert(runs.last() == last);
        assert forall|i: int| 0 <= i < rest.len() implies rest[i] == #[trigger] runs[i] by {}
        lemma_controls_of_runs(hostable, left, rest, hi, x);
        lemma_segment_hosts(hostable, left, last.start, last.end);
        lemma_last_host(hostable, left, last.start, last.end);
        lemma_last_host(hostable, left, left, last.start);
        let added = segment_controls(hostable, left, last.start, last.end, x);
        let before = row_controls(hostable, left, rest, x);
        assert(row_controls(hostable, left, runs, x) == before + added);
        let opened_before = exists|i: int|
            0 <= i < rest.len() && #[trigger] opened_at(hostable, left, rest[i], x);
        let opened = exists|i: int|
            0 <= i < runs.len() && #[trigger] opened_at(hostable, left, runs[i], x);
        if opened_before {
            let i = choose|i: int|
                0 <= i < rest.len() && #[trigger] opened_at(hostable, left, rest[i], x);
            assert(opened_at(hostable, left, runs[i], x));
            lemma_last_host(hostable, left, runs[i].start, runs[i].end);
            let z = last_host(hostable, left, runs[i].start, runs[i].end)->0;
            assert(hosts(hostable, left, z) && x < z < last.start);
            assert(!opened_at(hostable, left, last, x));
        }
        assert(opened == (opened_before || opened_at(hostable, left, last, x))) by {
            if opened {
                let i = choose|i: int|
                    0 <= i < runs.len() && #[trigger] opened_at(hostable, left, runs[i], x);
                if i < n {
                    assert(opened_at(hostable, left, rest[i], x));
                }
            }
            if opened_at(hostable, left, last, x) {
                assert(opened_at(hostable, left, runs[n], x));
            }
        }
        if last.start <= x {
            assert(!opened_at(hostable, left, last, x));
            assert forall|i: int| 0 <= i < rest.len() implies !#[trigger] opened_at(
                hostable,
                left,
                rest[i],
                x,
            ) by {
                assert(runs[i].end <= runs[n].start);
                assert(runs[i].start < runs[i].end);
            }
        }
        if in_run(last, x) {
            assert forall|k: int| 0 <= k < rest.len() implies !#[trigger] in_run(rest[k], x) by {
                assert(runs[k].end <= runs[n].start);
            }
            assert(in_run(runs[n], x));
            assert(before =~= Seq::empty());
            assert(before + added =~= added + control_if(opened, LRI));
        } else {
            assert(added =~= control_if(opened_at(hostable, left, last, x), LRI));
            if exists|k: int| 0 <= k < runs.len() && #[trigger] in_run(runs[k], x) {
                let k = choose|k: int| 0 <= k < runs.len() && #[trigger] in_run(runs[k], x);
                assert(in_run(rest[k], x));
                let own = choose|k: int|
                    #![trigger rest[k]]
                    {
                        &&& 0 <= k < rest.len()
                        &&& in_run(rest[k], x)
                        &&& before == segment_controls(
                            hostable,
                            left,
                            rest[k].start,
                            rest[k].end,
                            x,
                        ) + control_if(opened_before, LRI)
                    };
                let mine = segment_controls(hostable, left, runs[own].start, runs[own].end, x);
                assert(in_run(runs[own], x));
                assert(before + added =~= mine + control_if(opened, LRI));
            } else {
                assert forall|k: int| 0 <= k < rest.len() implies !#[trigger] in_run(rest[k], x) by {
                    assert(!in_run(runs[k], x));
                }
                assert(before + added =~= control_if(opened, LRI));
            }
        }
    }
}

/// From a cell of a run, the same region shows without a break up to the end of the
/// run and not beyond it.
proof fn lemma_same_part(regions: Seq<Rect>, y: int, lo: int, hi: int, k: int, x: int, z: int)
    requires
        lo <= x <= z < hi,
        0 <= k < owned_runs(regions, y, lo, hi).len(),
        in_run(owned_runs(regions, y, lo, hi)[k], x),
    ensures
        same_part(regions, y, x, z) <==> in_run(owned_runs(regions, y, lo, hi)[k], z),
{
    let runs = owned_runs(regions, y, lo, hi);
    law_parts_are_the_longest_stretches_of_one_region(regions, y, lo, hi);
    if in_run(runs[k], z) {
        assert forall|m: int| x <= m <= z implies #[trigger] owner_at(regions, m, y) is Some
            && owner_at(regions, m, y) == owner_at(regions, x, y) by {
            assert(in_run(runs[k], m));
        }
    } else if same_part(regions, y, x, z) {
        let end = runs[k].end;
        assert(x < end <= z);
        assert(owner_at(regions, end, y) is Some);
        let j = choose|j: int| 0 <= j < runs.len() && #[trigger] in_run(runs[j], end);
        assert(j > k) by {
            if j < k {
                assert(runs[j].end <= runs[k].start);
            }
        }
        assert(runs[k].end <= runs[j].start);
        assert(j == k + 1) by {
            if k + 1 < j {
                assert(runs[k].end <= runs[k + 1].start);
                assert(runs[k + 1].start < runs[k + 1].end);
                assert(runs[k + 1].end <= runs[j].start);
            }
        }
        assert(runs[j - 1].owner != runs[j].owner);
        assert(owner_at(regions, x, y) == Some(runs[k].owner));
    }
}

/// The cells that can host a control, as far as the row reaches.
spec fn hosts_are_emitted(buf: BufferView, y: int) -> bool {
    forall|z: int| #[trigger]
        hosts(hostable_row(buf, y, measured_row(buf, y)), buf.area.x as int, z) <==> emitted(
            buf,
            z,
            y,
        )
}

proof fn lemma_hosts_are_emitted(buf: BufferView, y: int)
    ensures
        hosts_are_emitted(buf, y),
{
    assert forall|z: int| #[trigger]
        hosts(hostable_row(buf, y, measured_row(buf, y)), buf.area.x as int, z) <==> emitted(
        buf,
        z,
        y,
    ) by {
        law_emitted_cells_host_controls(buf, z, y);
    }
}

/// A run that is opened at a cell to its left begins between that cell and the next
/// emitted one.
proof fn lemma_opened_run(buf: BufferView, regions: Seq<Rect>, x: int, y: int, i: int)
    requires
        buf.area.x <= x < buf.area.right_edge(),
        0 <= i < owned_runs(regions, y, buf.area.x as int, buf.area.right_edge()).len(),
        opened_at(
            hostable_row(buf, y, measured_row(buf, y)),
            buf.area.x as int,
            owned_runs(regions, y, buf.area.x as int, buf.area.right_edge())[i],
            x,
        ),
    ensures
        precedes_part(buf, regions, x, y),
{
    let (lo, hi) = (buf.area.x as int, buf.area.right_edge());
    let host = hostable_row(buf, y, measured_row(buf, y));
    let runs = owned_runs(regions, y, lo, hi);
    let run = runs[i];
    law_parts_are_the_longest_stretches_of_one_region(regions, y, lo, hi);
    lemma_hosts_are_emitted(buf, y);
    lemma_last_host(host, lo, run.start, run.end);
    lemma_last_host(host, lo, lo, run.start);
    lemma_first_host(host, lo, run.start, run.end);
    let z = first_host(host, lo, run.start, run.end)->0;
    assert(hosts(host, lo, x) && hosts(host, lo, z));
    assert(in_run(runs[i], z));
    assert forall|m: int| x < m < z implies !#[trigger] emitted(buf, m, y) by {
        assert(!hosts(host, lo, m));
    }
    assert(next_emitted(buf, x, z, y));
    if same_part(regions, y, x, z) {
        assert(owner_at(regions, x, y) is Some);
        let k = choose|k: int| 0 <= k < runs.len() && #[trigger] in_run(runs[k], x);
        lemma_same_part(regions, y, lo, hi, k, x, z);
        assert(k < i ==> runs[k].end <= runs[i].start);
        assert(i < k ==> runs[i].end <= runs[k].start);
    }
}

/// A run that begins between a cell and the next emitted one is opened at that cell.
proof fn lemma_preceded_run(buf: BufferView, regions: Seq<Rect>, x: int, y: int) -> (i: int)
    requires
        buf.area.x <= x < buf.area.right_edge(),
        precedes_part(buf, regions, x, y),
    ensures
        0 <= i < owned_runs(regions, y, buf.area.x as int, buf.area.right_edge()).len(),
        opened_at(
            hostable_row(buf, y, measured_row(buf, y)),
            buf.area.x as int,
            owned_runs(regions, y, buf.area.x as int, buf.area.right_edge())[i],
            x,
        ),
{
    let (lo, hi) = (buf.area.x as int, buf.area.right_edge());
    let host = hostable_row(buf, y, measured_row(buf, y));
    let runs = owned_runs(regions, y, lo, hi);
    law_parts_are_the_longest_stretches_of_one_region(regions, y, lo, hi);
    lemma_hosts_are_emitted(buf, y);
    let z = choose|z: int| #[trigger]
        next_emitted(buf, x, z, y) && owner_at(regions, z, y) is Some && !same_part(
            regions,
            y,
            x,
            z,
        );
    assert(hosts(host, lo, x) && hosts(host, lo, z));
    let i = choose|i: int| 0 <= i < runs.len() && #[trigger] in_run(runs[i], z);
    let run = runs[i];
    if run.start <= x {
        assert(in_run(runs[i], x));
        lemma_same_part(regions, y, lo, hi, i, x, z);
    }
    lemma_last_host(host, lo, run.start, run.end);
    lemma_last_host(host, lo, lo, run.start);
    assert forall|m: int| x < m < run.start implies !#[trigger] hosts(host, lo, m) by {
        assert(!emitted(buf, m, y));
    }
    i
}

/// What a run adds to one of its own cells.
proof fn lemma_controls_of_own_run(buf: BufferView, regions: Seq<Rect>, x: int, y: int, k: int)
    requires
        buf.area.x <= x < buf.area.right_edge(),
        0 <= k < owned_runs(regions, y, buf.area.x as int, buf.area.right_edge()).len(),
        in_run(owned_runs(regions, y, buf.area.x as int, buf.area.right_edge())[k], x),
    ensures
        ({
            let run = owned_runs(regions, y, buf.area.x as int, buf.area.right_edge())[k];
            segment_controls(
                hostable_row(buf, y, measured_row(buf, y)),
                buf.area.x as int,
                run.start,
                run.end,
                x,
            ) == control_if(leads_row(buf, regions, x, y), LRI) + control_if(
                ends_part(buf, regions, x, y),
                PDI,
            )
        }),
{
    let (lo, hi) = (buf.area.x as int, buf.area.right_edge());
    let host = hostable_row(buf, y, measured_row(buf, y));
    let runs = owned_runs(regions, y, lo, hi);
    let run = runs[k];
    law_parts_are_the_longest_stretches_of_one_region(regions, y, lo, hi);
    lemma_hosts_are_emitted(buf, y);
    lemma_last_host(host, lo, run.start, run.end);
    lemma_last_host(host, lo, lo, run.start);
    let own = segment_controls(host, lo, run.start, run.end, x);
    let (leads, ends) = (leads_row(buf, regions, x, y), ends_part(buf, regions, x, y));
    match last_host(host, lo, run.start, run.end) {
        None => {
            assert(!hosts(host, lo, x));
        },
        Some(pdi) => {
            lemma_first_host(host, lo, run.start, pdi + 1);
            let lri = lri_host(host, lo, run.start, pdi);
            assert(hosts(host, lo, pdi));
            assert(ends == (x == pdi)) by {
                if ends && x != pdi {
                    assert(hosts(host, lo, x));
                    assert(x < pdi);
                    lemma_same_part(regions, y, lo, hi, k, x, pdi);
                }
                if x == pdi {
                    assert forall|z: int| x < z && #[trigger] emitted(buf, z, y) implies !same_part(
                        regions,
                        y,
                        x,
                        z,
                    ) by {
                        assert(hosts(host, lo, z));
                        lemma_same_part(regions, y, lo, hi, k, x, z);
                    }
                }
            }
            assert(leads == (x == lri)) by {
                if leads {
                    assert(hosts(host, lo, x));
                    assert forall|z: int| z < x implies !#[trigger] hosts(host, lo, z) by {
                        assert(!emitted(buf, z, y));
                    }
                }
                if x == lri {
                    assert(hosts(host, lo, x));
                    assert forall|z: int| z < x implies !#[trigger] emitted(buf, z, y) by {
                        assert(hosts(host, lo, z) <==> emitted(buf, z, y));
                    }
                }
            }
        },
    }
    assert(own =~= control_if(leads, LRI) + control_if(ends, PDI));
}

/// The controls of a cell, by what is around it. A cell gains an LRI first when it
/// is the first emitted cell of its row and shows a region; then a PDI when it is
/// the last emitted cell of the stretch in which its region shows; then an LRI when
/// the next emitted cell shows a region that begins between the two. It gains
/// nothing else.
///
/// So every part with an emitted cell is opened at the closest emitted cell to its
/// left, or at its own first one where there is none, and closed at its last one.
pub proof fn law_controls_of_a_cell(buf: BufferView, regions: Seq<Rect>, x: int, y: int)
    requires
        buf.area.x <= x < buf.area.x + buf.area.width,
        x < 0xffff,
    ensures
        frame_controls(buf, regions, x, y) == control_if(leads_row(buf, regions, x, y), LRI)
            + control_if(ends_part(buf, regions, x, y), PDI) + control_if(
            precedes_part(buf, regions, x, y),
            LRI,
        ),
{
    let (lo, hi) = (buf.area.x as int, buf.area.right_edge());
    let host = hostable_row(buf, y, measured_row(buf, y));
    let runs = owned_runs(regions, y, lo, hi);
    law_parts_are_the_longest_stretches_of_one_region(regions, y, lo, hi);
    lemma_controls_of_runs(host, lo, runs, hi, x);
    let opened = exists|i: int| 0 <= i < runs.len() && #[trigger] opened_at(host, lo, runs[i], x);
    if opened {
        let i = choose|i: int| 0 <= i < runs.len() && #[trigger] opened_at(host, lo, runs[i], x);
        lemma_opened_run(buf, regions, x, y, i);
    }
    if precedes_part(buf, regions, x, y) {
        let i = lemma_preceded_run(buf, regions, x, y);
        assert(opened_at(host, lo, runs[i], x));
    }
    if owner_at(regions, x, y) is Some {
        let k = choose|k: int|
            #![trigger runs[k]]
            {
                &&& 0 <= k < runs.len()
                &&& in_run(runs[k], x)
                &&& row_controls(host, lo, runs, x) == segment_controls(
                    host,
                    lo,
                    runs[k].start,
                    runs[k].end,
                    x,
                ) + control_if(opened, LRI)
            };
        lemma_controls_of_own_run(buf, regions, x, y, k);
    } else {
        assert forall|k: int| 0 <= k < runs.len() implies !#[trigger] in_run(runs[k], x) by {}
        assert(control_if(false, LRI) + control_if(false, PDI) + control_if(opened, LRI)
            =~= control_if(opened, LRI));
    }
}

/// What is counted in two texts is counted in both together.
proof fn lemma_occurrences_add(a: Seq<char>, b: Seq<char>, wanted: char)
    ensures
        occurrences(a + b, wanted) == occurrences(a, wanted) + occurrences(b, wanted),
    decreases b.len(),
{
    if b.len() == 0 {
        assert(a + b =~= a);
    } else {
        lemma_occurrences_add(a, b.drop_last(), wanted);
        assert((a + b).drop_last() =~= a + b.drop_last());
        assert((a + b).last() == b.last());
    }
}

/// The isolates that are open when a terminal that reads row `y` from left to right
/// comes to column `x`: the LRI in front of it less the PDI.
pub open spec fn isolate_depth(buf: BufferView, regions: Seq<Rect>, x: int, y: int) -> int {
    let added = gather(|c: int| frame_controls(buf, regions, c, y), buf.area.x as int, x);
    occurrences(added, LRI) - occurrences(added, PDI)
}

/// A cell to the left of column `x` is emitted.
spec fn begun(buf: BufferView, x: int, y: int) -> bool {
    exists|z: int| z < x && #[trigger] emitted(buf, z, y)
}

/// A region shows in the next emitted cell from column `x` on.
spec fn awaits(buf: BufferView, regions: Seq<Rect>, x: int, y: int) -> bool {
    exists|z: int| #[trigger]
        next_emitted(buf, x - 1, z, y) && owner_at(regions, z, y) is Some
}

/// The first emitted cell to the right of column `x`, up to one that is known.
proof fn lemma_next_emitted(buf: BufferView, x: int, z: int, y: int) -> (n: int)
    requires
        x < z,
        emitted(buf, z, y),
    ensures
        next_emitted(buf, x, n, y),
        n <= z,
    decreases z - x,
{
    if forall|m: int| x < m < z ==> !#[trigger] emitted(buf, m, y) {
        z
    } else {
        let m = choose|m: int| x < m < z && #[trigger] emitted(buf, m, y);
        lemma_next_emitted(buf, x, m, y)
    }
}

/// How many LRI and PDI a cell gains.
proof fn lemma_counts_of_a_cell(buf: BufferView, regions: Seq<Rect>, x: int, y: int)
    requires
        buf.area.x <= x < buf.area.x + buf.area.width,
        x < 0xffff,
    ensures
        occurrences(frame_controls(buf, regions, x, y), LRI) - occurrences(
            frame_controls(buf, regions, x, y),
            PDI,
        ) == (if leads_row(buf, regions, x, y) {
            1int
        } else {
            0
        }) - (if ends_part(buf, regions, x, y) {
            1int
        } else {
            0
        }) + (if precedes_part(buf, regions, x, y) {
            1int
        } else {
            0
        }),
{
    law_controls_of_a_cell(buf, regions, x, y);
    let a = control_if(leads_row(buf, regions, x, y), LRI);
    let b = control_if(ends_part(buf, regions, x, y), PDI);
    let c = control_if(precedes_part(buf, regions, x, y), LRI);
    reveal_with_fuel(occurrences, 2);
    assert(seq![LRI].drop_last() =~= Seq::empty());
    assert(seq![PDI].drop_last() =~= Seq::empty());
    lemma_occurrences_add(a, b, LRI);
    lemma_occurrences_add(a, b, PDI);
    lemma_occurrences_add(a + b, c, LRI);
    lemma_occurrences_add(a + b, c, PDI);
}

/// How a cell changes the depth.
proof fn lemma_depth_step(buf: BufferView, regions: Seq<Rect>, x: int, y: int)
    requires
        buf.area.x <= x < buf.area.x + buf.area.width,
        x < 0xffff,
    ensures
        (if begun(buf, x + 1, y) && awaits(buf, regions, x + 1, y) {
            1int
        } else {
            0
        }) == (if begun(buf, x, y) && awaits(buf, regions, x, y) {
            1int
        } else {
            0
        }) + (if leads_row(buf, regions, x, y) {
            1int
        } else {
            0
        }) - (if ends_part(buf, regions, x, y) {
            1int
        } else {
            0
        }) + (if precedes_part(buf, regions, x, y) {
            1int
        } else {
            0
        }),
{
    let owned = owner_at(regions, x, y) is Some;
    if !emitted(buf, x, y) {
        assert(begun(buf, x + 1, y) == begun(buf, x, y));
        assert(awaits(buf, regions, x + 1, y) == awaits(buf, regions, x, y)) by {
            if awaits(buf, regions, x + 1, y) {
                let z = choose|z: int| #[trigger]
                    next_emitted(buf, (x + 1) - 1, z, y) && owner_at(regions, z, y) is Some;
                assert(next_emitted(buf, x - 1, z, y));
            }
            if awaits(buf, regions, x, y) {
                let z = choose|z: int| #[trigger]
                    next_emitted(buf, x - 1, z, y) && owner_at(regions, z, y) is Some;
                assert(next_emitted(buf, (x + 1) - 1, z, y));
            }
        }
    } else {
        assert(begun(buf, x + 1, y));
        assert(next_emitted(buf, x - 1, x, y));
        assert(awaits(buf, regions, x, y) == owned) by {
            if awaits(buf, regions, x, y) {
                let z = choose|z: int| #[trigger]
                    next_emitted(buf, x - 1, z, y) && owner_at(regions, z, y) is Some;
                assert(z == x);
            }
        }
        assert(leads_row(buf, regions, x, y) == (owned && !begun(buf, x, y)));
        if awaits(buf, regions, x + 1, y) {
            let n = choose|z: int| #[trigger]
                next_emitted(buf, (x + 1) - 1, z, y) && owner_at(regions, z, y) is Some;
            assert(next_emitted(buf, x, n, y));
            assert(precedes_part(buf, regions, x, y) == !same_part(regions, y, x, n)) by {
                if precedes_part(buf, regions, x, y) {
                    let z = choose|z: int| #[trigger]
                        next_emitted(buf, x, z, y) && owner_at(regions, z, y) is Some
                            && !same_part(regions, y, x, z);
                    assert(z == n);
                }
            }
            if same_part(regions, y, x, n) {
                assert(owner_at(regions, x, y) is Some);
                assert(!ends_part(buf, regions, x, y));
            } else {
                assert forall|z: int| x < z && #[trigger] emitted(buf, z, y) implies !same_part(
                    regions,
                    y,
                    x,
                    z,
                ) by {
                    assert(n <= z);
                    if same_part(regions, y, x, z) {
                        assert forall|m: int| x <= m <= n implies #[trigger] owner_at(
                            regions,
                            m,
                            y,
                        ) is Some && owner_at(regions, m, y) == owner_at(regions, x, y) by {}
                    }
                }
                assert(ends_part(buf, regions, x, y) == owned);
            }
        } else {
            if precedes_part(buf, regions, x, y) {
                let z = choose|z: int| #[trigger]
                    next_emitted(buf, x, z, y) && owner_at(regions, z, y) is Some && !same_part(
                        regions,
                        y,
                        x,
                        z,
                    );
                assert(next_emitted(buf, (x + 1) - 1, z, y));
            }
            assert forall|z: int| x < z && #[trigger] emitted(buf, z, y) implies !same_part(
                regions,
                y,
                x,
                z,
            ) by {
                let n = lemma_next_emitted(buf, x, z, y);
                if same_part(regions, y, x, z) {
                    assert(owner_at(regions, n, y) is Some);
                    assert(next_emitted(buf, (x + 1) - 1, n, y));
                }
            }
            assert(ends_part(buf, regions, x, y) == owned);
        }
    }
}

/// The depth ahead of a column.
proof fn lemma_depth(buf: BufferView, regions: Seq<Rect>, x: int, y: int)
    requires
        buf.area.x <= x <= buf.area.right_edge(),
    ensures
        isolate_depth(buf, regions, x, y) == (if begun(buf, x, y) && awaits(buf, regions, x, y) {
            1int
        } else {
            0
        }),
    decreases x - buf.area.x,
{
    let lo = buf.area.x as int;
    let f = |c: int| frame_controls(buf, regions, c, y);
    if x > lo {
        lemma_depth(buf, regions, x - 1, y);
        lemma_depth_step(buf, regions, x - 1, y);
        lemma_counts_of_a_cell(buf, regions, x - 1, y);
        lemma_occurrences_add(gather(f, lo, x - 1), f(x - 1), LRI);
        lemma_occurrences_add(gather(f, lo, x - 1), f(x - 1), PDI);
    }
}

/// The text of every region stands in an isolate, and nothing else does: when the
/// terminal comes to an emitted cell in which a region shows, exactly one isolate is
/// open, unless no cell to its left was emitted that could have opened it, and then
/// the cell opens it itself; in a cell that shows no region, and at the end of the
/// row, none is open.
pub proof fn law_text_of_every_region_is_isolated(
    buf: BufferView,
    regions: Seq<Rect>,
    x: int,
    y: int,
)
    ensures
        emitted(buf, x, y) && owner_at(regions, x, y) is Some && (exists|z: int|
            z < x && #[trigger] emitted(buf, z, y)) ==> isolate_depth(buf, regions, x, y) == 1,
        emitted(buf, x, y) && owner_at(regions, x, y) is Some && !(exists|z: int|
            z < x && #[trigger] emitted(buf, z, y)) ==> isolate_depth(buf, regions, x, y) == 0
            && frame_controls(buf, regions, x, y).len() > 0 && frame_controls(
            buf,
            regions,
            x,
            y,
        )[0] == LRI,
        emitted(buf, x, y) && owner_at(regions, x, y) is None ==> isolate_depth(
            buf,
            regions,
            x,
            y,
        ) == 0,
        isolate_depth(buf, regions, buf.area.right_edge(), y) == 0,
{
    let hi = buf.area.right_edge();
    lemma_depth(buf, regions, hi, y);
    assert(!awaits(buf, regions, hi, y));
    if emitted(buf, x, y) {
        lemma_depth(buf, regions, x, y);
        law_controls_of_a_cell(buf, regions, x, y);
        assert(next_emitted(buf, x - 1, x, y));
        if awaits(buf, regions, x, y) {
            let z = choose|z: int| #[trigger]
                next_emitted(buf, x - 1, z, y) && owner_at(regions, z, y) is Some;
            assert(z == x);
        }
    }
}

/// A cell gains its controls behind its symbol and changes in nothing else.
pub proof fn law_only_the_symbol_changes(cell: CellView, controls: Seq<char>)
    ensures
        ({
            let changed = cell.with_controls(controls);
            &&& changed.symbol.len() == cell.symbol.len() + controls.len()
            &&& changed.symbol.take(cell.symbol.len() as int) == cell.symbol
            &&& changed.symbol.skip(cell.symbol.len() as int) == controls
            &&& changed.fg == cell.fg && changed.bg == cell.bg
            &&& changed.modifier == cell.modifier
            &&& changed.diff_option == cell.diff_option && changed.skip == cell.skip
        }),
{
    assert((cell.symbol + controls).take(cell.symbol.len() as int) =~= cell.symbol);
    assert((cell.symbol + controls).skip(cell.symbol.len() as int) =~= controls);
}

/// A width that is forced on a cell stands; otherwise a lone ASCII character takes
/// one column, and any other symbol that does not end in an isolate control takes as
/// many as ratatui measures.
pub proof fn law_cell_is_as_wide_as_its_symbol(cell: CellView)
    ensures
        cell.diff_option matches CellDiffOption::ForcedWidth(columns) ==> cell_columns(cell)
            == columns,
        !(cell.diff_option is ForcedWidth) && cell.symbol.len() == 1 && (cell.symbol[0] as u32)
            < 0x80 ==> cell_columns(cell) == 1,
        !(cell.diff_option is ForcedWidth) && !(cell.symbol.len() == 1 && (cell.symbol[0] as u32)
            < 0x80) && (cell.symbol.len() > 0 ==> cell.symbol.last() != LRI
            && cell.symbol.last() != PDI) ==> cell_columns(cell) == symbol_columns(cell.symbol),
{
}

/// The cells of a frame are kept from left to right and then from top to bottom.
pub proof fn law_cells_are_kept_row_by_row(buf: BufferView, x: int, y: int)
    ensures
        buf.at(buf.area.x as int, buf.area.y as int) == buf.cells[0],
        buf.offset(x + 1, y) == buf.offset(x, y) + 1,
        buf.offset(x, y + 1) == buf.offset(x, y) + buf.area.width,
        buf.at(x, y) == buf.cells[buf.offset(x, y)],
{
    let (r, w) = (y - buf.area.y, buf.area.width as int);
    assert((r + 1) * w == r * w + w) by (nonlinear_arith);
    assert(0 * w == 0) by (nonlinear_arith);
}

} // verus!
