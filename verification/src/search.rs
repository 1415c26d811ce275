//! The randomized local search: batches of swaps that are kept when they
//! do not worsen the cost and undone, swap by swap, when they do.

use vstd::prelude::*;
use vstd::string::StringExecFns;
use rand::rngs::ThreadRng;
use crate::chance::draw_between;
use crate::chance::thread_rng;
use crate::coord::cell_at;
use crate::coord::cell_count;
use crate::coord::cell_of;
use crate::coord::in_cube;
use crate::coord::lemma_cell_at_linear_index;
use crate::coord::lemma_cell_count;
use crate::coord::lemma_linear_index_cell_at;
use crate::coord::lemma_linear_index_range;
use crate::coord::linear_index;
use crate::coord::linearize_within;
use crate::coord::Coord;
use crate::coord::MAX_WIDTH;
use crate::cost::total_cost;
use crate::layout::assigns_cube;
use crate::layout::lemma_assignment_covers;
use crate::layout::lemma_no_defect;
use crate::layout::lemma_swap_involution;
use crate::layout::lemma_swap_permutes;
use crate::layout::names_cell;
use crate::layout::permutes_cube;
use crate::layout::snapshot_defect;
use crate::layout::swapped;
use crate::layout::Layout;
use crate::layout::SnapshotError;
use crate::text::decimal;
use crate::text::decimal_text;

verus! {

/// Number of steps between two progress reports.
pub const PROGRESS: usize = 10_000;

/// The state of a search: what it has reached, and how it is driven.
#[derive(Clone, Copy)]
pub struct RandomSearch {
    /// Lowest cost that was accepted so far.
    pub best_heuristic: usize,
    /// Cost of the layout the search started from.
    pub initial_heuristic: usize,
    /// Cost of the row-major layout, for comparison.
    pub linear_heuristic: usize,
    /// Cost of the Z-order layout, for comparison.
    pub morton_heuristic: usize,
    /// Number of steps to take each time the search is invoked.
    pub per_frame: usize,
    /// Number of steps taken so far.
    pub iteration: usize,
    /// Whether the search is running or paused.
    pub running: bool,
    /// Whether a stored layout is to be loaded at the next opportunity.
    pub load: bool,
    /// Number of steps between two stored copies of the layout.
    pub save_every: usize,
    /// Name of the run, which goes into the names of its files.
    pub run_name: &'static str,
}

/// What a search reports of itself every [`PROGRESS`] steps.
#[derive(Clone, Copy, Debug, PartialEq, Eq, Structural)]
pub struct Progress {
    pub iteration: usize,
    pub best_heuristic: usize,
    pub initial_heuristic: usize,
    pub linear_heuristic: usize,
    pub morton_heuristic: usize,
}

/// Whether every swap of the batch exchanges two cells of the cube.
pub open spec fn batch_in_cube(batch: Seq<(Coord, Coord)>, width: int) -> bool {
    forall|i: int|
        0 <= i < batch.len() ==> in_cube((#[trigger] batch[i]).0, width) && in_cube(
            batch[i].1,
            width,
        )
}

/// The mapping after the swaps of the batch, made in order.
pub open spec fn apply_batch(m: Map<Coord, usize>, batch: Seq<(Coord, Coord)>) -> Map<
    Coord,
    usize,
>
    decreases batch.len(),
{
    if batch.len() == 0 {
        m
    } else {
        swapped(apply_batch(m, batch.drop_last()), batch.last().0, batch.last().1)
    }
}

/// The mapping after the swaps of the batch, made in reverse order.
pub open spec fn revert_batch(m: Map<Coord, usize>, batch: Seq<(Coord, Coord)>) -> Map<
    Coord,
    usize,
> {
    apply_batch(m, batch.reverse())
}

/// Whether two states differ at most in what a step changes: the best cost
/// and the number of steps.
pub open spec fn same_settings(a: RandomSearch, b: RandomSearch) -> bool {
    &&& a.initial_heuristic == b.initial_heuristic
    &&& a.linear_heuristic == b.linear_heuristic
    &&& a.morton_heuristic == b.morton_heuristic
    &&& a.per_frame == b.per_frame
    &&& a.running == b.running
    &&& a.load == b.load
    &&& a.save_every == b.save_every
    &&& a.run_name == b.run_name
}

/// The steps among `steps` steps from step `start` on at which a report is
/// due.
pub open spec fn report_times(start: int, steps: nat) -> Seq<int>
    decreases steps,
{
    if steps == 0 {
        Seq::empty()
    } else {
        let before = report_times(start, (steps - 1) as nat);
        if (start + steps - 1) % (PROGRESS as int) == 0 {
            before.push(start + steps - 1)
        } else {
            before
        }
    }
}

/// The slot that a draw stands for when one slot is left out.
pub open spec fn skip_index(skip: int, drawn: int) -> int {
    if drawn >= skip {
        drawn + 1
    } else {
        drawn
    }
}

/// Largest size of a batch, exclusive, for a cube of the given width.
pub open spec fn max_swaps(width: int) -> int {
    width * width * 3
}

/// A batch of swaps among the cells of a bijection leaves a bijection.
pub proof fn lemma_batch_permutes(m: Map<Coord, usize>, width: int, batch: Seq<(Coord, Coord)>)
    requires
        permutes_cube(m, width),
        batch_in_cube(batch, width),
    ensures
        permutes_cube(apply_batch(m, batch), width),
    decreases batch.len(),
{
    if batch.len() > 0 {
        lemma_batch_permutes(m, width, batch.drop_last());
        lemma_swap_permutes(
            apply_batch(m, batch.drop_last()),
            width,
            batch.last().0,
            batch.last().1,
        );
    }
}

/// Making two batches one after the other is making their concatenation.
pub proof fn lemma_apply_concat(
    m: Map<Coord, usize>,
    first: Seq<(Coord, Coord)>,
    second: Seq<(Coord, Coord)>,
)
    ensures
        apply_batch(m, first + second) == apply_batch(apply_batch(m, first), second),
    decreases second.len(),
{
    if second.len() == 0 {
        assert(first + second =~= first);
    } else {
        lemma_apply_concat(m, first, second.drop_last());
        assert((first + second).drop_last() =~= first + second.drop_last());
    }
}

/// Undoing the swaps of a batch in reverse order restores the mapping that
/// the batch was made on.
pub proof fn lemma_rollback(m: Map<Coord, usize>, width: int, batch: Seq<(Coord, Coord)>)
    requires
        permutes_cube(m, width),
        batch_in_cube(batch, width),
    ensures
        revert_batch(apply_batch(m, batch), batch) == m,
    decreases batch.len(),
{
    if batch.len() == 0 {
        assert(batch.reverse() =~= batch);
    } else {
        let init = batch.drop_last();
        let last = batch.last();
        let reached = apply_batch(m, init);
        let done = apply_batch(m, batch);
        lemma_batch_permutes(m, width, init);
        lemma_rollback(m, width, init);
        assert(batch.reverse() =~= seq![last] + init.reverse());
        lemma_apply_concat(done, seq![last], init.reverse());
        assert(seq![last].drop_last() =~= Seq::<(Coord, Coord)>::empty());
        assert(apply_batch(done, seq![last].drop_last()) == done);
        assert(apply_batch(done, seq![last]) == swapped(done, last.0, last.1));
        assert(reached.contains_key(last.0) && reached.contains_key(last.1));
        lemma_swap_involution(reached, last.0, last.1);
    }
}

/// Whatever cell other than `first` is wanted, exactly one draw leads to
/// it: the draws are as evenly spread over the other cells as over the
/// numbers drawn from.
pub proof fn lemma_draw_reaches(first: Coord, other: Coord, width: int) -> (drawn: int)
    requires
        0 < width <= i32::MAX,
        in_cube(first, width),
        in_cube(other, width),
        other != first,
    ensures
        0 <= drawn < cell_count(width) - 1,
        cell_at(skip_index(linear_index(first, width), drawn), width) == other,
        forall|d: int|
            0 <= d < cell_count(width) - 1 && cell_at(
                #[trigger] skip_index(linear_index(first, width), d),
                width,
            ) == other ==> d == drawn,
{
    let skip = linear_index(first, width);
    let target = linear_index(other, width);
    lemma_linear_index_range(first, width);
    lemma_linear_index_range(other, width);
    lemma_cell_at_linear_index(other, width);
    lemma_cell_at_linear_index(first, width);
    let drawn = if target > skip {
        target - 1
    } else {
        target
    };
    assert forall|d: int|
        0 <= d < cell_count(width) - 1 && cell_at(
            #[trigger] skip_index(skip, d),
            width,
        ) == other implies d == drawn by {
        lemma_linear_index_cell_at(skip_index(skip, d), width);
    }
    drawn
}

impl RandomSearch {
    /// One line on how far the search has come.
    pub fn current_info(&self) -> (info: String)
        ensures
            info@ == "iter: "@ + decimal(self.iteration as nat) + ", best: "@ + decimal(
                self.best_heuristic as nat,
            ) + ", initial: "@ + decimal(self.initial_heuristic as nat),
    {
        let mut info = String::from_str("iter: ");
        info.append(decimal_text(self.iteration).as_str());
        info.append(", best: ");
        info.append(decimal_text(self.best_heuristic).as_str());
        info.append(", initial: ");
        info.append(decimal_text(self.initial_heuristic).as_str());
        info
    }

    /// What the search reports of itself now.
    pub fn progress(&self) -> (report: Progress)
        ensures
            report == (Progress {
                iteration: self.iteration,
                best_heuristic: self.best_heuristic,
                initial_heuristic: self.initial_heuristic,
                linear_heuristic: self.linear_heuristic,
                morton_heuristic: self.morton_heuristic,
            }),
    {
        Progress {
            iteration: self.iteration,
            best_heuristic: self.best_heuristic,
            initial_heuristic: self.initial_heuristic,
            linear_heuristic: self.linear_heuristic,
            morton_heuristic: self.morton_heuristic,
        }
    }
}

/// Makes the swaps of the batch on the layout, in order.
pub fn apply_swaps(layout: &mut Layout, batch: &Vec<(Coord, Coord)>)
    requires
        old(layout).wf(),
        batch_in_cube(batch@, old(layout).width() as int),
    ensures
        final(layout).wf(),
        final(layout).width() == old(layout).width(),
        final(layout).policy() == old(layout).policy(),
        final(layout)@ == apply_batch(old(layout)@, batch@),
{
    let mut i: usize = 0;
    while i < batch.len()
        invariant
            i <= batch.len(),
            layout.wf(),
            layout.width() == old(layout).width(),
            layout.policy() == old(layout).policy(),
            batch_in_cube(batch@, layout.width() as int),
            layout@ == apply_batch(old(layout)@, batch@.take(i as int)),
        decreases batch.len() - i,
    {
        let (a, b) = batch[i];
        assert(batch@.take(i + 1).drop_last() =~= batch@.take(i as int));
        layout.swap(a, b);
        i = i + 1;
    }
    assert(batch@.take(batch.len() as int) =~= batch@);
}

/// Makes the swaps of the batch on the layout, last swap first.
pub fn revert_swaps(layout: &mut Layout, batch: &Vec<(Coord, Coord)>)
    requires
        old(layout).wf(),
        batch_in_cube(batch@, old(layout).width() as int),
    ensures
        final(layout).wf(),
        final(layout).width() == old(layout).width(),
        final(layout).policy() == old(layout).policy(),
        final(layout)@ == revert_batch(old(layout)@, batch@),
{
    let ghost backwards = batch@.reverse();
    let mut left: usize = batch.len();
    while left > 0
        invariant
            left <= batch.len(),
            backwards == batch@.reverse(),
            layout.wf(),
            layout.width() == old(layout).width(),
            layout.policy() == old(layout).policy(),
            batch_in_cube(batch@, layout.width() as int),
            layout@ == apply_batch(old(layout)@, backwards.take(batch.len() - left)),
        decreases left,
    {
        left = left - 1;
        let (a, b) = batch[left];
        proof {
            let done = batch.len() - left - 1;
            assert(backwards[done] == batch[left as int]);
            assert(backwards.take(done + 1).drop_last() =~= backwards.take(done));
        }
        layout.swap(a, b);
    }
    assert(backwards.take(batch.len() as int) =~= backwards);
}

/// One step of the search on a given batch: the swaps are made, and kept
/// if the cost after them is no higher than the best so far, which it then
/// replaces; otherwise they are undone. Either way the step is counted.
pub fn search_step(layout: &mut Layout, search: &mut RandomSearch, batch: &Vec<(Coord, Coord)>)
    requires
        old(layout).wf(),
        batch_in_cube(batch@, old(layout).width() as int),
        old(search).iteration < usize::MAX,
    ensures
        final(layout).wf(),
        final(layout).width() == old(layout).width(),
        final(layout).policy() == old(layout).policy(),
        same_settings(*final(search), *old(search)),
        final(search).iteration == old(search).iteration + 1,
        final(search).best_heuristic <= old(search).best_heuristic,
        total_cost(
            apply_batch(old(layout)@, batch@),
            old(layout).policy(),
            old(layout).width() as int,
        ) <= old(search).best_heuristic ==> final(layout)@ == apply_batch(old(layout)@, batch@)
            && final(search).best_heuristic == final(layout).cost(),
        total_cost(
            apply_batch(old(layout)@, batch@),
            old(layout).policy(),
            old(layout).width() as int,
        ) > old(search).best_heuristic ==> final(layout)@ == old(layout)@ && final(search).best_heuristic == old(search).best_heuristic,
{
    apply_swaps(layout, batch);
    let new_heuristic = layout.heuristic();
    if new_heuristic <= search.best_heuristic {
        search.best_heuristic = new_heuristic;
    } else {
        revert_swaps(layout, batch);
        proof {
            lemma_rollback(old(layout)@, layout.width() as int, batch@);
        }
    }
    search.iteration = search.iteration + 1;
}

/// The pair of distinct cells that a first cell and a draw among the other
/// cells stand for: the draw counts the slots of the row-major order with
/// the slot of the first cell left out.
pub fn distinct_pair(first: Coord, drawn: usize, width: usize) -> (pair: (Coord, Coord))
    requires
        2 <= width <= MAX_WIDTH,
        in_cube(first, width as int),
        drawn + 1 < cell_count(width as int),
    ensures
        pair.0 == first,
        pair.1 == cell_at(
            skip_index(linear_index(first, width as int), drawn as int),
            width as int,
        ),
        in_cube(pair.1, width as int),
        pair.1 != first,
{
    proof {
        lemma_cell_count(width as int);
    }
    let skip = linearize_within(first, width);
    let slot = if drawn >= skip {
        drawn + 1
    } else {
        drawn
    };
    let second = cell_of(slot, width);
    (first, second)
}

/// A batch of swaps drawn at random: at least one and fewer than
/// `3 * W^2`, each between two distinct cells of the cube.
fn draw_batch(rng: &mut ThreadRng, width: usize) -> (batch: Vec<(Coord, Coord)>)
    requires
        2 <= width <= MAX_WIDTH,
    ensures
        1 <= batch.len() < max_swaps(width as int),
        batch_in_cube(batch@, width as int),
        forall|i: int| 0 <= i < batch.len() ==> (#[trigger] batch[i]).0 != batch[i].1,
{
    proof {
        lemma_cell_count(width as int);
    }
    assert(4 <= width * width <= 256 && width * width * width <= 4096) by (nonlinear_arith)
        requires
            2 <= width <= 16,
    ;
    let count = width * width * width;
    let size = draw_between(rng, 1, width * width * 3);
    let mut batch: Vec<(Coord, Coord)> = Vec::new();
    let mut i: usize = 0;
    while i < size
        invariant
            i <= size,
            2 <= width <= MAX_WIDTH,
            count == cell_count(width as int),
            2 <= count <= 4096,
            batch.len() == i,
            batch_in_cube(batch@, width as int),
            forall|i: int| 0 <= i < batch.len() ==> (#[trigger] batch[i]).0 != batch[i].1,
        decreases size - i,
    {
        let x = draw_between(rng, 0, width);
        let y = draw_between(rng, 0, width);
        let z = draw_between(rng, 0, width);
        let first = Coord { x: x as i32, y: y as i32, z: z as i32 };
        let drawn = draw_between(rng, 0, count - 1);
        batch.push(distinct_pair(first, drawn, width));
        i = i + 1;
    }
    batch
}

/// One invocation of the search. The running flag is flipped first if
/// `toggle` is set. A paused search then does nothing. A running search
/// takes `per_frame` steps, each on a batch of swaps drawn at random, and
/// hands back the reports that fell due, one before every step whose
/// number is a multiple of [`PROGRESS`].
pub fn random_search(layout: &mut Layout, search: &mut RandomSearch, toggle: bool) -> (reports:
    Vec<Progress>)
    requires
        old(layout).wf(),
        old(layout).width() >= 2,
        old(search).iteration + old(search).per_frame <= usize::MAX,
    ensures
        final(layout).wf(),
        final(layout).width() == old(layout).width(),
        final(layout).policy() == old(layout).policy(),
        final(search).running == (old(search).running != toggle),
        same_settings(*final(search), (RandomSearch { running: final(search).running, ..*old(search) })),
        final(search).best_heuristic <= old(search).best_heuristic,
        !final(search).running ==> final(layout)@ == old(layout)@ && final(search).best_heuristic
            == old(search).best_heuristic && final(search).iteration == old(search).iteration
            && reports@.len() == 0,
        final(search).running ==> final(search).iteration == old(search).iteration + old(search).per_frame,
        (final(layout)@ == old(layout)@ && final(search).best_heuristic == old(search).best_heuristic) || final(layout).cost() == final(search).best_heuristic,
        final(search).running ==> reports@.len() == report_times(
            old(search).iteration as int,
            old(search).per_frame as nat,
        ).len(),
        forall|k: int|
            0 <= k < reports@.len() ==> (#[trigger] reports@[k]).iteration == report_times(
                old(search).iteration as int,
                old(search).per_frame as nat,
            )[k] && final(search).best_heuristic <= reports@[k].best_heuristic <= old(search).best_heuristic && reports@[k].initial_heuristic == old(search).initial_heuristic
                && reports@[k].linear_heuristic == old(search).linear_heuristic
                && reports@[k].morton_heuristic == old(search).morton_heuristic,
{
    let mut reports: Vec<Progress> = Vec::new();
    if toggle {
        search.running = !search.running;
    }
    if !search.running {
        return reports;
    }
    let mut rng = thread_rng();
    let width = layout.width();
    let ghost start = old(search).iteration as int;
    let mut taken: usize = 0;
    while taken < search.per_frame
        invariant
            layout.wf(),
            layout.width() == old(layout).width(),
            layout.policy() == old(layout).policy(),
            width == layout.width(),
            2 <= width <= MAX_WIDTH,
            start == old(search).iteration,
            taken <= search.per_frame,
            search.per_frame == old(search).per_frame,
            search.running,
            search.running == (old(search).running != toggle),
            same_settings(*search, (RandomSearch { running: search.running, ..*old(search) })),
            search.iteration == start + taken,
            start + search.per_frame <= usize::MAX,
            search.best_heuristic <= old(search).best_heuristic,
            (layout@ == old(layout)@ && search.best_heuristic == old(search).best_heuristic)
                || layout.cost() == search.best_heuristic,
            reports@.len() == report_times(start, taken as nat).len(),
            forall|k: int|
                0 <= k < reports@.len() ==> (#[trigger] reports@[k]).iteration == report_times(
                    start,
                    taken as nat,
                )[k] && search.best_heuristic <= reports@[k].best_heuristic <= old(search).best_heuristic && reports@[k].initial_heuristic == old(search).initial_heuristic && reports@[k].linear_heuristic == old(search).linear_heuristic && reports@[k].morton_heuristic == old(search).morton_heuristic,
        decreases search.per_frame - taken,
    {
        if search.iteration % PROGRESS == 0 {
            reports.push(search.progress());
        }
        let batch = draw_batch(&mut rng, width);
        search_step(layout, search, &batch);
        taken = taken + 1;
    }
    reports
}

/// Whether the layout is to be stored now: on request, and every
/// `save_every` steps once a step has been taken.
pub fn save_due(search: &RandomSearch, requested: bool) -> (due: bool)
    ensures
        due == (requested || (search.save_every > 0 && search.iteration != 0 && search.iteration
            % search.save_every == 0)),
{
    requested || (search.save_every > 0 && search.iteration != 0 && search.iteration
        % search.save_every == 0)
}

/// Whether a stored layout is to be loaded now: on request, and when the
/// state asks for it. The state stops asking once it has been heard.
pub fn begin_load(search: &mut RandomSearch, requested: bool) -> (due: bool)
    ensures
        due == (old(search).load || requested),
        !final(search).load || !due,
        *final(search) == (RandomSearch { load: old(search).load && !due, ..*old(search) }),
{
    if !search.load && !requested {
        return false;
    }
    search.load = false;
    true
}

/// Replaces the layout by the one that `entries` describes and starts the
/// search afresh from it: best and initial cost are those of the new
/// layout and no step has been taken. If `entries` describes no layout of
/// the cube, nothing changes and the defect is reported.
pub fn load_snapshot(
    layout: &mut Layout,
    search: &mut RandomSearch,
    entries: &Vec<(Coord, usize)>,
) -> (r: Result<(), SnapshotError>)
    requires
        old(layout).wf(),
    ensures
        final(layout).wf(),
        final(layout).width() == old(layout).width(),
        final(layout).policy() == old(layout).policy(),
        match r {
            Ok(_) => {
                &&& snapshot_defect(entries@, old(layout).width() as int) is None
                &&& forall|i: int|
                    0 <= i < entries.len() ==> final(layout)@[(#[trigger] entries[i]).0]
                        == entries[i].1
                &&& final(search).best_heuristic == final(layout).cost()
                &&& final(search).initial_heuristic == final(layout).cost()
                &&& final(search).iteration == 0
                &&& same_settings(
                    *final(search),
                    (RandomSearch {
                        initial_heuristic: final(search).initial_heuristic,
                        ..*old(search)
                    }),
                )
            },
            Err(e) => {
                &&& snapshot_defect(entries@, old(layout).width() as int) == Some(e)
                &&& final(layout)@ == old(layout)@
                &&& *final(search) == *old(search)
            },
        },
{
    match Layout::from_entries(layout.width(), layout.policy(), entries) {
        Ok(loaded) => {
            let cost = loaded.heuristic();
            *layout = loaded;
            search.best_heuristic = cost;
            search.initial_heuristic = cost;
            search.iteration = 0;
            Ok(())
        },
        Err(e) => Err(e),
    }
}

/// A stored layout read back describes the layout it was taken from: it is
/// accepted, and whatever layout it is turned into has the same mapping.
pub proof fn lemma_snapshot_round_trip(layout: Layout, listed: Seq<(Coord, usize)>, loaded: Layout)
    requires
        layout.wf(),
        assigns_cube(listed, layout.width() as int),
        forall|i: int| 0 <= i < listed.len() ==> layout@[(#[trigger] listed[i]).0] == listed[i].1,
        loaded.wf(),
        loaded.width() == layout.width(),
        forall|i: int| 0 <= i < listed.len() ==> loaded@[(#[trigger] listed[i]).0] == listed[i].1,
    ensures
        snapshot_defect(listed, layout.width() as int) is None,
        loaded@ == layout@,
{
    let w = layout.width() as int;
    lemma_no_defect(listed, w);
    lemma_assignment_covers(listed, w);
    assert forall|c: Coord| in_cube(c, w) implies #[trigger] loaded@[c] == layout@[c] by {
        assert(names_cell(listed, c));
        let i = choose|i: int| 0 <= i < listed.len() && (#[trigger] listed[i]).0 == c;
        assert(loaded@[listed[i].0] == listed[i].1);
    }
    assert(loaded@ =~= layout@);
}

/// Name of the file that holds the current layout of a run.
pub fn snapshot_path(run_name: &str, width: usize) -> (path: String)
    ensures
        path@ == "./layouts/layout-"@ + run_name@ + "-"@ + decimal(width as nat) + "^3.yml"@,
{
    let mut path = String::from_str("./layouts/layout-");
    path.append(run_name);
    path.append("-");
    path.append(decimal_text(width).as_str());
    path.append("^3.yml");
    path
}

/// Name of the file that holds the copy of the layout of a run that was
/// taken at the time `stamp`.
pub fn backup_path(run_name: &str, width: usize, stamp: &str) -> (path: String)
    ensures
        path@ == "./layouts/backup/layout-"@ + run_name@ + "-"@ + decimal(width as nat) + "^3-"@
            + stamp@ + ".yml"@,
{
    let mut path = String::from_str("./layouts/backup/layout-");
    path.append(run_name);
    path.append("-");
    path.append(decimal_text(width).as_str());
    path.append("^3-");
    path.append(stamp);
    path.append(".yml");
    path
}

} // verus!
