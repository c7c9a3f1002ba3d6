//! The offline catch-up simulator: when a region that was not being
//! ticked is about to be ticked again, each stored agent's task is
//! advanced in closed form over the elapsed game hours — whole work
//! cycles are granted as resource bundles, the remainder is folded
//! back into work progress, vitals decay linearly — and the snapshot
//! timestamp moves to the current clock, which makes the computation
//! idempotent.
use vstd::prelude::*;

use crate::components::Task;
use crate::resources::{
    sat32, DwarfRegion, GameTime, GeneratedMapsRegistry, GlobalInventory, StoredDwarf,
};

verus! {

/// Hours one offline work cycle takes for each task kind; zero for
/// task kinds that do no offline work (no task, or the reserved
/// building task).
pub open spec fn cycle_hours_spec(t: Option<Task>) -> u64 {
    match t {
        Some(Task::Gathering(_)) => 2u64,
        Some(Task::Mining(_)) => 3u64,
        Some(Task::Idle) => 4u64,
        Some(Task::Wandering(_)) => 6u64,
        _ => 0u64,
    }
}

/// Exec mirror of `cycle_hours_spec`.
pub fn cycle_hours(t: &Option<Task>) -> (h: u64)
    ensures
        h == cycle_hours_spec(*t),
{
    match t {
        Some(Task::Gathering(_)) => 2,
        Some(Task::Mining(_)) => 3,
        Some(Task::Idle) => 4,
        Some(Task::Wandering(_)) => 6,
        _ => 0,
    }
}

/// Whole game hours from a stored timestamp to the current clock:
/// `(day - last_day) * 24 + hour - last_hour`, floored at zero (a
/// clock that moved backwards counts as no elapsed time) and
/// saturated at `u32::MAX`.
pub open spec fn elapsed_hours_spec(last_day: u32, last_hour: u32, day: u32, hour: u32) -> u32 {
    let e = (day - last_day) * 24 + hour - last_hour;
    if e < 0 {
        0u32
    } else if e > u32::MAX {
        u32::MAX
    } else {
        e as u32
    }
}

/// Exec mirror of `elapsed_hours_spec`.
pub fn elapsed_hours(last_day: u32, last_hour: u32, day: u32, hour: u32) -> (h: u32)
    ensures
        h == elapsed_hours_spec(last_day, last_hour, day, hour),
{
    let e: i64 = ((day as i64) - (last_day as i64)) * 24 + (hour as i64) - (last_hour as i64);
    if e < 0 {
        0
    } else if e > (u32::MAX as i64) {
        u32::MAX
    } else {
        e as u32
    }
}

/// The (wood, stone, food, metal) bundle granted for `cycles`
/// completed offline cycles of the given task kind: gathering yields
/// two wood and one food per cycle, mining two stone and one metal,
/// idling half a unit each of wood and food, wandering a third of a
/// unit of food.
pub open spec fn cycle_bundle_spec(t: Option<Task>, cycles: u64) -> (u32, u32, u32, u32) {
    match t {
        Some(Task::Gathering(_)) => (sat32(2 * cycles), 0u32, sat32(cycles as int), 0u32),
        Some(Task::Mining(_)) => (0u32, sat32(2 * cycles), 0u32, sat32(cycles as int)),
        Some(Task::Idle) => (sat32(cycles as int / 2), 0u32, sat32(cycles as int / 2), 0u32),
        Some(Task::Wandering(_)) => (0u32, 0u32, sat32(cycles as int / 3), 0u32),
        _ => (0u32, 0u32, 0u32, 0u32),
    }
}

/// Offline cycles completed in `h` hours.
pub open spec fn cycles_of(t: Option<Task>, h: u32) -> u64 {
    if cycle_hours_spec(t) == 0 {
        0u64
    } else {
        (h as u64) / cycle_hours_spec(t)
    }
}

/// The resource delta of one catch-up computation over `h` hours.
pub open spec fn work_delta_spec(t: Option<Task>, h: u32) -> (u32, u32, u32, u32) {
    cycle_bundle_spec(t, cycles_of(t, h))
}

/// The snapshot fields after `h` hours of offline work (timestamps
/// are the caller's): the remainder of the last incomplete cycle is
/// folded back into work progress, hunger decays half a point per
/// hour floored at zero, happiness a fifth of a point per hour
/// floored at 20.0.
pub open spec fn work_apply_spec(s: StoredDwarf, h: u32) -> StoredDwarf {
    let c = cycle_hours_spec(s.current_task);
    if h == 0 || c == 0 {
        s
    } else {
        StoredDwarf {
            work_progress: ((h as int) % (c as int) * (crate::PROGRESS_SCALE as int) / (
            c as int)) as u64,
            hunger: if 5 * h > s.hunger { 0u32 } else { (s.hunger - 5 * h) as u32 },
            happiness: if s.happiness < 200 + 2 * h { 200u32 } else { (s.happiness - 2 * h) as u32 },
            ..s
        }
    }
}

/// Computes one stored agent's offline work over `hours_passed`
/// whole game hours and returns the granted resource bundle as
/// (wood, stone, food, metal). Timestamps are the caller's to
/// advance.
pub fn simulate_dwarf_work(dwarf: &mut StoredDwarf, hours_passed: u32) -> (r: (u32, u32, u32, u32))
    requires
        old(dwarf).wf(),
    ensures
        final(dwarf).wf(),
        *final(dwarf) == work_apply_spec(*old(dwarf), hours_passed),
        r == work_delta_spec(old(dwarf).current_task, hours_passed),
{
    let c: u64 = cycle_hours(&dwarf.current_task);
    if hours_passed == 0 || c == 0 {
        return (0, 0, 0, 0);
    }
    let h64: u64 = hours_passed as u64;
    let cycles: u64 = h64 / c;
    let rem: u64 = h64 % c;
    proof {
        assert(c == 2 || c == 3 || c == 4 || c == 6);
        assert(rem < c) by (nonlinear_arith)
            requires rem == h64 % c && 0 < c
        ;
    }
    dwarf.work_progress = rem * crate::PROGRESS_SCALE / c;

    let hunger_loss: u64 = 5 * h64;
    if hunger_loss >= dwarf.hunger as u64 {
        dwarf.hunger = 0;
    } else {
        dwarf.hunger = dwarf.hunger - (hunger_loss as u32);
    }
    let happiness_loss: u64 = 2 * h64;
    if (dwarf.happiness as u64) < 200 + happiness_loss {
        dwarf.happiness = 200;
    } else {
        dwarf.happiness = dwarf.happiness - (happiness_loss as u32);
    }

    match &dwarf.current_task {
        Some(Task::Gathering(_)) => {
            let wood: u32 = if 2 * cycles > u32::MAX as u64 { u32::MAX } else { (2 * cycles) as u32 };
            let food: u32 = if cycles > u32::MAX as u64 { u32::MAX } else { cycles as u32 };
            (wood, 0, food, 0)
        }
        Some(Task::Mining(_)) => {
            let stone: u32 = if 2 * cycles > u32::MAX as u64 { u32::MAX } else { (2 * cycles) as u32 };
            let metal: u32 = if cycles > u32::MAX as u64 { u32::MAX } else { cycles as u32 };
            (0, stone, 0, metal)
        }
        Some(Task::Idle) => {
            let half: u64 = cycles / 2;
            let amount: u32 = if half > u32::MAX as u64 { u32::MAX } else { half as u32 };
            (amount, 0, amount, 0)
        }
        Some(Task::Wandering(_)) => {
            let third: u64 = cycles / 3;
            let amount: u32 = if third > u32::MAX as u64 { u32::MAX } else { third as u32 };
            (0, 0, amount, 0)
        }
        _ => (0, 0, 0, 0),
    }
}

/// One agent's snapshot caught up to the current clock: the work of
/// the elapsed hours applied and the timestamp advanced. With zero
/// elapsed time the snapshot is untouched.
pub open spec fn catch_up_state(s: StoredDwarf, day: u32, hour: u32) -> StoredDwarf {
    let h = elapsed_hours_spec(s.last_update_day, s.last_update_hour, day, hour);
    if h == 0 {
        s
    } else {
        StoredDwarf { last_update_day: day, last_update_hour: hour, ..work_apply_spec(s, h) }
    }
}

/// The resource delta of catching one agent up to the current clock.
pub open spec fn catch_up_delta(s: StoredDwarf, day: u32, hour: u32) -> (u32, u32, u32, u32) {
    work_delta_spec(
        s.current_task,
        elapsed_hours_spec(s.last_update_day, s.last_update_hour, day, hour),
    )
}

/// The ledger after catching up every agent of the sequence in order.
pub open spec fn apply_catch_up(
    inv: GlobalInventory,
    s: Seq<StoredDwarf>,
    day: u32,
    hour: u32,
) -> GlobalInventory
    decreases s.len(),
{
    if s.len() == 0 {
        inv
    } else {
        apply_catch_up(inv, s.drop_last(), day, hour).plus_bundle(
            catch_up_delta(s.last(), day, hour),
        )
    }
}

/// Catch-up pass for one region's stored agents: advances every
/// snapshot to the current clock and adds every granted bundle to the
/// shared inventory.
pub fn simulate_offscreen_dwarves(
    dwarves: &mut Vec<StoredDwarf>,
    game_time: &GameTime,
    inventory: &mut GlobalInventory,
)
    requires
        forall|i: int| 0 <= i < old(dwarves)@.len() ==> (#[trigger] old(dwarves)@[i]).wf(),
        game_time.wf(),
    ensures
        final(dwarves)@.len() == old(dwarves)@.len(),
        forall|i: int| 0 <= i < old(dwarves)@.len() ==> #[trigger] final(dwarves)@[i]
            == catch_up_state(old(dwarves)@[i], game_time.day, game_time.hour),
        forall|i: int| 0 <= i < final(dwarves)@.len() ==> (#[trigger] final(dwarves)@[i]).wf(),
        *final(inventory) == apply_catch_up(
            *old(inventory),
            old(dwarves)@,
            game_time.day,
            game_time.hour,
        ),
{
    let day = game_time.day;
    let hour = game_time.hour;
    let mut done: Vec<StoredDwarf> = Vec::new();
    while dwarves.len() > 0
        invariant
            day == game_time.day,
            hour == game_time.hour,
            hour < 24,
            forall|i: int| 0 <= i < old(dwarves)@.len() ==> (#[trigger] old(dwarves)@[i]).wf(),
            done@.len() + dwarves@.len() == old(dwarves)@.len(),
            dwarves@ == old(dwarves)@.skip(done@.len() as int),
            forall|i: int| 0 <= i < done@.len() ==> #[trigger] done@[i] == catch_up_state(
                old(dwarves)@[i],
                day,
                hour,
            ),
            forall|i: int| 0 <= i < done@.len() ==> (#[trigger] done@[i]).wf(),
            *inventory == apply_catch_up(
                *old(inventory),
                old(dwarves)@.take(done@.len() as int),
                day,
                hour,
            ),
        decreases dwarves@.len(),
    {
        let ghost k = done@.len() as int;
        proof {
            assert(dwarves@[0] == old(dwarves)@[k]);
        }
        let mut d = dwarves.remove(0);
        let ghost pre = d;
        let h = elapsed_hours(d.last_update_day, d.last_update_hour, day, hour);
        if h > 0 {
            d.last_update_day = day;
            d.last_update_hour = hour;
            let delta = simulate_dwarf_work(&mut d, h);
            inventory.add_bundle(delta);
        }
        proof {
            assert(d == catch_up_state(pre, day, hour));
            assert(old(dwarves)@.take(k + 1).drop_last() =~= old(dwarves)@.take(k));
            assert(old(dwarves)@.take(k + 1).last() == pre);
            assert(dwarves@ =~= old(dwarves)@.skip(k + 1));
        }
        done.push(d);
    }
    proof {
        assert(old(dwarves)@.take(old(dwarves)@.len() as int) =~= old(dwarves)@);
    }
    *dwarves = done;
}

/// The ledger after catching up every region of the sequence.
pub open spec fn apply_catch_up_regions(
    inv: GlobalInventory,
    regs: Seq<DwarfRegion>,
    day: u32,
    hour: u32,
) -> GlobalInventory
    decreases regs.len(),
{
    if regs.len() == 0 {
        inv
    } else {
        apply_catch_up(
            apply_catch_up_regions(inv, regs.drop_last(), day, hour),
            regs.last().dwarves@,
            day,
            hour,
        )
    }
}

/// Every stored agent of every region is well formed.
pub open spec fn regions_wf(regs: Seq<DwarfRegion>) -> bool {
    forall|k: int, i: int|
        0 <= k < regs.len() && 0 <= i < regs[k].dwarves@.len() ==> (
        #[trigger] regs[k].dwarves@[i]).wf()
}

/// `after` is `before` with every region's agents caught up to the
/// clock, regions kept in place under their coordinates.
pub open spec fn regions_caught_up(
    before: Seq<DwarfRegion>,
    after: Seq<DwarfRegion>,
    day: u32,
    hour: u32,
) -> bool {
    &&& after.len() == before.len()
    &&& forall|k: int| 0 <= k < before.len() ==> (#[trigger] after[k]).coord == before[k].coord
    &&& forall|k: int| 0 <= k < before.len() ==> (#[trigger] after[k]).dwarves@.len()
        == before[k].dwarves@.len()
    &&& forall|k: int, i: int|
        0 <= k < before.len() && 0 <= i < before[k].dwarves@.len() ==> (
        #[trigger] after[k].dwarves@[i]) == catch_up_state(before[k].dwarves@[i], day, hour)
}

/// Catch-up pass over every stored agent of every unloaded region:
/// each snapshot is advanced individually and all granted bundles
/// land in the one shared inventory.
pub fn simulate_all_offscreen_dwarves(
    registry: &mut GeneratedMapsRegistry,
    game_time: &GameTime,
    inventory: &mut GlobalInventory,
)
    requires
        regions_wf(old(registry).dwarves@),
        game_time.wf(),
    ensures
        regions_caught_up(
            old(registry).dwarves@,
            final(registry).dwarves@,
            game_time.day,
            game_time.hour,
        ),
        *final(inventory) == apply_catch_up_regions(
            *old(inventory),
            old(registry).dwarves@,
            game_time.day,
            game_time.hour,
        ),
{
    let day = game_time.day;
    let hour = game_time.hour;
    let ghost before = old(registry).dwarves@;
    let mut done: Vec<DwarfRegion> = Vec::new();
    while registry.dwarves.len() > 0
        invariant
            day == game_time.day,
            hour == game_time.hour,
            game_time.wf(),
            before == old(registry).dwarves@,
            regions_wf(before),
            done@.len() + registry.dwarves@.len() == before.len(),
            registry.dwarves@ == before.skip(done@.len() as int),
            regions_caught_up(before.take(done@.len() as int), done@, day, hour),
            *inventory == apply_catch_up_regions(
                *old(inventory),
                before.take(done@.len() as int),
                day,
                hour,
            ),
        decreases registry.dwarves@.len(),
    {
        let ghost k = done@.len() as int;
        proof {
            assert(registry.dwarves@[0] == before[k]);
        }
        let mut region = registry.dwarves.remove(0);
        simulate_offscreen_dwarves(&mut region.dwarves, game_time, inventory);
        proof {
            assert(before.take(k + 1).drop_last() =~= before.take(k));
            assert(before.take(k + 1).last() == before[k]);
            assert(registry.dwarves@ =~= before.skip(k + 1));
        }
        done.push(region);
    }
    proof {
        assert(before.take(before.len() as int) =~= before);
    }
    registry.dwarves = done;
}

/// Catch-up idempotence: catching an agent up to a clock value and
/// then catching up again at the same clock value changes nothing
/// and grants no resources, whatever the task kind and however many
/// hours the first call covered.
pub proof fn lemma_catch_up_idempotent(s: StoredDwarf, day: u32, hour: u32)
    ensures
        catch_up_state(catch_up_state(s, day, hour), day, hour) == catch_up_state(s, day, hour),
        catch_up_delta(catch_up_state(s, day, hour), day, hour) == (0u32, 0u32, 0u32, 0u32),
{
    let s1 = catch_up_state(s, day, hour);
    let h = elapsed_hours_spec(s.last_update_day, s.last_update_hour, day, hour);
    if h == 0 {
        assert(s1 == s);
    } else {
        assert(s1.last_update_day == day && s1.last_update_hour == hour);
        assert(elapsed_hours_spec(day, hour, day, hour) == 0);
    }
    assert(elapsed_hours_spec(s1.last_update_day, s1.last_update_hour, day, hour) == 0);
    assert(cycle_bundle_spec(s1.current_task, 0) == (0u32, 0u32, 0u32, 0u32));
}

} // verus!
