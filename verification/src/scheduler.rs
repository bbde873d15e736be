//! The scheduler: ordered system lists driven against the world.
//!
//! Systems register in one of two phases. Startup systems run exactly
//! once, in registration order, before the first update; update systems
//! run once per tick, in registration order. There is no transition back
//! to the startup phase. Execution is single-threaded and synchronous:
//! systems run one at a time on the calling thread.

use vstd::prelude::*;

use crate::component::copy_bytes;
use crate::entity::Entity;
use crate::world::{write_block_model, World, WorldModel};

verus! {

/// Which phase a system registers for.
#[derive(Clone, Copy, PartialEq, Eq, Structural, Debug)]
pub enum FunctionMode {
    Startup,
    Update,
}

/// Configuration the game shell is built from.
pub struct GameConfig {
    pub title: String,
}

impl Default for GameConfig {
    fn default() -> (r: GameConfig)
        ensures
            r.title@ == Seq::<char>::empty(),
    {
        GameConfig { title: String::new() }
    }
}

/// A unit of per-tick (or startup-once) logic that reads and writes the
/// world.
///
/// The contract makes every implementor a pure system: what `run` does to
/// the world is exactly the model-level `effect` of the system's current
/// state, and the system itself is left unchanged. That is what makes
/// scheduler ticks deterministic.
pub trait SystemFn: Sized {
    /// The transformation the system applies, as a function on world
    /// models.
    spec fn effect(&self, w: WorldModel) -> WorldModel;

    fn run(&mut self, world: &mut World)
        requires
            old(world)@.wf(),
        ensures
            final(world)@.wf(),
            final(world)@ == old(self).effect(old(world)@),
            *final(self) == *old(self),
    ;
}

/// Extraction of a system's argument from the world.
pub trait SystemParam: Sized {
    fn fetch(world: &World) -> Self;
}

/// A wrapper pairing a system function with the scheduler's calling
/// convention; it runs exactly as the function it wraps.
pub struct System<F: SystemFn> {
    pub func: F,
}

impl<F: SystemFn> System<F> {
    pub fn new(func: F) -> (r: System<F>)
        ensures
            r.func == func,
    {
        System { func }
    }
}

impl<F: SystemFn> SystemFn for System<F> {
    open spec fn effect(&self, w: WorldModel) -> WorldModel {
        self.func.effect(w)
    }

    fn run(&mut self, world: &mut World) {
        self.func.run(world);
    }
}

/// A system that overwrites one component's bytes each run: a minimal
/// pure system, enough to drive the scheduler against real data.
pub struct WriteComponent {
    pub target: Entity,
    pub type_id: u64,
    pub bytes: Vec<u8>,
}

impl SystemFn for WriteComponent {
    open spec fn effect(&self, w: WorldModel) -> WorldModel {
        write_block_model(w, self.target, self.type_id, self.bytes@)
    }

    fn run(&mut self, world: &mut World) {
        let bytes = copy_bytes(&self.bytes);
        let _ = world.set_component(self.target, self.type_id, bytes);
    }
}

/// The worlds a list of systems leaves behind, first system first.
pub open spec fn run_all<S: SystemFn>(systems: Seq<S>, w: WorldModel) -> WorldModel
    decreases systems.len(),
{
    if systems.len() == 0 {
        w
    } else {
        run_all(systems.drop_first(), systems[0].effect(w))
    }
}

proof fn lemma_run_all_snoc<S: SystemFn>(systems: Seq<S>, x: S, w: WorldModel)
    ensures
        run_all(systems.push(x), w) == x.effect(run_all(systems, w)),
    decreases systems.len(),
{
    if systems.len() == 0 {
        assert(systems.push(x)[0] == x);
        assert(systems.push(x).drop_first() =~= Seq::<S>::empty());
        assert(run_all(systems.push(x), w) == run_all(Seq::<S>::empty(), x.effect(w)));
        assert(run_all(systems, w) == w);
    } else {
        assert(systems.push(x)[0] == systems[0]);
        assert(systems.push(x).drop_first() =~= systems.drop_first().push(x));
        assert(run_all(systems.push(x), w) == run_all(
            systems.drop_first().push(x),
            systems[0].effect(w),
        ));
        lemma_run_all_snoc(systems.drop_first(), x, systems[0].effect(w));
        assert(run_all(systems, w) == run_all(systems.drop_first(), systems[0].effect(w)));
    }
}

/// Law: a tick is a function of the system list and the world alone.
/// Running the same ordered list of (pure) systems against equal worlds
/// leaves equal worlds; nothing else feeds in.
pub proof fn lemma_run_all_deterministic<S: SystemFn>(
    systems: Seq<S>,
    w1: WorldModel,
    w2: WorldModel,
)
    requires
        w1 == w2,
    ensures
        run_all(systems, w1) == run_all(systems, w2),
{
}

/// Holds the ordered system lists of both phases and drives them against
/// the world.
pub struct Scheduler<S: SystemFn> {
    startup: Vec<S>,
    update: Vec<S>,
}

impl<S: SystemFn> Scheduler<S> {
    pub closed spec fn startup_systems(&self) -> Seq<S> {
        self.startup@
    }

    pub closed spec fn update_systems(&self) -> Seq<S> {
        self.update@
    }

    pub fn new() -> (r: Scheduler<S>)
        ensures
            r.startup_systems() == Seq::<S>::empty(),
            r.update_systems() == Seq::<S>::empty(),
    {
        Scheduler { startup: Vec::new(), update: Vec::new() }
    }

    /// Appends a system to the list of the given phase; order of
    /// registration is order of execution.
    pub fn add_system(&mut self, mode: FunctionMode, system: S)
        ensures
            match mode {
                FunctionMode::Startup => final(self).startup_systems() == old(
                    self,
                ).startup_systems().push(system) && final(self).update_systems() == old(
                    self,
                ).update_systems(),
                FunctionMode::Update => final(self).update_systems() == old(
                    self,
                ).update_systems().push(system) && final(self).startup_systems() == old(
                    self,
                ).startup_systems(),
            },
    {
        match mode {
            FunctionMode::Startup => self.startup.push(system),
            FunctionMode::Update => self.update.push(system),
        }
    }

    fn run_list(list: &mut Vec<S>, world: &mut World)
        requires
            old(world)@.wf(),
        ensures
            final(world)@.wf(),
            final(world)@ == run_all(old(list)@, old(world)@),
            final(list)@ == old(list)@,
    {
        let ghost w0 = world@;
        let n = list.len();
        proof {
            assert(old(list)@.take(0) =~= Seq::<S>::empty());
        }
        for i in 0..n
            invariant
                n == list@.len(),
                list@ == old(list)@,
                world@.wf(),
                world@ == run_all(old(list)@.take(i as int), w0),
        {
            let ghost list_pre = list@;
            list[i].run(world);
            proof {
                assert(list@ =~= list_pre);
                assert(old(list)@.take(i + 1) =~= old(list)@.take(i as int).push(
                    old(list)@[i as int],
                ));
                lemma_run_all_snoc(old(list)@.take(i as int), old(list)@[i as int], w0);
            }
        }
        proof {
            assert(old(list)@.take(n as int) =~= old(list)@);
        }
    }

    /// Runs the startup list once, in registration order, and drains it:
    /// a second call finds the list empty and does nothing.
    pub fn run_startup(&mut self, world: &mut World)
        requires
            old(world)@.wf(),
        ensures
            final(world)@.wf(),
            final(world)@ == run_all(old(self).startup_systems(), old(world)@),
            final(self).startup_systems() == Seq::<S>::empty(),
            final(self).update_systems() == old(self).update_systems(),
    {
        Self::run_list(&mut self.startup, world);
        self.startup.clear();
        proof {
            assert(self.startup@ =~= Seq::<S>::empty());
        }
    }

    /// Runs the update list once, in registration order; repeatable every
    /// tick, and each tick transforms the world by the same function of
    /// the list.
    pub fn run_update(&mut self, world: &mut World)
        requires
            old(world)@.wf(),
        ensures
            final(world)@.wf(),
            final(world)@ == run_all(old(self).update_systems(), old(world)@),
            final(self).startup_systems() == old(self).startup_systems(),
            final(self).update_systems() == old(self).update_systems(),
    {
        Self::run_list(&mut self.update, world);
    }

    /// One driver step: any startup systems still pending run first (and
    /// are drained), then the update list runs once.
    pub fn run(&mut self, world: &mut World)
        requires
            old(world)@.wf(),
        ensures
            final(world)@.wf(),
            final(world)@ == run_all(
                old(self).update_systems(),
                run_all(old(self).startup_systems(), old(world)@),
            ),
            final(self).startup_systems() == Seq::<S>::empty(),
            final(self).update_systems() == old(self).update_systems(),
    {
        self.run_startup(world);
        self.run_update(world);
    }
}

} // verus!
