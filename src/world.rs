use vstd::prelude::*;

use crate::animate::Animate;
use crate::character::{animate, delta_spec, frames_in, process, routed_input, input_key, velocity_in, ElementState, Keycode, Velocity};

verus! {

/// The animation refresh rate is 7.5 Hz: a tick is due once `2 / 15` of a second
/// has passed since the last one. Times are in nanoseconds.
pub const TICK_NUMERATOR: u64 = 2_000_000_000;

/// See `TICK_NUMERATOR`.
pub const TICK_DENOMINATOR: u64 = 15;

/// The shortest whole number of nanoseconds that is at least one animation period.
pub const TICK_NANOS: u64 = 133_333_334;

/// The frame clock: when the animation last ticked, in nanoseconds on the
/// host's monotonic clock.
#[derive(Debug, Clone, Copy, PartialEq, Eq, Structural)]
pub struct DeltaTime {
    pub instant: u64,
}

impl Default for DeltaTime {
    fn default() -> (r: Self)
        ensures
            r.instant == 0,
    {
        DeltaTime { instant: 0 }
    }
}

/// How much time has passed from `last` to `now`; none where `now` is earlier.
pub open spec fn elapsed(last: u64, now: u64) -> int {
    if now >= last {
        now - last
    } else {
        0
    }
}

/// At least one animation period has passed since `last`.
pub open spec fn tick_due(last: u64, now: u64) -> bool {
    elapsed(last, now) * TICK_DENOMINATOR >= TICK_NUMERATOR
}

/// Whether the animation should tick at `now`.
pub fn is_tick_due(time: &DeltaTime, now: u64) -> (r: bool)
    ensures
        r == tick_due(time.instant, now),
{
    let passed: u64 = if now >= time.instant { now - time.instant } else { 0 };
    assert(passed >= TICK_NANOS <==> passed * 15 >= 2_000_000_000) by (nonlinear_arith);
    passed >= TICK_NANOS
}

/// How an entity is drawn.
#[derive(Debug, Clone, Copy, PartialEq, Eq, Structural)]
pub enum Drawing {
    /// A ball primitive.
    Primitive,
    /// The clip of its animation's current frame, from the sprite sheet at this
    /// index.
    Sprite(usize),
}

/// An entity: a body handle from the physics collaborator, how it is drawn,
/// and optionally an animation and the input handler that makes it controlled.
#[derive(Debug, Clone, Copy, PartialEq, Eq, Structural)]
pub struct Entity {
    pub body: u64,
    pub drawing: Drawing,
    pub animation: Option<Animate>,
    pub controlled: bool,
}

/// A raw key event from the windowing collaborator.
#[derive(Debug, Clone, Copy, PartialEq, Eq, Structural)]
pub struct KeyEvent {
    pub keycode: Option<Keycode>,
    pub state: ElementState,
}

/// A velocity to give a body.
#[derive(Debug, Clone, Copy, PartialEq, Eq, Structural)]
pub struct VelocityCommand {
    pub body: u64,
    pub velocity: Velocity,
}

/// What the rasterizer is asked to draw at a body's position.
#[derive(Debug, Clone, Copy, PartialEq, Eq, Structural)]
pub enum DrawCommand {
    Circle { body: u64 },
    Clip { body: u64, sheet: usize, state: u32, frame: u32 },
}

/// The overlap status that a proximity event reports.
#[derive(Debug, Clone, Copy, PartialEq, Eq, Structural)]
pub enum Proximity {
    Disjoint,
    WithinMargin,
    Intersecting,
}

/// Two sensor colliders changed their overlap status.
#[derive(Debug, Clone, Copy, PartialEq, Eq, Structural)]
pub struct ProximityEvent {
    pub collider1: u64,
    pub collider2: u64,
    pub new_status: Proximity,
}

/// What one frame asks of the physics collaborator and of the rasterizer, in
/// this order: set the velocities, take the sub-steps, draw.
#[derive(Debug)]
pub struct FramePlan {
    pub velocities: Vec<VelocityCommand>,
    pub substeps: u32,
    pub draws: Vec<DrawCommand>,
}

/// Every animation is within its frame count, and every sprite has an animation.
pub open spec fn entity_wf(e: Entity) -> bool {
    &&& e.animation matches Some(a) ==> a.wf()
    &&& e.drawing is Sprite ==> e.animation is Some
}

/// The entity after a key event: a controlled entity with an animation takes
/// the input the event routes to, if any; every other entity is left alone.
pub open spec fn route_entity(e: Entity, ev: KeyEvent) -> Entity {
    match e.animation {
        Some(a) => if e.controlled {
            match routed_input(ev.keycode, ev.state) {
                Some(i) => Entity { animation: Some(a.after_input(input_key(i))), ..e },
                None => e,
            }
        } else {
            e
        },
        None => e,
    }
}

/// The entities after a key event.
pub open spec fn route_all(es: Seq<Entity>, ev: KeyEvent) -> Seq<Entity> {
    Seq::new(es.len(), |i: int| route_entity(es[i], ev))
}

/// The entities after the key events, taken in order.
pub open spec fn route_events(es: Seq<Entity>, evs: Seq<KeyEvent>) -> Seq<Entity>
    decreases evs.len(),
{
    if evs.len() == 0 {
        es
    } else {
        route_all(route_events(es, evs.drop_last()), evs.last())
    }
}

/// The index of the first entity with an animation; the length where none has.
pub open spec fn first_animated(es: Seq<Entity>) -> nat
    decreases es.len(),
{
    if es.len() == 0 {
        0
    } else if es[0].animation is Some {
        0
    } else {
        1 + first_animated(es.drop_first())
    }
}

/// The animation one tick later: the frame counter advances, and starts over
/// after the last frame of its state.
pub open spec fn tick_spec(a: Animate) -> Animate {
    Animate { state: a.state, ticks: if a.ticks + 1 >= frames_in(a.state) { 0 } else { (a.ticks + 1) as u32 } }
}

/// The entity after an animation tick.
pub open spec fn tick_entity(e: Entity) -> Entity {
    match e.animation {
        Some(a) => Entity { animation: Some(tick_spec(a)), ..e },
        None => e,
    }
}

/// The draw command of an entity.
pub open spec fn draw_of(e: Entity) -> DrawCommand {
    match e.drawing {
        Drawing::Primitive => DrawCommand::Circle { body: e.body },
        Drawing::Sprite(sheet) => match e.animation {
            Some(a) => DrawCommand::Clip { body: e.body, sheet, state: a.state, frame: a.ticks },
            None => DrawCommand::Clip { body: e.body, sheet, state: 0, frame: 0 },
        },
    }
}

/// How many physics sub-steps a frame takes: one for each index in `1..nsteps`.
pub open spec fn substeps_for(nsteps: u32) -> u32 {
    if nsteps > 1 {
        (nsteps - 1) as u32
    } else {
        0
    }
}

proof fn lemma_first_animated(es: Seq<Entity>)
    ensures
        first_animated(es) <= es.len(),
        forall|i: int| 0 <= i < first_animated(es) ==> (#[trigger] es[i]).animation is None,
        first_animated(es) < es.len() ==> es[first_animated(es) as int].animation is Some,
    decreases es.len(),
{
    if es.len() > 0 && es[0].animation is None {
        lemma_first_animated(es.drop_first());
        assert forall|i: int| 0 <= i < first_animated(es) implies (#[trigger] es[i]).animation is None by {
            if i > 0 {
                assert(es[i] == es.drop_first()[i - 1]);
            }
        }
    }
}

proof fn lemma_first_animated_unique(es: Seq<Entity>, k: int)
    requires
        0 <= k <= es.len(),
        forall|i: int| 0 <= i < k ==> (#[trigger] es[i]).animation is None,
        k < es.len() ==> es[k].animation is Some,
    ensures
        first_animated(es) == k,
    decreases es.len(),
{
    if es.len() > 0 && k > 0 {
        assert(es[0].animation is None);
        assert forall|i: int| 0 <= i < k - 1 implies (#[trigger] es.drop_first()[i]).animation is None by {
            assert(es.drop_first()[i] == es[i + 1]);
        }
        lemma_first_animated_unique(es.drop_first(), k - 1);
    }
}

/// The animation after `n` ticks.
pub open spec fn ticks_after(a: Animate, n: nat) -> Animate
    decreases n,
{
    if n == 0 {
        a
    } else {
        tick_spec(ticks_after(a, (n - 1) as nat))
    }
}

/// However many ticks an animation takes, it keeps its state and its frame
/// counter stays below the frame count of that state.
pub proof fn lemma_ticks_bounded(a: Animate, n: nat)
    requires
        a.wf(),
    ensures
        ticks_after(a, n).wf(),
        ticks_after(a, n).state == a.state,
    decreases n,
{
    if n > 0 {
        lemma_ticks_bounded(a, (n - 1) as nat);
    }
}

proof fn lemma_route_keeps_shape(es: Seq<Entity>, evs: Seq<KeyEvent>)
    ensures
        route_events(es, evs).len() == es.len(),
        forall|i: int| 0 <= i < es.len() ==> {
            &&& (#[trigger] route_events(es, evs)[i]).animation is Some <==> es[i].animation is Some
            &&& route_events(es, evs)[i].controlled == es[i].controlled
            &&& route_events(es, evs)[i].body == es[i].body
        },
    decreases evs.len(),
{
    if evs.len() > 0 {
        lemma_route_keeps_shape(es, evs.drop_last());
    }
}

/// Within a frame, key events are routed before the animation ticks: when the
/// last event of the frame gives the controlled entity an input, the velocity
/// of its tick is that of the state the input leads to.
pub proof fn lemma_input_seen_by_tick(es: Seq<Entity>, evs: Seq<KeyEvent>, ev: KeyEvent)
    requires
        first_animated(es) < es.len(),
        es[first_animated(es) as int].controlled,
        routed_input(ev.keycode, ev.state) is Some,
    ensures
        ({
            let before = route_events(es, evs);
            let routed = route_events(es, evs.push(ev));
            let k = first_animated(es) as int;
            &&& first_animated(routed) == k
            &&& routed[k].body == es[k].body
            &&& routed[k].animation->0.state == delta_spec(
                before[k].animation->0.state,
                input_key(routed_input(ev.keycode, ev.state)->0),
            )
            &&& velocity_in(routed[k].animation->0.state) == velocity_in(
                delta_spec(before[k].animation->0.state, input_key(routed_input(ev.keycode, ev.state)->0)),
            )
        }),
{
    let all = evs.push(ev);
    lemma_first_animated(es);
    lemma_route_keeps_shape(es, all);
    lemma_route_keeps_shape(es, evs);
    let routed = route_events(es, all);
    assert(all.drop_last() == evs);
    let k = first_animated(es) as int;
    assert forall|i: int| 0 <= i < k implies (#[trigger] routed[i]).animation is None by {
        assert(es[i].animation is None);
    }
    lemma_first_animated_unique(routed, k);
}

/// The entity store.
#[derive(Debug)]
pub struct World {
    pub entities: Vec<Entity>,
}

impl World {
    /// Every entity is well formed.
    pub open spec fn wf(&self) -> bool {
        forall|i: int| 0 <= i < self.entities@.len() ==> entity_wf(#[trigger] self.entities@[i])
    }

    /// An empty store.
    pub fn new() -> (r: World)
        ensures
            r.wf(),
            r.entities@ == Seq::<Entity>::empty(),
    {
        World { entities: Vec::new() }
    }

    /// Adds an entity at the end of the store.
    pub fn push(&mut self, entity: Entity)
        requires
            old(self).wf(),
            entity_wf(entity),
        ensures
            final(self).wf(),
            final(self).entities@ == old(self).entities@.push(entity),
    {
        self.entities.push(entity);
    }
}

/// Routes one key event to every controlled entity that has an animation.
pub fn route_input(world: &mut World, event: KeyEvent)
    requires
        old(world).wf(),
    ensures
        final(world).wf(),
        final(world).entities@ == route_all(old(world).entities@, event),
{
    let ghost start = world.entities@;
    let n = world.entities.len();
    let mut i: usize = 0;
    while i < n
        invariant
            n == start.len(),
            world.entities@.len() == n,
            i <= n,
            forall|k: int| 0 <= k < i ==> #[trigger] world.entities@[k] == route_entity(start[k], event),
            forall|k: int| i <= k < n ==> #[trigger] world.entities@[k] == start[k],
            forall|k: int| 0 <= k < n ==> entity_wf(#[trigger] start[k]),
        decreases n - i,
    {
        let mut e = world.entities[i];
        if e.controlled {
            if let Some(mut a) = e.animation {
                process(event.keycode, &event.state, &mut a);
                e.animation = Some(a);
            }
        }
        world.entities.set(i, e);
        i = i + 1;
    }
    assert(world.entities@ =~= route_all(start, event));
    assert forall|k: int| 0 <= k < n implies entity_wf(#[trigger] world.entities@[k]) by {
        assert(entity_wf(start[k]));
    }
}

/// The animation system: where a tick is due, the first entity with an
/// animation ticks, its body is given the velocity of its state, and the
/// clock is set to `now`. Returns the velocity commands.
pub fn animate_entities(world: &mut World, time: &mut DeltaTime, now: u64) -> (r: Vec<VelocityCommand>)
    requires
        old(world).wf(),
    ensures
        final(world).wf(),
        ({
            let es = old(world).entities@;
            let k = first_animated(es) as int;
            if tick_due(old(time).instant, now) && k < es.len() {
                &&& final(world).entities@ == es.update(k, tick_entity(es[k]))
                &&& r@ == seq![VelocityCommand { body: es[k].body, velocity: velocity_in(es[k].animation->0.state) }]
                &&& final(time).instant == now
            } else {
                &&& final(world).entities@ == es
                &&& r@.len() == 0
                &&& *final(time) == *old(time)
            }
        }),
{
    let ghost es = world.entities@;
    let mut commands: Vec<VelocityCommand> = Vec::new();
    if !is_tick_due(time, now) {
        return commands;
    }
    let n = world.entities.len();
    let mut k: usize = 0;
    while k < n && world.entities[k].animation.is_none()
        invariant
            es == world.entities@,
            n == es.len(),
            k <= n,
            forall|i: int| 0 <= i < k ==> (#[trigger] es[i]).animation is None,
        decreases n - k,
    {
        k = k + 1;
    }
    proof {
        lemma_first_animated_unique(es, k as int);
    }
    if k == n {
        return commands;
    }
    let mut e = world.entities[k];
    let mut a = e.animation.unwrap();
    assert(entity_wf(es[k as int]));
    let velocity = animate(&mut a);
    e.animation = Some(a);
    world.entities.set(k, e);
    time.instant = now;
    commands.push(VelocityCommand { body: e.body, velocity });
    assert(e == tick_entity(es[k as int]));
    assert forall|i: int| 0 <= i < n implies entity_wf(#[trigger] world.entities@[i]) by {
        assert(entity_wf(es[i]));
    }
    commands
}

/// The number of physics sub-steps a frame takes for a stepper configured with
/// `nsteps`.
pub fn physics_substeps(nsteps: u32) -> (r: u32)
    ensures
        r == substeps_for(nsteps),
{
    let mut count: u32 = 0;
    let mut i: u32 = 1;
    while i < nsteps
        invariant
            1 <= i,
            nsteps >= 1 ==> i <= nsteps,
            nsteps == 0 ==> i == 1,
            count == i - 1,
        decreases nsteps - i,
    {
        count = count + 1;
        i = i + 1;
    }
    count
}

/// The render system: one draw command per entity, in store order.
pub fn render_entities(world: &World) -> (r: Vec<DrawCommand>)
    ensures
        r@ == Seq::new(world.entities@.len(), |i: int| draw_of(world.entities@[i])),
{
    let mut draws: Vec<DrawCommand> = Vec::new();
    let mut i: usize = 0;
    while i < world.entities.len()
        invariant
            i <= world.entities@.len(),
            draws@ == Seq::new(i as nat, |k: int| draw_of(world.entities@[k])),
        decreases world.entities@.len() - i,
    {
        let e = world.entities[i];
        let d = match e.drawing {
            Drawing::Primitive => DrawCommand::Circle { body: e.body },
            Drawing::Sprite(sheet) => match e.animation {
                Some(a) => DrawCommand::Clip { body: e.body, sheet, state: a.state, frame: a.ticks },
                None => DrawCommand::Clip { body: e.body, sheet, state: 0, frame: 0 },
            },
        };
        draws.push(d);
        i = i + 1;
        assert(draws@ =~= Seq::new(i as nat, |k: int| draw_of(world.entities@[k])));
    }
    draws
}

/// One frame of the scheduler, in its fixed order: every pending key event is
/// routed, then the animation system runs, then the physics sub-steps are
/// counted, then the entities are drawn as they stand after the animation.
pub fn run_frame(world: &mut World, time: &mut DeltaTime, events: &Vec<KeyEvent>, now: u64, nsteps: u32) -> (r: FramePlan)
    requires
        old(world).wf(),
    ensures
        final(world).wf(),
        ({
            let routed = route_events(old(world).entities@, events@);
            let k = first_animated(routed) as int;
            if tick_due(old(time).instant, now) && k < routed.len() {
                &&& final(world).entities@ == routed.update(k, tick_entity(routed[k]))
                &&& r.velocities@ == seq![VelocityCommand { body: routed[k].body, velocity: velocity_in(routed[k].animation->0.state) }]
                &&& final(time).instant == now
            } else {
                &&& final(world).entities@ == routed
                &&& r.velocities@.len() == 0
                &&& *final(time) == *old(time)
            }
        }),
        r.substeps == substeps_for(nsteps),
        r.draws@ == Seq::new(final(world).entities@.len(), |i: int| draw_of(final(world).entities@[i])),
{
    let ghost start = world.entities@;
    let mut i: usize = 0;
    while i < events.len()
        invariant
            world.wf(),
            i <= events@.len(),
            world.entities@ == route_events(start, events@.subrange(0, i as int)),
        decreases events@.len() - i,
    {
        route_input(world, events[i]);
        i = i + 1;
        assert(events@.subrange(0, i as int).drop_last() == events@.subrange(0, i - 1));
    }
    assert(events@.subrange(0, events@.len() as int) == events@);
    let velocities = animate_entities(world, time, now);
    let substeps = physics_substeps(nsteps);
    let draws = render_entities(world);
    FramePlan { velocities, substeps, draws }
}

} // verus!
