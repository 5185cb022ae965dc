use crate::canvas::{Canvas, DrawOp};
use crate::common::Sharable;
use crate::context::Context;
use crate::layouts::{MultiChildLayout, State, StatefulLayout, StatelessLayout};
use crate::models::{Box2D, Event, Signal};
use crate::nodes::Node;
use crate::view::View;
use vstd::prelude::*;
use vstd::view::View as _;

verus! {

/// What went wrong on a pass. The pass skips the view it could not visit and
/// goes on.
#[derive(Copy, Clone, Debug, PartialEq, Eq, Structural)]
pub enum Fault {
    /// A view lay deeper than the engine's limit.
    TooDeep,
    /// A child named a shared slot that does not exist, or whose view was
    /// being visited already.
    Vacant(usize),
}

/// What an engine holds, as plain values.
pub struct EngineView<St, V> {
    /// The state kept under each key.
    pub states: Map<Seq<char>, St>,
    /// The shared slots; `None` while the slot's view is being visited.
    pub shared: Seq<Option<V>>,
    /// The faults of the passes so far that were not yet taken out.
    pub faults: Seq<Fault>,
}

impl<St, V> EngineView<St, V> {
    /// This engine with `state` under `key`.
    pub open spec fn with_state(self, key: Seq<char>, state: St) -> Self {
        EngineView { states: self.states.insert(key, state), ..self }
    }

    /// This engine with `content` in the shared slot `slot`.
    pub open spec fn with_slot(self, slot: int, content: Option<V>) -> Self {
        EngineView { shared: self.shared.update(slot, content), ..self }
    }

    /// This engine with one more fault.
    pub open spec fn with_fault(self, fault: Fault) -> Self {
        EngineView { faults: self.faults.push(fault), ..self }
    }

    /// Whether `later` has a state for each key that this engine has one
    /// for, and as many shared slots.
    pub open spec fn kept_by(self, later: Self) -> bool {
        &&& self.states.dom().subset_of(later.states.dom())
        &&& self.shared.len() == later.shared.len()
    }
}

/// True of every value. The steps of a pass name the values that lie between
/// them through it.
pub open spec fn stage<A>(between: A) -> bool {
    true
}

/// The place of `key` among `keys`, where it is there.
pub open spec fn place_of(keys: Seq<String>, key: Seq<char>) -> int {
    choose|i: int| 0 <= i < keys.len() && (#[trigger] keys[i])@ == key
}

/// Whether `key` is among `keys`.
pub open spec fn has_key(keys: Seq<String>, key: Seq<char>) -> bool {
    exists|i: int| 0 <= i < keys.len() && (#[trigger] keys[i])@ == key
}

/// The store of the states that outlive a frame, one per key, and of the
/// views that several parents share. `St` is the type of the states, `V`
/// that of the views.
///
/// A state is made when its key is met for the first time, and stays until
/// the engine goes.
pub struct Engine<St, V> {
    keys: Vec<String>,
    states: Vec<St>,
    shared: Vec<Option<V>>,
    faults: Vec<Fault>,
    max_depth: usize,
}

impl<St, V> vstd::view::View for Engine<St, V> {
    type V = EngineView<St, V>;

    closed spec fn view(&self) -> EngineView<St, V> {
        EngineView {
            states: Map::new(
                |key: Seq<char>| has_key(self.keys@, key),
                |key: Seq<char>| self.states@[place_of(self.keys@, key)],
            ),
            shared: self.shared@,
            faults: self.faults@,
        }
    }
}

impl<St, V> Engine<St, V> {
    /// Each key stands once, beside its state.
    pub closed spec fn wf(&self) -> bool {
        &&& self.keys@.len() == self.states@.len()
        &&& forall|i: int, j: int|
            0 <= i < self.keys@.len() && 0 <= j < self.keys@.len() && i != j ==> (
            #[trigger] self.keys@[i])@ != (#[trigger] self.keys@[j])@
    }

    /// How deep below the root a pass goes.
    pub closed spec fn depth_limit(&self) -> nat {
        self.max_depth as nat
    }

    /// How deep below the root a pass goes.
    pub fn max_depth(&self) -> (depth: usize)
        ensures
            depth == self.depth_limit(),
    {
        self.max_depth
    }

    /// An empty engine whose passes go `max_depth` views deep.
    pub fn new(max_depth: usize) -> (engine: Self)
        ensures
            engine.wf(),
            engine.depth_limit() == max_depth,
            engine@.states == Map::<Seq<char>, St>::empty(),
            engine@.shared == Seq::<Option<V>>::empty(),
            engine@.faults == Seq::<Fault>::empty(),
    {
        let engine = Engine {
            keys: Vec::new(),
            states: Vec::new(),
            shared: Vec::new(),
            faults: Vec::new(),
            max_depth,
        };
        assert(engine@.states =~= Map::<Seq<char>, St>::empty());
        engine
    }

    /// The place of the key `key`, if a state is kept under it.
    fn find(&self, key: &String) -> (place: Option<usize>)
        requires
            self.wf(),
        ensures
            match place {
                Some(i) => i < self.keys@.len() && self.keys@[i as int]@ == key@ && place_of(
                    self.keys@,
                    key@,
                ) == i && self@.states.contains_key(key@),
                None => !self@.states.contains_key(key@),
            },
    {
        let mut i: usize = 0;
        while i < self.keys.len()
            invariant
                self.wf(),
                i <= self.keys@.len(),
                forall|j: int| 0 <= j < i ==> (#[trigger] self.keys@[j])@ != key@,
            decreases self.keys@.len() - i,
        {
            if self.keys[i] == *key {
                return Some(i);
            }
            i += 1;
        }
        None
    }

    /// Whether a state is kept under `key`.
    pub fn has_state(&self, key: &str) -> (known: bool)
        requires
            self.wf(),
        ensures
            known == self@.states.contains_key(key@),
    {
        let key = key.to_owned();
        self.find(&key).is_some()
    }

    /// The state kept under `key`, if there is one.
    pub fn state(&self, key: &str) -> (state: Option<&St>)
        requires
            self.wf(),
        ensures
            match state {
                Some(found) => self@.states.contains_key(key@) && *found == self@.states[key@],
                None => !self@.states.contains_key(key@),
            },
    {
        let key = key.to_owned();
        match self.find(&key) {
            Some(i) => Some(&self.states[i]),
            None => None,
        }
    }

    /// How many states are kept.
    pub fn state_count(&self) -> (n: usize)
        requires
            self.wf(),
        ensures
            n == self@.states.dom().len(),
            self@.states.dom().finite(),
    {
        proof {
            self.lemma_count();
        }
        self.keys.len()
    }

    proof fn lemma_count(&self)
        requires
            self.wf(),
        ensures
            self@.states.dom().finite(),
            self@.states.dom().len() == self.keys@.len(),
    {
        let names = self.keys@.map_values(|k: String| k@);
        assert(names.no_duplicates());
        names.unique_seq_to_set();
        assert(names.to_set() =~= self@.states.dom()) by {
            assert forall|key: Seq<char>| names.to_set().contains(key) implies has_key(
                self.keys@,
                key,
            ) by {
                let i = choose|i: int| 0 <= i < names.len() && names[i] == key;
                assert(self.keys@[i]@ == key);
            }
            assert forall|key: Seq<char>| has_key(self.keys@, key) implies names.to_set().contains(
                key,
            ) by {
                let i = place_of(self.keys@, key);
                assert(names[i] == key);
            }
        }
    }

    /// Changing the state at one place changes the state under that place's
    /// key, and nothing else.
    proof fn lemma_state_changed(&self, after: Self, place: int)
        requires
            self.wf(),
            0 <= place < self.states@.len(),
            after.keys == self.keys,
            after.states@ == self.states@.update(place, after.states@[place]),
            after.shared == self.shared,
            after.faults == self.faults,
            after.max_depth == self.max_depth,
        ensures
            after.wf(),
            after@ == self@.with_state(self.keys@[place]@, after.states@[place]),
    {
        let key = self.keys@[place]@;
        assert(after@.states =~= self@.states.insert(key, after.states@[place])) by {
            assert forall|k: Seq<char>| has_key(self.keys@, k) implies #[trigger] after@.states[k]
                == self@.states.insert(key, after.states@[place])[k] by {
                let i = place_of(self.keys@, k);
                if k == key {
                    assert(i == place);
                } else {
                    assert(i != place);
                }
            }
        }
    }

    /// Pushing a new key with its state adds the state under that key, and
    /// changes nothing else.
    proof fn lemma_state_added(&self, after: Self, key: Seq<char>, state: St)
        requires
            self.wf(),
            !self@.states.contains_key(key),
            after.keys@.len() == self.keys@.len() + 1,
            after.keys@.drop_last() == self.keys@,
            after.keys@.last()@ == key,
            after.states@ == self.states@.push(state),
            after.shared == self.shared,
            after.faults == self.faults,
            after.max_depth == self.max_depth,
        ensures
            after.wf(),
            after@ == self@.with_state(key, state),
            place_of(after.keys@, key) == self.keys@.len(),
    {
        let n = self.keys@.len() as int;
        assert forall|i: int| 0 <= i < n implies #[trigger] after.keys@[i] == self.keys@[i] by {
            assert(after.keys@.drop_last()[i] == after.keys@[i]);
        }
        assert forall|i: int| 0 <= i < n implies (#[trigger] after.keys@[i])@ != key by {
            assert(self.keys@[i]@ != key);
        }
        assert(after.keys@[n]@ == key);
        assert(after.wf());
        assert(after@.states =~= self@.states.insert(key, state)) by {
            assert forall|k: Seq<char>| has_key(after.keys@, k) <==> (has_key(self.keys@, k) || k
                == key) by {
                if has_key(after.keys@, k) {
                    let i = place_of(after.keys@, k);
                    if i < n {
                        assert(self.keys@[i]@ == k);
                    }
                }
                if has_key(self.keys@, k) {
                    let i = place_of(self.keys@, k);
                    assert(after.keys@[i]@ == k);
                }
            }
            assert forall|k: Seq<char>| has_key(after.keys@, k) implies #[trigger] after@.states[k]
                == self@.states.insert(key, state)[k] by {
                let i = place_of(after.keys@, k);
                if k != key {
                    let j = place_of(self.keys@, k);
                    assert(after.keys@[j]@ == k);
                    assert(i == j);
                }
            }
        }
    }

    /// Puts `view` into a fresh shared slot, and gives the child that names
    /// it. The view stays in the slot for good; any number of parents may
    /// hand out copies of the child.
    pub fn share(&mut self, view: V) -> (child: Sharable<V>)
        requires
            old(self).wf(),
        ensures
            final(self).wf(),
            final(self).depth_limit() == old(self).depth_limit(),
            child == Sharable::<V>::Shared(old(self)@.shared.len() as usize),
            final(self)@ == (EngineView {
                shared: old(self)@.shared.push(Some(view)),
                ..old(self)@
            }),
    {
        let slot = self.shared.len();
        self.shared.push(Some(view));
        assert(self@.states =~= old(self)@.states);
        Sharable::Shared(slot)
    }

    /// Hands out the faults of the passes so far, oldest first, and forgets
    /// them.
    pub fn take_faults(&mut self) -> (faults: Vec<Fault>)
        requires
            old(self).wf(),
        ensures
            final(self).wf(),
            final(self).depth_limit() == old(self).depth_limit(),
            faults@ == old(self)@.faults,
            final(self)@ == (EngineView { faults: Seq::empty(), ..old(self)@ }),
    {
        let mut faults: Vec<Fault> = Vec::new();
        std::mem::swap(&mut faults, &mut self.faults);
        assert(self@.states =~= old(self)@.states);
        faults
    }
}

impl<St, V> Default for Engine<St, V> {
    /// An empty engine whose passes go as deep as the machine can count.
    fn default() -> (engine: Self)
        ensures
            engine.wf(),
            engine.depth_limit() == usize::MAX,
            engine@.states == Map::<Seq<char>, St>::empty(),
            engine@.shared == Seq::<Option<V>>::empty(),
            engine@.faults == Seq::<Fault>::empty(),
    {
        Engine::new(usize::MAX)
    }
}

impl<L, S, M, N, St> Engine<St, View<L, S, M, N>> where
    L: StatelessLayout<View<L, S, M, N>>,
    S: StatefulLayout<St>,
    M: MultiChildLayout<View<L, S, M, N>>,
    N: Node,
    St: State<View<L, S, M, N>>,
 {
    /// Whether handing `signal` to `view` and to all below it, `depth` views
    /// deep at most, may turn `view`, `engine` and `context` into
    /// `view_after`, `engine_after` and `context_after`.
    ///
    /// A leaf reacts. A layout first has its children visited, in the order
    /// in which it made them, and reacts last. A stateful layout reacts
    /// through the state kept under its key, which is made first where the
    /// key is new. A view at depth zero is not visited: the engine notes the
    /// fault.
    pub open spec fn delivered(
        view: View<L, S, M, N>,
        engine: EngineView<St, View<L, S, M, N>>,
        context: Context,
        signal: Signal,
        depth: nat,
        view_after: View<L, S, M, N>,
        engine_after: EngineView<St, View<L, S, M, N>>,
        context_after: Context,
    ) -> bool
        decreases depth, 1nat, 0nat,
    {
        if depth == 0 {
            &&& view_after == view
            &&& context_after == context
            &&& engine_after == engine.with_fault(Fault::TooDeep)
        } else {
            match view {
                View::Node(node) => {
                    &&& view_after matches View::Node(node_after)
                    &&& node.reacts(context, signal, *node_after, context_after)
                    &&& engine_after == engine
                },
                View::StatelessLayout(layout) => {
                    &&& view_after matches View::StatelessLayout(layout_after)
                    &&& exists|
                        child: Option<Sharable<View<L, S, M, N>>>,
                        context_mid: Context,
                    |
                        {
                            &&& #[trigger] stage((child, context_mid))
                            &&& layout.makes(Box2D::no_constraint(), child)
                            &&& Self::delivered_to_child(
                                child,
                                engine,
                                context,
                                signal,
                                (depth - 1) as nat,
                                engine_after,
                                context_mid,
                            )
                            &&& layout.reacts(context_mid, signal, *layout_after, context_after)
                        }
                },
                View::MultiChildLayout(layout) => {
                    &&& view_after matches View::MultiChildLayout(layout_after)
                    &&& exists|children: Seq<Sharable<View<L, S, M, N>>>, context_mid: Context|
                        {
                            &&& #[trigger] stage((children, context_mid))
                            &&& layout.makes(Box2D::no_constraint(), children)
                            &&& Self::delivered_to_each(
                                children,
                                0,
                                engine,
                                context,
                                signal,
                                (depth - 1) as nat,
                                engine_after,
                                context_mid,
                            )
                            &&& layout.reacts(context_mid, signal, *layout_after, context_after)
                        }
                },
                View::StatefulLayout(layout) => {
                    &&& view_after matches View::StatefulLayout(layout_after)
                    &&& exists|
                        key: Seq<char>,
                        ready: EngineView<St, View<L, S, M, N>>,
                        child: Option<Sharable<View<L, S, M, N>>>,
                        engine_mid: EngineView<St, View<L, S, M, N>>,
                        context_mid: Context,
                    |
                        {
                            &&& #[trigger] stage((key, ready, child, engine_mid, context_mid))
                            &&& layout.keyed(key)
                            &&& Self::state_ready(*layout, engine, key, *layout_after, ready)
                            &&& ready.states[key].makes(Box2D::no_constraint(), child)
                            &&& Self::delivered_to_child(
                                child,
                                ready,
                                context,
                                signal,
                                (depth - 1) as nat,
                                engine_mid,
                                context_mid,
                            )
                            &&& engine_mid.states.contains_key(key)
                            &&& exists|state_after: St|
                                {
                                    &&& #[trigger] stage(state_after)
                                    &&& engine_mid.states[key].reacts(
                                        context_mid,
                                        signal,
                                        state_after,
                                        context_after,
                                    )
                                    &&& engine_after == engine_mid.with_state(key, state_after)
                                }
                        }
                },
            }
        }
    }

    /// Hands an input event to `view` and to all below it: to the children
    /// first, in the order in which their parent made them, and to each
    /// parent after its children.
    pub fn on_event(
        &mut self,
        view: &mut View<L, S, M, N>,
        context: &mut Context,
        event: &Event,
    )
        requires
            old(self).wf(),
        ensures
            final(self).wf(),
            final(self).depth_limit() == old(self).depth_limit(),
            old(self)@.kept_by(final(self)@),
            Self::delivered(
                *old(view),
                old(self)@,
                *old(context),
                Signal::Event(*event),
                old(self).depth_limit(),
                *final(view),
                final(self)@,
                *final(context),
            ),
    {
        let depth = self.max_depth;
        self.deliver(view, context, Signal::Event(*event), depth);
    }

    /// Lets `dt` microseconds pass for `view` and for all below it: for the
    /// children first, in the order in which their parent made them, and for
    /// each parent after its children.
    pub fn tick(&mut self, view: &mut View<L, S, M, N>, context: &mut Context, dt: u64)
        requires
            old(self).wf(),
        ensures
            final(self).wf(),
            final(self).depth_limit() == old(self).depth_limit(),
            old(self)@.kept_by(final(self)@),
            Self::delivered(
                *old(view),
                old(self)@,
                *old(context),
                Signal::Tick(dt),
                old(self).depth_limit(),
                *final(view),
                final(self)@,
                *final(context),
            ),
    {
        let depth = self.max_depth;
        self.deliver(view, context, Signal::Tick(dt), depth);
    }

    /// Hands `signal` to `view` and to all below it, `depth` views deep at
    /// most.
    pub fn deliver(
        &mut self,
        view: &mut View<L, S, M, N>,
        context: &mut Context,
        signal: Signal,
        depth: usize,
    )
        requires
            old(self).wf(),
        ensures
            final(self).wf(),
            final(self).depth_limit() == old(self).depth_limit(),
            old(self)@.kept_by(final(self)@),
            Self::delivered(
                *old(view),
                old(self)@,
                *old(context),
                signal,
                depth as nat,
                *final(view),
                final(self)@,
                *final(context),
            ),
        decreases depth, 1nat, 0nat,
    {
        if depth == 0 {
            self.note(Fault::TooDeep);
            return;
        }
        match view {
            View::StatelessLayout(layout) => self.deliver_to_stateless_layout(
                layout,
                context,
                signal,
                depth,
            ),
            View::StatefulLayout(layout) => self.deliver_to_stateful_layout(
                layout,
                context,
                signal,
                depth,
            ),
            View::MultiChildLayout(layout) => self.deliver_to_multi_child_layout(
                layout,
                context,
                signal,
                depth,
            ),
            View::Node(node) => {
                match signal {
                    Signal::Event(event) => node.on_event(context, &event),
                    Signal::Tick(dt) => node.tick(context, dt),
                }
            },
        }
    }

    /// Notes `fault`.
    fn note(&mut self, fault: Fault)
        requires
            old(self).wf(),
        ensures
            final(self).wf(),
            final(self).depth_limit() == old(self).depth_limit(),
            final(self)@ == old(self)@.with_fault(fault),
    {
        self.faults.push(fault);
    }

    fn deliver_to_stateless_layout(
        &mut self,
        layout: &mut Box<L>,
        context: &mut Context,
        signal: Signal,
        depth: usize,
    )
        requires
            old(self).wf(),
            depth > 0,
        ensures
            final(self).wf(),
            final(self).depth_limit() == old(self).depth_limit(),
            old(self)@.kept_by(final(self)@),
            Self::delivered(
                View::StatelessLayout(*old(layout)),
                old(self)@,
                *old(context),
                signal,
                depth as nat,
                View::StatelessLayout(*final(layout)),
                final(self)@,
                *final(context),
            ),
        decreases depth, 0nat, 0nat,
    {
        let child = layout.make(Box2D::unconstrained());
        self.deliver_to_child(child, context, signal, depth - 1);
        let ghost context_mid = *context;
        match signal {
            Signal::Event(event) => layout.on_event(context, &event),
            Signal::Tick(dt) => layout.tick(context, dt),
        }
        assert(stage((child, context_mid)));
    }

    fn deliver_to_multi_child_layout(
        &mut self,
        layout: &mut Box<M>,
        context: &mut Context,
        signal: Signal,
        depth: usize,
    )
        requires
            old(self).wf(),
            depth > 0,
        ensures
            final(self).wf(),
            final(self).depth_limit() == old(self).depth_limit(),
            old(self)@.kept_by(final(self)@),
            Self::delivered(
                View::MultiChildLayout(*old(layout)),
                old(self)@,
                *old(context),
                signal,
                depth as nat,
                View::MultiChildLayout(*final(layout)),
                final(self)@,
                *final(context),
            ),
        decreases depth, 0nat, 0nat,
    {
        let mut children = layout.make(Box2D::unconstrained());
        let ghost made = children@;
        self.deliver_to_each(&mut children, 0, context, signal, depth - 1);
        let ghost context_mid = *context;
        match signal {
            Signal::Event(event) => layout.on_event(context, &event),
            Signal::Tick(dt) => layout.tick(context, dt),
        }
        assert(stage((made, context_mid)));
    }

    fn deliver_to_stateful_layout(
        &mut self,
        layout: &mut Box<S>,
        context: &mut Context,
        signal: Signal,
        depth: usize,
    )
        requires
            old(self).wf(),
            depth > 0,
        ensures
            final(self).wf(),
            final(self).depth_limit() == old(self).depth_limit(),
            old(self)@.kept_by(final(self)@),
            Self::delivered(
                View::StatefulLayout(*old(layout)),
                old(self)@,
                *old(context),
                signal,
                depth as nat,
                View::StatefulLayout(*final(layout)),
                final(self)@,
                *final(context),
            ),
        decreases depth, 0nat, 0nat,
    {
        let key = layout.get_key().to_owned();
        let place = self.place_state(layout, &key);
        let ghost ready = self@;
        let child = self.states[place].make(Box2D::unconstrained());
        self.deliver_to_child(child, context, signal, depth - 1);
        let ghost engine_mid = self@;
        let ghost context_mid = *context;
        let place = match self.find(&key) {
            Some(place) => place,
            None => {
                proof {
                    assert(ready.states.dom().contains(key@));
                    assert(false);
                }
                return;
            },
        };
        let ghost before = *self;
        match signal {
            Signal::Event(event) => self.states[place].on_event(context, &event),
            Signal::Tick(dt) => self.states[place].tick(context, dt),
        }
        proof {
            before.lemma_state_changed(*self, place as int);
            assert(stage(self.states@[place as int]));
            assert(stage((key@, ready, child, engine_mid, context_mid)));
        }
    }

    /// Finds the state kept under `key`, or has `layout` make one and keeps
    /// it under `key`. Gives the place of the state.
    fn place_state(&mut self, layout: &mut Box<S>, key: &String) -> (place: usize)
        requires
            old(self).wf(),
        ensures
            final(self).wf(),
            final(self).depth_limit() == old(self).depth_limit(),
            old(self)@.kept_by(final(self)@),
            Self::state_ready(**old(layout), old(self)@, key@, **final(layout), final(self)@),
            place < final(self).states@.len(),
            final(self)@.states.contains_key(key@),
            final(self)@.states[key@] == final(self).states@[place as int],
    {
        match self.find(key) {
            Some(place) => place,
            None => {
                let state = layout.make_state();
                let ghost before = *self;
                self.keys.push(key.clone());
                self.states.push(state);
                proof {
                    assert(self.keys@.drop_last() =~= before.keys@);
                    before.lemma_state_added(*self, key@, state);
                    assert(stage(state));
                }
                self.states.len() - 1
            },
        }
    }

    fn deliver_to_child(
        &mut self,
        child: Option<Sharable<View<L, S, M, N>>>,
        context: &mut Context,
        signal: Signal,
        depth: usize,
    )
        requires
            old(self).wf(),
        ensures
            final(self).wf(),
            final(self).depth_limit() == old(self).depth_limit(),
            old(self)@.kept_by(final(self)@),
            Self::delivered_to_child(
                child,
                old(self)@,
                *old(context),
                signal,
                depth as nat,
                final(self)@,
                *final(context),
            ),
        decreases depth, 3nat, 0nat,
    {
        match child {
            Some(mut sharable) => self.deliver_to_sharable(&mut sharable, context, signal, depth),
            None => {},
        }
    }

    fn deliver_to_each(
        &mut self,
        children: &mut Vec<Sharable<View<L, S, M, N>>>,
        from: usize,
        context: &mut Context,
        signal: Signal,
        depth: usize,
    )
        requires
            old(self).wf(),
        ensures
            final(self).wf(),
            final(self).depth_limit() == old(self).depth_limit(),
            old(self)@.kept_by(final(self)@),
            final(children)@.len() == old(children)@.len(),
            forall|i: int| 0 <= i < from && i < old(children)@.len() ==> final(children)@[i] == old(
                children,
            )@[i],
            Self::delivered_to_each(
                old(children)@,
                from as nat,
                old(self)@,
                *old(context),
                signal,
                depth as nat,
                final(self)@,
                *final(context),
            ),
        decreases depth, 3nat, old(children)@.len() - from,
    {
        if from < children.len() {
            self.deliver_to_sharable(&mut children[from], context, signal, depth);
            let ghost engine_mid = self@;
            let ghost context_mid = *context;
            let ghost children_mid = children@;
            self.deliver_to_each(children, from + 1, context, signal, depth);
            proof {
                Self::lemma_each_reads_the_rest(
                    children_mid,
                    old(children)@,
                    (from + 1) as nat,
                    signal,
                    depth as nat,
                );
                assert(stage((engine_mid, context_mid)));
            }
        }
    }

    /// Hands `signal` to the view behind `sharable` and to all below it,
    /// `depth` views deep at most. An owned view is visited as it is; a
    /// shared one is taken out of its slot for the visit and put back.
    pub fn deliver_to_sharable(
        &mut self,
        sharable: &mut Sharable<View<L, S, M, N>>,
        context: &mut Context,
        signal: Signal,
        depth: usize,
    )
        requires
            old(self).wf(),
        ensures
            final(self).wf(),
            final(self).depth_limit() == old(self).depth_limit(),
            old(self)@.kept_by(final(self)@),
            Self::delivered_to_sharable(
                *old(sharable),
                old(self)@,
                *old(context),
                signal,
                depth as nat,
                final(self)@,
                *final(context),
            ),
        decreases depth, 2nat, 0nat,
    {
        match sharable {
            Sharable::Owned(view) => {
                self.deliver(view, context, signal, depth);
                assert(stage(*view));
            },
            Sharable::Shared(slot) => {
                let slot = *slot;
                match self.borrow_shared(slot) {
                    Some(mut view) => {
                        self.deliver(&mut view, context, signal, depth);
                        let ghost engine_back = self@;
                        self.give_back(slot, view);
                        assert(stage((view, engine_back)));
                    },
                    None => self.note(Fault::Vacant(slot)),
                }
            },
        }
    }

    /// Takes the view out of the shared slot `slot`, where the slot exists
    /// and holds one.
    fn borrow_shared(&mut self, slot: usize) -> (view: Option<View<L, S, M, N>>)
        requires
            old(self).wf(),
        ensures
            final(self).wf(),
            final(self).depth_limit() == old(self).depth_limit(),
            match view {
                Some(taken) => {
                    &&& slot < old(self)@.shared.len()
                    &&& old(self)@.shared[slot as int] == Some(taken)
                    &&& final(self)@ == old(self)@.with_slot(slot as int, None)
                },
                None => {
                    &&& !(slot < old(self)@.shared.len() && old(self)@.shared[slot as int] is Some)
                    &&& final(self)@ == old(self)@
                },
            },
    {
        if slot < self.shared.len() {
            let mut taken: Option<View<L, S, M, N>> = None;
            std::mem::swap(&mut taken, &mut self.shared[slot]);
            assert(self.shared@ =~= old(self).shared@.update(slot as int, None));
            proof {
                if taken is None {
                    assert(self.shared@ =~= old(self).shared@);
                }
            }
            taken
        } else {
            None
        }
    }

    /// Puts `view` back into the shared slot `slot`.
    fn give_back(&mut self, slot: usize, view: View<L, S, M, N>)
        requires
            old(self).wf(),
            slot < old(self)@.shared.len(),
        ensures
            final(self).wf(),
            final(self).depth_limit() == old(self).depth_limit(),
            final(self)@ == old(self)@.with_slot(slot as int, Some(view)),
    {
        self.shared.set(slot, Some(view));
    }

    /// Whether looking up `key` for `layout` may leave the layout as
    /// `layout_after` and the engine as `ready`: where a state is kept under
    /// the key, nothing changes; else the layout makes one, and the engine
    /// keeps it under the key.
    pub open spec fn state_ready(
        layout: S,
        engine: EngineView<St, View<L, S, M, N>>,
        key: Seq<char>,
        layout_after: S,
        ready: EngineView<St, View<L, S, M, N>>,
    ) -> bool {
        if engine.states.contains_key(key) {
            layout_after == layout && ready == engine
        } else {
            exists|state: St|
                {
                    &&& #[trigger] stage(state)
                    &&& layout.makes_state(layout_after, state)
                    &&& ready == engine.with_state(key, state)
                }
        }
    }

    /// Whether handing `signal` to `child`, where there is one, may turn
    /// `engine` and `context` into `engine_after` and `context_after`.
    pub open spec fn delivered_to_child(
        child: Option<Sharable<View<L, S, M, N>>>,
        engine: EngineView<St, View<L, S, M, N>>,
        context: Context,
        signal: Signal,
        depth: nat,
        engine_after: EngineView<St, View<L, S, M, N>>,
        context_after: Context,
    ) -> bool
        decreases depth, 3nat, 0nat,
    {
        match child {
            None => engine_after == engine && context_after == context,
            Some(sharable) => Self::delivered_to_sharable(
                sharable,
                engine,
                context,
                signal,
                depth,
                engine_after,
                context_after,
            ),
        }
    }

    /// Whether handing `signal` to the children of `children` from place
    /// `from` on, one after the other, may turn `engine` and `context` into
    /// `engine_after` and `context_after`.
    pub open spec fn delivered_to_each(
        children: Seq<Sharable<View<L, S, M, N>>>,
        from: nat,
        engine: EngineView<St, View<L, S, M, N>>,
        context: Context,
        signal: Signal,
        depth: nat,
        engine_after: EngineView<St, View<L, S, M, N>>,
        context_after: Context,
    ) -> bool
        decreases depth, 3nat, children.len() - from,
    {
        if from >= children.len() {
            engine_after == engine && context_after == context
        } else {
            exists|engine_mid: EngineView<St, View<L, S, M, N>>, context_mid: Context|
                {
                    &&& #[trigger] stage((engine_mid, context_mid))
                    &&& Self::delivered_to_sharable(
                        children[from as int],
                        engine,
                        context,
                        signal,
                        depth,
                        engine_mid,
                        context_mid,
                    )
                    &&& Self::delivered_to_each(
                        children,
                        from + 1,
                        engine_mid,
                        context_mid,
                        signal,
                        depth,
                        engine_after,
                        context_after,
                    )
                }
        }
    }

    /// Whether handing `signal` to the view behind `sharable` may turn
    /// `engine` and `context` into `engine_after` and `context_after`.
    ///
    /// An owned view is visited. A shared view is taken out of its slot,
    /// visited, and put back; where the slot does not exist or is empty,
    /// the engine notes the fault and nothing else happens.
    pub open spec fn delivered_to_sharable(
        sharable: Sharable<View<L, S, M, N>>,
        engine: EngineView<St, View<L, S, M, N>>,
        context: Context,
        signal: Signal,
        depth: nat,
        engine_after: EngineView<St, View<L, S, M, N>>,
        context_after: Context,
    ) -> bool
        decreases depth, 2nat, 0nat,
    {
        match sharable {
            Sharable::Owned(view) => exists|view_after: View<L, S, M, N>|
                {
                    &&& #[trigger] stage(view_after)
                    &&& Self::delivered(
                        view,
                        engine,
                        context,
                        signal,
                        depth,
                        view_after,
                        engine_after,
                        context_after,
                    )
                },
            Sharable::Shared(slot) => if slot < engine.shared.len() && engine.shared[slot as int]
                is Some {
                exists|view_after: View<L, S, M, N>, engine_back: EngineView<St, View<L, S, M, N>>|
                    {
                        &&& #[trigger] stage((view_after, engine_back))
                        &&& Self::delivered(
                            engine.shared[slot as int]->0,
                            engine.with_slot(slot as int, None),
                            context,
                            signal,
                            depth,
                            view_after,
                            engine_back,
                            context_after,
                        )
                        &&& engine_after == engine_back.with_slot(slot as int, Some(view_after))
                    }
            } else {
                engine_after == engine.with_fault(Fault::Vacant(slot)) && context_after == context
            },
        }
    }

    /// Draws `view` and all below it into `constraint`. A layout with one
    /// child draws what goes under the child, then the child, then what goes
    /// over it, and nothing at all where it has no child. A layout with many
    /// children draws them between its two layers, each in the room the ones
    /// before it have left.
    pub fn draw_view(
        &mut self,
        view: &mut View<L, S, M, N>,
        canvas: &mut Canvas,
        constraint: Box2D,
    )
        requires
            old(self).wf(),
        ensures
            final(self).wf(),
            final(self).depth_limit() == old(self).depth_limit(),
            old(self)@.kept_by(final(self)@),
            Self::drawn(
                *old(view),
                old(self)@,
                old(canvas)@,
                constraint,
                old(self).depth_limit(),
                *final(view),
                final(self)@,
                final(canvas)@,
            ),
    {
        let depth = self.max_depth;
        self.draw(view, canvas, constraint, depth);
    }

    /// Draws `view` and all below it into `constraint`, `depth` views deep
    /// at most.
    pub fn draw(
        &mut self,
        view: &mut View<L, S, M, N>,
        canvas: &mut Canvas,
        constraint: Box2D,
        depth: usize,
    )
        requires
            old(self).wf(),
        ensures
            final(self).wf(),
            final(self).depth_limit() == old(self).depth_limit(),
            old(self)@.kept_by(final(self)@),
            Self::drawn(
                *old(view),
                old(self)@,
                old(canvas)@,
                constraint,
                depth as nat,
                *final(view),
                final(self)@,
                final(canvas)@,
            ),
        decreases depth, 1nat, 0nat,
    {
        if depth == 0 {
            self.note(Fault::TooDeep);
            return;
        }
        match view {
            View::StatelessLayout(layout) => self.draw_stateless_layout(
                layout,
                canvas,
                constraint,
                depth,
            ),
            View::StatefulLayout(layout) => self.draw_stateful_layout(
                layout,
                canvas,
                constraint,
                depth,
            ),
            View::MultiChildLayout(layout) => self.draw_multi_child_layout(
                layout,
                canvas,
                constraint,
                depth,
            ),
            View::Node(node) => node.draw(canvas, constraint),
        }
    }

    fn draw_stateless_layout(
        &mut self,
        layout: &Box<L>,
        canvas: &mut Canvas,
        constraint: Box2D,
        depth: usize,
    )
        requires
            old(self).wf(),
            depth > 0,
        ensures
            final(self).wf(),
            final(self).depth_limit() == old(self).depth_limit(),
            old(self)@.kept_by(final(self)@),
            Self::drawn(
                View::StatelessLayout(*layout),
                old(self)@,
                old(canvas)@,
                constraint,
                depth as nat,
                View::StatelessLayout(*layout),
                final(self)@,
                final(canvas)@,
            ),
        decreases depth, 0nat, 0nat,
    {
        match layout.make(constraint) {
            Some(mut sharable) => {
                let ghost made = sharable;
                layout.pre_draw(canvas, constraint);
                let ghost canvas_before = canvas@;
                let seen = self.draw_sharable(&mut sharable, canvas, constraint, depth - 1);
                let ghost canvas_mid = canvas@;
                layout.post_draw(canvas, constraint);
                assert(stage((Some(made), canvas_before, seen@, canvas_mid)));
            },
            None => {
                assert(stage(
                    (None::<Sharable<View<L, S, M, N>>>, canvas@, None::<View<L, S, M, N>>, canvas@),
                ));
            },
        }
    }

    fn draw_stateful_layout(
        &mut self,
        layout: &mut Box<S>,
        canvas: &mut Canvas,
        constraint: Box2D,
        depth: usize,
    )
        requires
            old(self).wf(),
            depth > 0,
        ensures
            final(self).wf(),
            final(self).depth_limit() == old(self).depth_limit(),
            old(self)@.kept_by(final(self)@),
            Self::drawn(
                View::StatefulLayout(*old(layout)),
                old(self)@,
                old(canvas)@,
                constraint,
                depth as nat,
                View::StatefulLayout(*final(layout)),
                final(self)@,
                final(canvas)@,
            ),
        decreases depth, 0nat, 0nat,
    {
        let key = layout.get_key().to_owned();
        let place = self.place_state(layout, &key);
        let ghost ready = self@;
        match self.states[place].make(constraint) {
            Some(mut sharable) => {
                let ghost made = sharable;
                self.states[place].pre_draw(canvas, constraint);
                let ghost canvas_before = canvas@;
                let seen = self.draw_sharable(&mut sharable, canvas, constraint, depth - 1);
                let ghost canvas_mid = canvas@;
                let place = match self.find(&key) {
                    Some(place) => place,
                    None => {
                        proof {
                            assert(ready.states.dom().contains(key@));
                            assert(false);
                        }
                        return;
                    },
                };
                self.states[place].post_draw(canvas, constraint);
                assert(stage((key@, ready, Some(made), canvas_before, seen@, canvas_mid)));
            },
            None => {
                assert(stage(
                    (
                        key@,
                        ready,
                        None::<Sharable<View<L, S, M, N>>>,
                        canvas@,
                        None::<View<L, S, M, N>>,
                        canvas@,
                    ),
                ));
            },
        }
    }

    fn draw_multi_child_layout(
        &mut self,
        layout: &Box<M>,
        canvas: &mut Canvas,
        constraint: Box2D,
        depth: usize,
    )
        requires
            old(self).wf(),
            depth > 0,
        ensures
            final(self).wf(),
            final(self).depth_limit() == old(self).depth_limit(),
            old(self)@.kept_by(final(self)@),
            Self::drawn(
                View::MultiChildLayout(*layout),
                old(self)@,
                old(canvas)@,
                constraint,
                depth as nat,
                View::MultiChildLayout(*layout),
                final(self)@,
                final(canvas)@,
            ),
        decreases depth, 0nat, 0nat,
    {
        layout.pre_draw(canvas, constraint);
        let ghost canvas_before = canvas@;
        let mut children = layout.make(constraint);
        let ghost made = children@;
        self.draw_each(layout, &mut children, 0, canvas, constraint, depth - 1);
        let ghost canvas_mid = canvas@;
        layout.post_draw(canvas, constraint);
        assert(stage((made, canvas_before, canvas_mid)));
    }

    fn draw_each(
        &mut self,
        layout: &Box<M>,
        children: &mut Vec<Sharable<View<L, S, M, N>>>,
        from: usize,
        canvas: &mut Canvas,
        room: Box2D,
        depth: usize,
    )
        requires
            old(self).wf(),
        ensures
            final(self).wf(),
            final(self).depth_limit() == old(self).depth_limit(),
            old(self)@.kept_by(final(self)@),
            final(children)@.len() == old(children)@.len(),
            forall|i: int| 0 <= i < from && i < old(children)@.len() ==> final(children)@[i] == old(
                children,
            )@[i],
            Self::drawn_each(
                **layout,
                old(children)@,
                from as nat,
                room,
                old(self)@,
                old(canvas)@,
                depth as nat,
                final(self)@,
                final(canvas)@,
            ),
        decreases depth, 3nat, old(children)@.len() - from,
    {
        if from < children.len() {
            let (seen, left) = self.draw_one_of_many(
                layout,
                &mut children[from],
                canvas,
                room,
                depth,
            );
            let ghost engine_mid = self@;
            let ghost canvas_mid = canvas@;
            let ghost children_mid = children@;
            self.draw_each(layout, children, from + 1, canvas, left, depth);
            proof {
                Self::lemma_each_draws_the_rest(
                    **layout,
                    children_mid,
                    old(children)@,
                    (from + 1) as nat,
                    depth as nat,
                );
                assert(stage((seen@, engine_mid, canvas_mid, left)));
            }
        }
    }

    /// Draws one child of a layout with many, and asks the layout what room
    /// the child leaves. A child that could not be visited leaves all of it.
    fn draw_one_of_many(
        &mut self,
        layout: &Box<M>,
        sharable: &mut Sharable<View<L, S, M, N>>,
        canvas: &mut Canvas,
        room: Box2D,
        depth: usize,
    ) -> (found: (Ghost<Option<View<L, S, M, N>>>, Box2D))
        requires
            old(self).wf(),
        ensures
            final(self).wf(),
            final(self).depth_limit() == old(self).depth_limit(),
            old(self)@.kept_by(final(self)@),
            Self::drawn_sharable(
                *old(sharable),
                old(self)@,
                old(canvas)@,
                room,
                depth as nat,
                found.0@,
                final(self)@,
                final(canvas)@,
            ),
            Self::room_left(**layout, room, found.0@, found.1),
        decreases depth, 2nat, 1nat,
    {
        match sharable {
            Sharable::Owned(view) => {
                self.draw(view, canvas, room, depth);
                let left = layout.calc_rect_left(room, view);
                (Ghost(Some(*view)), left)
            },
            Sharable::Shared(slot) => {
                let slot = *slot;
                match self.borrow_shared(slot) {
                    Some(mut view) => {
                        self.draw(&mut view, canvas, room, depth);
                        let ghost engine_back = self@;
                        let left = layout.calc_rect_left(room, &view);
                        let ghost seen = view;
                        self.give_back(slot, view);
                        assert(stage(engine_back));
                        (Ghost(Some(seen)), left)
                    },
                    None => {
                        self.note(Fault::Vacant(slot));
                        (Ghost(None), room)
                    },
                }
            },
        }
    }

    /// Draws the view behind `sharable` and all below it into `constraint`,
    /// `depth` views deep at most. An owned view is drawn as it is; a shared
    /// one is taken out of its slot for the drawing and put back.
    pub fn draw_sharable(
        &mut self,
        sharable: &mut Sharable<View<L, S, M, N>>,
        canvas: &mut Canvas,
        constraint: Box2D,
        depth: usize,
    ) -> (seen: Ghost<Option<View<L, S, M, N>>>)
        requires
            old(self).wf(),
        ensures
            final(self).wf(),
            final(self).depth_limit() == old(self).depth_limit(),
            old(self)@.kept_by(final(self)@),
            Self::drawn_sharable(
                *old(sharable),
                old(self)@,
                old(canvas)@,
                constraint,
                depth as nat,
                seen@,
                final(self)@,
                final(canvas)@,
            ),
        decreases depth, 2nat, 0nat,
    {
        match sharable {
            Sharable::Owned(view) => {
                self.draw(view, canvas, constraint, depth);
                Ghost(Some(*view))
            },
            Sharable::Shared(slot) => {
                let slot = *slot;
                match self.borrow_shared(slot) {
                    Some(mut view) => {
                        self.draw(&mut view, canvas, constraint, depth);
                        let ghost engine_back = self@;
                        let ghost seen = view;
                        self.give_back(slot, view);
                        assert(stage(engine_back));
                        Ghost(Some(seen))
                    },
                    None => {
                        self.note(Fault::Vacant(slot));
                        Ghost(None)
                    },
                }
            },
        }
    }

    /// Whether drawing `view` and all below it into `constraint`, `depth`
    /// views deep at most, may turn `view`, `engine` and the orders `canvas`
    /// into `view_after`, `engine_after` and `canvas_after`.
    ///
    /// A leaf paints. A layout with one child paints its lower layer, has
    /// the child drawn into the same room, and paints its upper layer; where
    /// it makes no child, nothing is drawn. A stateful layout does so through
    /// the state kept under its key, which is made first where the key is
    /// new. A layout with many children paints its lower layer, has each
    /// child drawn into the room the ones before it left, and paints its
    /// upper layer. A view at depth zero is not drawn: the engine notes the
    /// fault.
    pub open spec fn drawn(
        view: View<L, S, M, N>,
        engine: EngineView<St, View<L, S, M, N>>,
        canvas: Seq<DrawOp>,
        constraint: Box2D,
        depth: nat,
        view_after: View<L, S, M, N>,
        engine_after: EngineView<St, View<L, S, M, N>>,
        canvas_after: Seq<DrawOp>,
    ) -> bool
        decreases depth, 1nat, 0nat,
    {
        if depth == 0 {
            &&& view_after == view
            &&& canvas_after == canvas
            &&& engine_after == engine.with_fault(Fault::TooDeep)
        } else {
            match view {
                View::Node(node) => {
                    &&& view_after == view
                    &&& node.paints(constraint, canvas, canvas_after)
                    &&& engine_after == engine
                },
                View::StatelessLayout(layout) => {
                    &&& view_after == view
                    &&& exists|
                        child: Option<Sharable<View<L, S, M, N>>>,
                        canvas_before: Seq<DrawOp>,
                        seen: Option<View<L, S, M, N>>,
                        canvas_mid: Seq<DrawOp>,
                    |
                        {
                            &&& #[trigger] stage((child, canvas_before, seen, canvas_mid))
                            &&& layout.makes(constraint, child)
                            &&& match child {
                                None => canvas_after == canvas && engine_after == engine,
                                Some(sharable) => {
                                    &&& layout.paints_before(constraint, canvas, canvas_before)
                                    &&& Self::drawn_sharable(
                                        sharable,
                                        engine,
                                        canvas_before,
                                        constraint,
                                        (depth - 1) as nat,
                                        seen,
                                        engine_after,
                                        canvas_mid,
                                    )
                                    &&& layout.paints_after(constraint, canvas_mid, canvas_after)
                                },
                            }
                        }
                },
                View::MultiChildLayout(layout) => {
                    &&& view_after == view
                    &&& exists|
                        children: Seq<Sharable<View<L, S, M, N>>>,
                        canvas_before: Seq<DrawOp>,
                        canvas_mid: Seq<DrawOp>,
                    |
                        {
                            &&& #[trigger] stage((children, canvas_before, canvas_mid))
                            &&& layout.paints_before(constraint, canvas, canvas_before)
                            &&& layout.makes(constraint, children)
                            &&& Self::drawn_each(
                                *layout,
                                children,
                                0,
                                constraint,
                                engine,
                                canvas_before,
                                (depth - 1) as nat,
                                engine_after,
                                canvas_mid,
                            )
                            &&& layout.paints_after(constraint, canvas_mid, canvas_after)
                        }
                },
                View::StatefulLayout(layout) => {
                    &&& view_after matches View::StatefulLayout(layout_after)
                    &&& exists|
                        key: Seq<char>,
                        ready: EngineView<St, View<L, S, M, N>>,
                        child: Option<Sharable<View<L, S, M, N>>>,
                        canvas_before: Seq<DrawOp>,
                        seen: Option<View<L, S, M, N>>,
                        canvas_mid: Seq<DrawOp>,
                    |
                        {
                            &&& #[trigger] stage((key, ready, child, canvas_before, seen, canvas_mid))
                            &&& layout.keyed(key)
                            &&& Self::state_ready(*layout, engine, key, *layout_after, ready)
                            &&& ready.states[key].makes(constraint, child)
                            &&& match child {
                                None => canvas_after == canvas && engine_after == ready,
                                Some(sharable) => {
                                    &&& ready.states[key].paints_before(
                                        constraint,
                                        canvas,
                                        canvas_before,
                                    )
                                    &&& Self::drawn_sharable(
                                        sharable,
                                        ready,
                                        canvas_before,
                                        constraint,
                                        (depth - 1) as nat,
                                        seen,
                                        engine_after,
                                        canvas_mid,
                                    )
                                    &&& engine_after.states.contains_key(key)
                                    &&& engine_after.states[key].paints_after(
                                        constraint,
                                        canvas_mid,
                                        canvas_after,
                                    )
                                },
                            }
                        }
                },
            }
        }
    }

    /// Whether, of the room `room`, `left` may be what a child leaves that
    /// was drawn and is now `seen`. A child that could not be visited leaves
    /// all of it.
    pub open spec fn room_left(
        layout: M,
        room: Box2D,
        seen: Option<View<L, S, M, N>>,
        left: Box2D,
    ) -> bool {
        match seen {
            Some(child) => layout.narrows(room, child, left),
            None => left == room,
        }
    }

    /// Whether drawing the children of `children` from place `from` on, the
    /// first of them into `room` and each next one into what is left, may
    /// turn `engine` and the orders `canvas` into `engine_after` and
    /// `canvas_after`.
    pub open spec fn drawn_each(
        layout: M,
        children: Seq<Sharable<View<L, S, M, N>>>,
        from: nat,
        room: Box2D,
        engine: EngineView<St, View<L, S, M, N>>,
        canvas: Seq<DrawOp>,
        depth: nat,
        engine_after: EngineView<St, View<L, S, M, N>>,
        canvas_after: Seq<DrawOp>,
    ) -> bool
        decreases depth, 3nat, children.len() - from,
    {
        if from >= children.len() {
            engine_after == engine && canvas_after == canvas
        } else {
            exists|
                seen: Option<View<L, S, M, N>>,
                engine_mid: EngineView<St, View<L, S, M, N>>,
                canvas_mid: Seq<DrawOp>,
                left: Box2D,
            |
                {
                    &&& #[trigger] stage((seen, engine_mid, canvas_mid, left))
                    &&& Self::drawn_sharable(
                        children[from as int],
                        engine,
                        canvas,
                        room,
                        depth,
                        seen,
                        engine_mid,
                        canvas_mid,
                    )
                    &&& Self::room_left(layout, room, seen, left)
                    &&& Self::drawn_each(
                        layout,
                        children,
                        from + 1,
                        left,
                        engine_mid,
                        canvas_mid,
                        depth,
                        engine_after,
                        canvas_after,
                    )
                }
        }
    }

    /// Whether drawing the view behind `sharable` into `constraint` may turn
    /// `engine` and the orders `canvas` into `engine_after` and
    /// `canvas_after`, with `seen` the view as it is afterwards.
    ///
    /// An owned view is drawn. A shared view is taken out of its slot, drawn,
    /// and put back; where the slot does not exist or is empty, the engine
    /// notes the fault, nothing is drawn, and `seen` is `None`.
    pub open spec fn drawn_sharable(
        sharable: Sharable<View<L, S, M, N>>,
        engine: EngineView<St, View<L, S, M, N>>,
        canvas: Seq<DrawOp>,
        constraint: Box2D,
        depth: nat,
        seen: Option<View<L, S, M, N>>,
        engine_after: EngineView<St, View<L, S, M, N>>,
        canvas_after: Seq<DrawOp>,
    ) -> bool
        decreases depth, 2nat, 0nat,
    {
        match sharable {
            Sharable::Owned(view) => {
                &&& seen matches Some(view_after)
                &&& Self::drawn(
                    view,
                    engine,
                    canvas,
                    constraint,
                    depth,
                    view_after,
                    engine_after,
                    canvas_after,
                )
            },
            Sharable::Shared(slot) => if slot < engine.shared.len() && engine.shared[slot as int]
                is Some {
                &&& seen matches Some(view_after)
                &&& exists|engine_back: EngineView<St, View<L, S, M, N>>|
                    {
                        &&& #[trigger] stage(engine_back)
                        &&& Self::drawn(
                            engine.shared[slot as int]->0,
                            engine.with_slot(slot as int, None),
                            canvas,
                            constraint,
                            depth,
                            view_after,
                            engine_back,
                            canvas_after,
                        )
                        &&& engine_after == engine_back.with_slot(slot as int, Some(view_after))
                    }
            } else {
                &&& seen is None
                &&& engine_after == engine.with_fault(Fault::Vacant(slot))
                &&& canvas_after == canvas
            },
        }
    }

    /// What drawing the children from place `from` on does depends on those
    /// children alone.
    pub proof fn lemma_each_draws_the_rest(
        layout: M,
        children: Seq<Sharable<View<L, S, M, N>>>,
        others: Seq<Sharable<View<L, S, M, N>>>,
        from: nat,
        depth: nat,
    )
        requires
            children.len() == others.len(),
            forall|i: int| from <= i < children.len() ==> children[i] == others[i],
        ensures
            forall|
                room: Box2D,
                engine: EngineView<St, View<L, S, M, N>>,
                canvas: Seq<DrawOp>,
                engine_after: EngineView<St, View<L, S, M, N>>,
                canvas_after: Seq<DrawOp>,
            |
                #![auto]
                Self::drawn_each(
                    layout,
                    children,
                    from,
                    room,
                    engine,
                    canvas,
                    depth,
                    engine_after,
                    canvas_after,
                ) == Self::drawn_each(
                    layout,
                    others,
                    from,
                    room,
                    engine,
                    canvas,
                    depth,
                    engine_after,
                    canvas_after,
                ),
        decreases children.len() - from,
    {
        if from < children.len() {
            Self::lemma_each_draws_the_rest(layout, children, others, from + 1, depth);
            assert(children[from as int] == others[from as int]);
            assert forall|
                room: Box2D,
                engine: EngineView<St, View<L, S, M, N>>,
                canvas: Seq<DrawOp>,
                engine_after: EngineView<St, View<L, S, M, N>>,
                canvas_after: Seq<DrawOp>,
            |
                #![auto]
                Self::drawn_each(
                    layout,
                    children,
                    from,
                    room,
                    engine,
                    canvas,
                    depth,
                    engine_after,
                    canvas_after,
                ) == Self::drawn_each(
                    layout,
                    others,
                    from,
                    room,
                    engine,
                    canvas,
                    depth,
                    engine_after,
                    canvas_after,
                ) by {
                Self::lemma_each_draws_one_way(
                    layout,
                    children,
                    others,
                    from,
                    from + 1,
                    depth,
                    room,
                    engine,
                    canvas,
                    engine_after,
                    canvas_after,
                );
                Self::lemma_each_draws_one_way(
                    layout,
                    others,
                    children,
                    from,
                    from + 1,
                    depth,
                    room,
                    engine,
                    canvas,
                    engine_after,
                    canvas_after,
                );
            }
        }
    }

    proof fn lemma_each_draws_one_way(
        layout: M,
        children: Seq<Sharable<View<L, S, M, N>>>,
        others: Seq<Sharable<View<L, S, M, N>>>,
        from: nat,
        next: nat,
        depth: nat,
        room: Box2D,
        engine: EngineView<St, View<L, S, M, N>>,
        canvas: Seq<DrawOp>,
        engine_after: EngineView<St, View<L, S, M, N>>,
        canvas_after: Seq<DrawOp>,
    )
        requires
            from < children.len(),
            next == from + 1,
            children.len() == others.len(),
            children[from as int] == others[from as int],
            forall|
                room: Box2D,
                engine: EngineView<St, View<L, S, M, N>>,
                canvas: Seq<DrawOp>,
                engine_after: EngineView<St, View<L, S, M, N>>,
                canvas_after: Seq<DrawOp>,
            |
                #![auto]
                Self::drawn_each(
                    layout,
                    children,
                    next,
                    room,
                    engine,
                    canvas,
                    depth,
                    engine_after,
                    canvas_after,
                ) == Self::drawn_each(
                    layout,
                    others,
                    next,
                    room,
                    engine,
                    canvas,
                    depth,
                    engine_after,
                    canvas_after,
                ),
        ensures
            Self::drawn_each(
                layout,
                children,
                from,
                room,
                engine,
                canvas,
                depth,
                engine_after,
                canvas_after,
            ) ==> Self::drawn_each(
                layout,
                others,
                from,
                room,
                engine,
                canvas,
                depth,
                engine_after,
                canvas_after,
            ),
    {
        if Self::drawn_each(
            layout,
            children,
            from,
            room,
            engine,
            canvas,
            depth,
            engine_after,
            canvas_after,
        ) {
            let (seen, engine_mid, canvas_mid, left) = choose|
                seen: Option<View<L, S, M, N>>,
                engine_mid: EngineView<St, View<L, S, M, N>>,
                canvas_mid: Seq<DrawOp>,
                left: Box2D,
            |
                {
                    &&& #[trigger] stage((seen, engine_mid, canvas_mid, left))
                    &&& Self::drawn_sharable(
                        children[from as int],
                        engine,
                        canvas,
                        room,
                        depth,
                        seen,
                        engine_mid,
                        canvas_mid,
                    )
                    &&& Self::room_left(layout, room, seen, left)
                    &&& Self::drawn_each(
                        layout,
                        children,
                        from + 1,
                        left,
                        engine_mid,
                        canvas_mid,
                        depth,
                        engine_after,
                        canvas_after,
                    )
                };
            assert(stage((seen, engine_mid, canvas_mid, left)));
            assert(Self::drawn_each(
                layout,
                others,
                from + 1,
                left,
                engine_mid,
                canvas_mid,
                depth,
                engine_after,
                canvas_after,
            ));
        }
    }

    /// Whether `signal` may turn `leaf` into some leaf, and `context` into
    /// `context_after`.
    pub open spec fn leaf_reacted(
        leaf: N,
        context: Context,
        signal: Signal,
        context_after: Context,
    ) -> bool {
        exists|after: N| #[trigger] stage(after) && leaf.reacts(context, signal, after, context_after)
    }

    /// A signal reaches the leaves of a layout with many children, however
    /// many they are, in the order in which the layout made them, and the
    /// layout last. The contexts given back say so: the first is the one the
    /// pass began with, each leaf reacts from one to the next, and the layout
    /// reacts from the last. The engine stays as it is.
    pub proof fn lemma_leaves_react_before_their_parent(
        layout: M,
        leaves: Seq<N>,
        engine: EngineView<St, View<L, S, M, N>>,
        context: Context,
        signal: Signal,
        depth: nat,
        view_after: View<L, S, M, N>,
        engine_after: EngineView<St, View<L, S, M, N>>,
        context_after: Context,
    ) -> (steps: Seq<Context>)
        requires
            depth >= 2,
            forall|children: Seq<Sharable<View<L, S, M, N>>>| #[trigger]
                layout.makes(Box2D::no_constraint(), children) ==> children == leaves.map_values(
                    |leaf: N| Sharable::Owned(View::<L, S, M, N>::Node(Box::new(leaf))),
                ),
            Self::delivered(
                View::MultiChildLayout(Box::new(layout)),
                engine,
                context,
                signal,
                depth,
                view_after,
                engine_after,
                context_after,
            ),
        ensures
            engine_after == engine,
            view_after is MultiChildLayout,
            steps.len() == leaves.len() + 1,
            steps[0] == context,
            forall|k: int|
                0 <= k < leaves.len() ==> Self::leaf_reacted(
                    leaves[k],
                    #[trigger] steps[k],
                    signal,
                    steps[k + 1],
                ),
            layout.reacts(steps.last(), signal, *view_after->MultiChildLayout_0, context_after),
    {
        let below = (depth - 1) as nat;
        let (children, context_mid) = choose|
            children: Seq<Sharable<View<L, S, M, N>>>,
            context_mid: Context,
        |
            {
                &&& #[trigger] stage((children, context_mid))
                &&& layout.makes(Box2D::no_constraint(), children)
                &&& Self::delivered_to_each(
                    children,
                    0,
                    engine,
                    context,
                    signal,
                    below,
                    engine_after,
                    context_mid,
                )
                &&& layout.reacts(
                    context_mid,
                    signal,
                    *view_after->MultiChildLayout_0,
                    context_after,
                )
            };
        Self::lemma_leaves_react_from(
            children,
            leaves,
            0,
            engine,
            context,
            signal,
            below,
            engine_after,
            context_mid,
        )
    }

    /// The leaves from place `from` on react one after the other; see
    /// `lemma_leaves_react_before_their_parent`.
    proof fn lemma_leaves_react_from(
        children: Seq<Sharable<View<L, S, M, N>>>,
        leaves: Seq<N>,
        from: nat,
        engine: EngineView<St, View<L, S, M, N>>,
        context: Context,
        signal: Signal,
        depth: nat,
        engine_after: EngineView<St, View<L, S, M, N>>,
        context_after: Context,
    ) -> (steps: Seq<Context>)
        requires
            depth >= 1,
            from <= leaves.len(),
            children == leaves.map_values(
                |leaf: N| Sharable::Owned(View::<L, S, M, N>::Node(Box::new(leaf))),
            ),
            Self::delivered_to_each(
                children,
                from,
                engine,
                context,
                signal,
                depth,
                engine_after,
                context_after,
            ),
        ensures
            engine_after == engine,
            steps.len() == leaves.len() + 1,
            steps[from as int] == context,
            steps.last() == context_after,
            forall|k: int|
                from <= k < leaves.len() ==> Self::leaf_reacted(
                    leaves[k],
                    #[trigger] steps[k],
                    signal,
                    steps[k + 1],
                ),
        decreases leaves.len() - from,
    {
        if from >= leaves.len() {
            Seq::new(leaves.len() + 1, |k: int| context)
        } else {
            let (leaf_after, engine_mid, context_mid) = Self::lemma_leaf_reacts(
                children,
                from,
                leaves[from as int],
                engine,
                context,
                signal,
                depth,
                engine_after,
                context_after,
            );
            let later = Self::lemma_leaves_react_from(
                children,
                leaves,
                from + 1,
                engine,
                context_mid,
                signal,
                depth,
                engine_after,
                context_after,
            );
            let steps = later.update(from as int, context);
            assert(stage(leaf_after));
            assert forall|k: int| from <= k < leaves.len() implies Self::leaf_reacted(
                leaves[k],
                #[trigger] steps[k],
                signal,
                steps[k + 1],
            ) by {
                if k > from {
                    assert(steps[k] == later[k]);
                    assert(steps[k + 1] == later[k + 1]);
                } else {
                    assert(steps[k + 1] == context_mid);
                }
            }
            steps
        }
    }

    /// A signal reaches the three leaves of a layout with many children in
    /// the order in which the layout made them, and the layout last: each
    /// handler finds the context as the one before it left it.
    pub proof fn lemma_children_react_in_order(
        layout: M,
        first: N,
        second: N,
        third: N,
        engine: EngineView<St, View<L, S, M, N>>,
        context: Context,
        signal: Signal,
        depth: nat,
        view_after: View<L, S, M, N>,
        engine_after: EngineView<St, View<L, S, M, N>>,
        context_after: Context,
    )
        requires
            depth >= 2,
            forall|children: Seq<Sharable<View<L, S, M, N>>>| #[trigger]
                layout.makes(Box2D::no_constraint(), children) ==> children == seq![
                    Sharable::Owned(View::<L, S, M, N>::Node(Box::new(first))),
                    Sharable::Owned(View::<L, S, M, N>::Node(Box::new(second))),
                    Sharable::Owned(View::<L, S, M, N>::Node(Box::new(third))),
                ],
            Self::delivered(
                View::MultiChildLayout(Box::new(layout)),
                engine,
                context,
                signal,
                depth,
                view_after,
                engine_after,
                context_after,
            ),
        ensures
            engine_after == engine,
            view_after is MultiChildLayout,
            exists|
                first_after: N,
                after_first: Context,
                second_after: N,
                after_second: Context,
                third_after: N,
                after_third: Context,
            |
                {
                    &&& #[trigger] stage(
                        (
                            first_after,
                            after_first,
                            second_after,
                            after_second,
                            third_after,
                            after_third,
                        ),
                    )
                    &&& first.reacts(context, signal, first_after, after_first)
                    &&& second.reacts(after_first, signal, second_after, after_second)
                    &&& third.reacts(after_second, signal, third_after, after_third)
                    &&& layout.reacts(
                        after_third,
                        signal,
                        *view_after->MultiChildLayout_0,
                        context_after,
                    )
                },
    {
        let below = (depth - 1) as nat;
        let (children, after_third) = choose|
            children: Seq<Sharable<View<L, S, M, N>>>,
            context_mid: Context,
        |
            {
                &&& #[trigger] stage((children, context_mid))
                &&& layout.makes(Box2D::no_constraint(), children)
                &&& Self::delivered_to_each(
                    children,
                    0,
                    engine,
                    context,
                    signal,
                    below,
                    engine_after,
                    context_mid,
                )
                &&& layout.reacts(
                    context_mid,
                    signal,
                    *view_after->MultiChildLayout_0,
                    context_after,
                )
            };
        let (first_after, engine_1, after_first) = Self::lemma_leaf_reacts(
            children,
            0,
            first,
            engine,
            context,
            signal,
            below,
            engine_after,
            after_third,
        );
        let (second_after, engine_2, after_second) = Self::lemma_leaf_reacts(
            children,
            1,
            second,
            engine_1,
            after_first,
            signal,
            below,
            engine_after,
            after_third,
        );
        let (third_after, engine_3, last) = Self::lemma_leaf_reacts(
            children,
            2,
            third,
            engine_2,
            after_second,
            signal,
            below,
            engine_after,
            after_third,
        );
        assert(stage(
            (first_after, after_first, second_after, after_second, third_after, after_third),
        ));
    }

    /// Where the child at place `from` is an owned leaf, the signal makes
    /// the leaf react and leaves the engine as it is, and the children after
    /// it go on from there.
    proof fn lemma_leaf_reacts(
        children: Seq<Sharable<View<L, S, M, N>>>,
        from: nat,
        leaf: N,
        engine: EngineView<St, View<L, S, M, N>>,
        context: Context,
        signal: Signal,
        depth: nat,
        engine_after: EngineView<St, View<L, S, M, N>>,
        context_after: Context,
    ) -> (next: (N, EngineView<St, View<L, S, M, N>>, Context))
        requires
            depth >= 1,
            from < children.len(),
            children[from as int] == Sharable::Owned(View::<L, S, M, N>::Node(Box::new(leaf))),
            Self::delivered_to_each(
                children,
                from,
                engine,
                context,
                signal,
                depth,
                engine_after,
                context_after,
            ),
        ensures
            next.1 == engine,
            leaf.reacts(context, signal, next.0, next.2),
            Self::delivered_to_each(
                children,
                from + 1,
                engine,
                next.2,
                signal,
                depth,
                engine_after,
                context_after,
            ),
            from + 1 == children.len() ==> engine_after == engine && context_after == next.2,
    {
        let (engine_mid, context_mid) = choose|
            engine_mid: EngineView<St, View<L, S, M, N>>,
            context_mid: Context,
        |
            {
                &&& #[trigger] stage((engine_mid, context_mid))
                &&& Self::delivered_to_sharable(
                    children[from as int],
                    engine,
                    context,
                    signal,
                    depth,
                    engine_mid,
                    context_mid,
                )
                &&& Self::delivered_to_each(
                    children,
                    from + 1,
                    engine_mid,
                    context_mid,
                    signal,
                    depth,
                    engine_after,
                    context_after,
                )
            };
        let leaf_view = View::<L, S, M, N>::Node(Box::new(leaf));
        let view_after = choose|view_after: View<L, S, M, N>|
            {
                &&& #[trigger] stage(view_after)
                &&& Self::delivered(
                    leaf_view,
                    engine,
                    context,
                    signal,
                    depth,
                    view_after,
                    engine_mid,
                    context_mid,
                )
            };
        (*view_after->Node_0, engine_mid, context_mid)
    }

    /// A layout whose children are leaves, however many, is drawn as its
    /// lower layer, the leaves in the order in which it made them, and its
    /// upper layer. The orders and rooms given back say so: the first leaf
    /// paints into the layout's room on what the lower layer left, each next
    /// one into the room the layout says the one before it left, and the
    /// upper layer comes on what the last leaf left. The engine stays as it
    /// is.
    pub proof fn lemma_leaves_are_drawn_between_the_layers(
        layout: M,
        leaves: Seq<N>,
        engine: EngineView<St, View<L, S, M, N>>,
        canvas: Seq<DrawOp>,
        constraint: Box2D,
        depth: nat,
        view_after: View<L, S, M, N>,
        engine_after: EngineView<St, View<L, S, M, N>>,
        canvas_after: Seq<DrawOp>,
    ) -> (steps: (Seq<Seq<DrawOp>>, Seq<Box2D>))
        requires
            depth >= 2,
            forall|children: Seq<Sharable<View<L, S, M, N>>>| #[trigger]
                layout.makes(constraint, children) ==> children == leaves.map_values(
                    |leaf: N| Sharable::Owned(View::<L, S, M, N>::Node(Box::new(leaf))),
                ),
            Self::drawn(
                View::MultiChildLayout(Box::new(layout)),
                engine,
                canvas,
                constraint,
                depth,
                view_after,
                engine_after,
                canvas_after,
            ),
        ensures
            engine_after == engine,
            view_after == View::<L, S, M, N>::MultiChildLayout(Box::new(layout)),
            steps.0.len() == leaves.len() + 1,
            steps.1.len() == leaves.len() + 1,
            steps.1[0] == constraint,
            layout.paints_before(constraint, canvas, steps.0[0]),
            forall|k: int|
                0 <= k < leaves.len() ==> {
                    &&& leaves[k].paints(steps.1[k], #[trigger] steps.0[k], steps.0[k + 1])
                    &&& layout.narrows(steps.1[k], View::Node(Box::new(leaves[k])), steps.1[k + 1])
                },
            layout.paints_after(constraint, steps.0.last(), canvas_after),
    {
        let below = (depth - 1) as nat;
        let (children, under, over) = choose|
            children: Seq<Sharable<View<L, S, M, N>>>,
            canvas_before: Seq<DrawOp>,
            canvas_mid: Seq<DrawOp>,
        |
            {
                &&& #[trigger] stage((children, canvas_before, canvas_mid))
                &&& layout.paints_before(constraint, canvas, canvas_before)
                &&& layout.makes(constraint, children)
                &&& Self::drawn_each(
                    layout,
                    children,
                    0,
                    constraint,
                    engine,
                    canvas_before,
                    below,
                    engine_after,
                    canvas_mid,
                )
                &&& layout.paints_after(constraint, canvas_mid, canvas_after)
            };
        Self::lemma_leaves_are_drawn_from(
            layout,
            children,
            leaves,
            0,
            constraint,
            engine,
            under,
            below,
            engine_after,
            over,
        )
    }

    /// The leaves from place `from` on are drawn one after the other; see
    /// `lemma_leaves_are_drawn_between_the_layers`.
    proof fn lemma_leaves_are_drawn_from(
        layout: M,
        children: Seq<Sharable<View<L, S, M, N>>>,
        leaves: Seq<N>,
        from: nat,
        room: Box2D,
        engine: EngineView<St, View<L, S, M, N>>,
        canvas: Seq<DrawOp>,
        depth: nat,
        engine_after: EngineView<St, View<L, S, M, N>>,
        canvas_after: Seq<DrawOp>,
    ) -> (steps: (Seq<Seq<DrawOp>>, Seq<Box2D>))
        requires
            depth >= 1,
            from <= leaves.len(),
            children == leaves.map_values(
                |leaf: N| Sharable::Owned(View::<L, S, M, N>::Node(Box::new(leaf))),
            ),
            Self::drawn_each(
                layout,
                children,
                from,
                room,
                engine,
                canvas,
                depth,
                engine_after,
                canvas_after,
            ),
        ensures
            engine_after == engine,
            steps.0.len() == leaves.len() + 1,
            steps.1.len() == leaves.len() + 1,
            steps.0[from as int] == canvas,
            steps.1[from as int] == room,
            steps.0.last() == canvas_after,
            forall|k: int|
                from <= k < leaves.len() ==> {
                    &&& leaves[k].paints(steps.1[k], #[trigger] steps.0[k], steps.0[k + 1])
                    &&& layout.narrows(steps.1[k], View::Node(Box::new(leaves[k])), steps.1[k + 1])
                },
        decreases leaves.len() - from,
    {
        if from >= leaves.len() {
            (
                Seq::new(leaves.len() + 1, |k: int| canvas),
                Seq::new(leaves.len() + 1, |k: int| room),
            )
        } else {
            let (canvas_next, left) = Self::lemma_leaf_is_drawn(
                layout,
                children,
                from,
                leaves[from as int],
                room,
                engine,
                canvas,
                depth,
                engine_after,
                canvas_after,
            );
            let later = Self::lemma_leaves_are_drawn_from(
                layout,
                children,
                leaves,
                from + 1,
                left,
                engine,
                canvas_next,
                depth,
                engine_after,
                canvas_after,
            );
            let canvases = later.0.update(from as int, canvas);
            let rooms = later.1.update(from as int, room);
            assert forall|k: int| from <= k < leaves.len() implies {
                &&& leaves[k].paints(rooms[k], #[trigger] canvases[k], canvases[k + 1])
                &&& layout.narrows(rooms[k], View::Node(Box::new(leaves[k])), rooms[k + 1])
            } by {
                if k > from {
                    assert(canvases[k] == later.0[k]);
                    assert(canvases[k + 1] == later.0[k + 1]);
                    assert(rooms[k] == later.1[k]);
                    assert(rooms[k + 1] == later.1[k + 1]);
                } else {
                    assert(canvases[k + 1] == canvas_next);
                    assert(rooms[k + 1] == left);
                }
            }
            (canvases, rooms)
        }
    }

    /// A layout with three leaves as children is drawn as its lower layer,
    /// the leaves in the order in which it made them, and its upper layer.
    /// The first leaf gets the layout's room, each next one what the layout
    /// says the one before it left.
    pub proof fn lemma_children_are_drawn_in_order(
        layout: M,
        first: N,
        second: N,
        third: N,
        engine: EngineView<St, View<L, S, M, N>>,
        canvas: Seq<DrawOp>,
        constraint: Box2D,
        depth: nat,
        view_after: View<L, S, M, N>,
        engine_after: EngineView<St, View<L, S, M, N>>,
        canvas_after: Seq<DrawOp>,
    )
        requires
            depth >= 2,
            forall|children: Seq<Sharable<View<L, S, M, N>>>| #[trigger]
                layout.makes(constraint, children) ==> children == seq![
                    Sharable::Owned(View::<L, S, M, N>::Node(Box::new(first))),
                    Sharable::Owned(View::<L, S, M, N>::Node(Box::new(second))),
                    Sharable::Owned(View::<L, S, M, N>::Node(Box::new(third))),
                ],
            Self::drawn(
                View::MultiChildLayout(Box::new(layout)),
                engine,
                canvas,
                constraint,
                depth,
                view_after,
                engine_after,
                canvas_after,
            ),
        ensures
            engine_after == engine,
            view_after == View::<L, S, M, N>::MultiChildLayout(Box::new(layout)),
            exists|
                under: Seq<DrawOp>,
                with_first: Seq<DrawOp>,
                second_room: Box2D,
                with_second: Seq<DrawOp>,
                third_room: Box2D,
                with_third: Seq<DrawOp>,
            |
                {
                    &&& #[trigger] stage(
                        (under, with_first, second_room, with_second, third_room, with_third),
                    )
                    &&& layout.paints_before(constraint, canvas, under)
                    &&& first.paints(constraint, under, with_first)
                    &&& layout.narrows(constraint, View::Node(Box::new(first)), second_room)
                    &&& second.paints(second_room, with_first, with_second)
                    &&& layout.narrows(second_room, View::Node(Box::new(second)), third_room)
                    &&& third.paints(third_room, with_second, with_third)
                    &&& layout.paints_after(constraint, with_third, canvas_after)
                },
    {
        let below = (depth - 1) as nat;
        let (children, under, with_third) = choose|
            children: Seq<Sharable<View<L, S, M, N>>>,
            canvas_before: Seq<DrawOp>,
            canvas_mid: Seq<DrawOp>,
        |
            {
                &&& #[trigger] stage((children, canvas_before, canvas_mid))
                &&& layout.paints_before(constraint, canvas, canvas_before)
                &&& layout.makes(constraint, children)
                &&& Self::drawn_each(
                    layout,
                    children,
                    0,
                    constraint,
                    engine,
                    canvas_before,
                    below,
                    engine_after,
                    canvas_mid,
                )
                &&& layout.paints_after(constraint, canvas_mid, canvas_after)
            };
        let (with_first, second_room) = Self::lemma_leaf_is_drawn(
            layout,
            children,
            0,
            first,
            constraint,
            engine,
            under,
            below,
            engine_after,
            with_third,
        );
        let (with_second, third_room) = Self::lemma_leaf_is_drawn(
            layout,
            children,
            1,
            second,
            second_room,
            engine,
            with_first,
            below,
            engine_after,
            with_third,
        );
        let (last, rest) = Self::lemma_leaf_is_drawn(
            layout,
            children,
            2,
            third,
            third_room,
            engine,
            with_second,
            below,
            engine_after,
            with_third,
        );
        assert(stage((under, with_first, second_room, with_second, third_room, with_third)));
    }

    /// Where the child at place `from` is an owned leaf, it is painted into
    /// the room on offer, the layout says what room it leaves, and the
    /// children after it go on from there.
    proof fn lemma_leaf_is_drawn(
        layout: M,
        children: Seq<Sharable<View<L, S, M, N>>>,
        from: nat,
        leaf: N,
        room: Box2D,
        engine: EngineView<St, View<L, S, M, N>>,
        canvas: Seq<DrawOp>,
        depth: nat,
        engine_after: EngineView<St, View<L, S, M, N>>,
        canvas_after: Seq<DrawOp>,
    ) -> (next: (Seq<DrawOp>, Box2D))
        requires
            depth >= 1,
            from < children.len(),
            children[from as int] == Sharable::Owned(View::<L, S, M, N>::Node(Box::new(leaf))),
            Self::drawn_each(
                layout,
                children,
                from,
                room,
                engine,
                canvas,
                depth,
                engine_after,
                canvas_after,
            ),
        ensures
            leaf.paints(room, canvas, next.0),
            layout.narrows(room, View::Node(Box::new(leaf)), next.1),
            Self::drawn_each(
                layout,
                children,
                from + 1,
                next.1,
                engine,
                next.0,
                depth,
                engine_after,
                canvas_after,
            ),
            from + 1 == children.len() ==> engine_after == engine && canvas_after == next.0,
    {
        let (seen, engine_mid, canvas_mid, left) = choose|
            seen: Option<View<L, S, M, N>>,
            engine_mid: EngineView<St, View<L, S, M, N>>,
            canvas_mid: Seq<DrawOp>,
            left: Box2D,
        |
            {
                &&& #[trigger] stage((seen, engine_mid, canvas_mid, left))
                &&& Self::drawn_sharable(
                    children[from as int],
                    engine,
                    canvas,
                    room,
                    depth,
                    seen,
                    engine_mid,
                    canvas_mid,
                )
                &&& Self::room_left(layout, room, seen, left)
                &&& Self::drawn_each(
                    layout,
                    children,
                    from + 1,
                    left,
                    engine_mid,
                    canvas_mid,
                    depth,
                    engine_after,
                    canvas_after,
                )
            };
        (canvas_mid, left)
    }

    /// Two layouts with one key share one state: after a first layout was
    /// visited, a second one with the same key makes no state of its own,
    /// and works on the state that the first visit left under the key.
    pub proof fn lemma_one_key_one_state(
        first: S,
        second: S,
        key: Seq<char>,
        engine: EngineView<St, View<L, S, M, N>>,
        context: Context,
        signal: Signal,
        depth: nat,
        first_after: View<L, S, M, N>,
        engine_mid: EngineView<St, View<L, S, M, N>>,
        context_mid: Context,
        next_signal: Signal,
        second_after: View<L, S, M, N>,
        engine_after: EngineView<St, View<L, S, M, N>>,
        context_after: Context,
    )
        requires
            depth >= 1,
            forall|k: Seq<char>| #[trigger] first.keyed(k) ==> k == key,
            forall|k: Seq<char>| #[trigger] second.keyed(k) ==> k == key,
            Self::delivered(
                View::StatefulLayout(Box::new(first)),
                engine,
                context,
                signal,
                depth,
                first_after,
                engine_mid,
                context_mid,
            ),
            Self::delivered(
                View::StatefulLayout(Box::new(second)),
                engine_mid,
                context_mid,
                next_signal,
                depth,
                second_after,
                engine_after,
                context_after,
            ),
        ensures
            engine_mid.states.contains_key(key),
            second_after == View::<L, S, M, N>::StatefulLayout(Box::new(second)),
            exists|
                child: Option<Sharable<View<L, S, M, N>>>,
                engine_below: EngineView<St, View<L, S, M, N>>,
                context_below: Context,
                state_after: St,
            |
                {
                    &&& #[trigger] stage((child, engine_below, context_below, state_after))
                    &&& engine_mid.states[key].makes(Box2D::no_constraint(), child)
                    &&& Self::delivered_to_child(
                        child,
                        engine_mid,
                        context_mid,
                        next_signal,
                        (depth - 1) as nat,
                        engine_below,
                        context_below,
                    )
                    &&& engine_below.states.contains_key(key)
                    &&& engine_below.states[key].reacts(
                        context_below,
                        next_signal,
                        state_after,
                        context_after,
                    )
                    &&& engine_after == engine_below.with_state(key, state_after)
                },
    {
        let below = (depth - 1) as nat;
        let first_layout_after = *first_after->StatefulLayout_0;
        let (key_1, ready_1, child_1, engine_1, context_1) = choose|
            key: Seq<char>,
            ready: EngineView<St, View<L, S, M, N>>,
            child: Option<Sharable<View<L, S, M, N>>>,
            engine_mid_1: EngineView<St, View<L, S, M, N>>,
            context_mid_1: Context,
        |
            {
                &&& #[trigger] stage((key, ready, child, engine_mid_1, context_mid_1))
                &&& first.keyed(key)
                &&& Self::state_ready(first, engine, key, first_layout_after, ready)
                &&& ready.states[key].makes(Box2D::no_constraint(), child)
                &&& Self::delivered_to_child(
                    child,
                    ready,
                    context,
                    signal,
                    below,
                    engine_mid_1,
                    context_mid_1,
                )
                &&& engine_mid_1.states.contains_key(key)
                &&& exists|state_after: St|
                    {
                        &&& #[trigger] stage(state_after)
                        &&& engine_mid_1.states[key].reacts(
                            context_mid_1,
                            signal,
                            state_after,
                            context_mid,
                        )
                        &&& engine_mid == engine_mid_1.with_state(key, state_after)
                    }
            };
        assert(key_1 == key);
        assert(engine_mid.states.contains_key(key));
        let second_layout_after = *second_after->StatefulLayout_0;
        let (key_2, ready_2, child_2, engine_2, context_2) = choose|
            key: Seq<char>,
            ready: EngineView<St, View<L, S, M, N>>,
            child: Option<Sharable<View<L, S, M, N>>>,
            engine_mid_2: EngineView<St, View<L, S, M, N>>,
            context_mid_2: Context,
        |
            {
                &&& #[trigger] stage((key, ready, child, engine_mid_2, context_mid_2))
                &&& second.keyed(key)
                &&& Self::state_ready(second, engine_mid, key, second_layout_after, ready)
                &&& ready.states[key].makes(Box2D::no_constraint(), child)
                &&& Self::delivered_to_child(
                    child,
                    ready,
                    context_mid,
                    next_signal,
                    below,
                    engine_mid_2,
                    context_mid_2,
                )
                &&& engine_mid_2.states.contains_key(key)
                &&& exists|state_after: St|
                    {
                        &&& #[trigger] stage(state_after)
                        &&& engine_mid_2.states[key].reacts(
                            context_mid_2,
                            next_signal,
                            state_after,
                            context_after,
                        )
                        &&& engine_after == engine_mid_2.with_state(key, state_after)
                    }
            };
        assert(key_2 == key);
        assert(ready_2 == engine_mid);
        let state_after = choose|state_after: St|
            {
                &&& #[trigger] stage(state_after)
                &&& engine_2.states[key].reacts(context_2, next_signal, state_after, context_after)
                &&& engine_after == engine_2.with_state(key, state_after)
            };
        assert(stage((child_2, engine_2, context_2, state_after)));
    }

    /// Layouts with different keys never share a state: a visit to a layout
    /// whose state has no child leaves every state under another key in
    /// place and as it was, and makes none there.
    pub proof fn lemma_other_keys_are_untouched(
        layout: S,
        key: Seq<char>,
        other: Seq<char>,
        engine: EngineView<St, View<L, S, M, N>>,
        context: Context,
        signal: Signal,
        depth: nat,
        view_after: View<L, S, M, N>,
        engine_after: EngineView<St, View<L, S, M, N>>,
        context_after: Context,
    )
        requires
            depth >= 1,
            other != key,
            forall|k: Seq<char>| #[trigger] layout.keyed(k) ==> k == key,
            forall|state: St, child: Option<Sharable<View<L, S, M, N>>>| #[trigger]
                state.makes(Box2D::no_constraint(), child) ==> child is None,
            Self::delivered(
                View::StatefulLayout(Box::new(layout)),
                engine,
                context,
                signal,
                depth,
                view_after,
                engine_after,
                context_after,
            ),
        ensures
            engine_after.states.contains_key(key),
            engine_after.states.contains_key(other) == engine.states.contains_key(other),
            engine.states.contains_key(other) ==> engine_after.states[other]
                == engine.states[other],
            engine_after.shared == engine.shared,
            engine_after.faults == engine.faults,
    {
        let below = (depth - 1) as nat;
        let layout_after = *view_after->StatefulLayout_0;
        let (key_1, ready, child, engine_mid, context_mid) = choose|
            key: Seq<char>,
            ready: EngineView<St, View<L, S, M, N>>,
            child: Option<Sharable<View<L, S, M, N>>>,
            engine_mid: EngineView<St, View<L, S, M, N>>,
            context_mid: Context,
        |
            {
                &&& #[trigger] stage((key, ready, child, engine_mid, context_mid))
                &&& layout.keyed(key)
                &&& Self::state_ready(layout, engine, key, layout_after, ready)
                &&& ready.states[key].makes(Box2D::no_constraint(), child)
                &&& Self::delivered_to_child(
                    child,
                    ready,
                    context,
                    signal,
                    below,
                    engine_mid,
                    context_mid,
                )
                &&& engine_mid.states.contains_key(key)
                &&& exists|state_after: St|
                    {
                        &&& #[trigger] stage(state_after)
                        &&& engine_mid.states[key].reacts(
                            context_mid,
                            signal,
                            state_after,
                            context_after,
                        )
                        &&& engine_after == engine_mid.with_state(key, state_after)
                    }
            };
        assert(key_1 == key);
        assert(child is None);
        assert(engine_mid == ready);
    }

    /// What handing a signal to the children from place `from` on does
    /// depends on those children alone.
    pub proof fn lemma_each_reads_the_rest(
        children: Seq<Sharable<View<L, S, M, N>>>,
        others: Seq<Sharable<View<L, S, M, N>>>,
        from: nat,
        signal: Signal,
        depth: nat,
    )
        requires
            children.len() == others.len(),
            forall|i: int| from <= i < children.len() ==> children[i] == others[i],
        ensures
            forall|
                engine: EngineView<St, View<L, S, M, N>>,
                context: Context,
                engine_after: EngineView<St, View<L, S, M, N>>,
                context_after: Context,
            |
                #![auto]
                Self::delivered_to_each(
                    children,
                    from,
                    engine,
                    context,
                    signal,
                    depth,
                    engine_after,
                    context_after,
                ) == Self::delivered_to_each(
                    others,
                    from,
                    engine,
                    context,
                    signal,
                    depth,
                    engine_after,
                    context_after,
                ),
        decreases children.len() - from,
    {
        if from < children.len() {
            Self::lemma_each_reads_the_rest(children, others, from + 1, signal, depth);
            assert(children[from as int] == others[from as int]);
            assert forall|
                engine: EngineView<St, View<L, S, M, N>>,
                context: Context,
                engine_after: EngineView<St, View<L, S, M, N>>,
                context_after: Context,
            |
                #![auto]
                Self::delivered_to_each(
                    children,
                    from,
                    engine,
                    context,
                    signal,
                    depth,
                    engine_after,
                    context_after,
                ) == Self::delivered_to_each(
                    others,
                    from,
                    engine,
                    context,
                    signal,
                    depth,
                    engine_after,
                    context_after,
                ) by {
                if Self::delivered_to_each(
                    children,
                    from,
                    engine,
                    context,
                    signal,
                    depth,
                    engine_after,
                    context_after,
                ) {
                    let (engine_mid, context_mid) = choose|
                        engine_mid: EngineView<St, View<L, S, M, N>>,
                        context_mid: Context,
                    |
                        {
                            &&& #[trigger] stage((engine_mid, context_mid))
                            &&& Self::delivered_to_sharable(
                                children[from as int],
                                engine,
                                context,
                                signal,
                                depth,
                                engine_mid,
                                context_mid,
                            )
                            &&& Self::delivered_to_each(
                                children,
                                from + 1,
                                engine_mid,
                                context_mid,
                                signal,
                                depth,
                                engine_after,
                                context_after,
                            )
                        };
                    assert(stage((engine_mid, context_mid)));
                    assert(Self::delivered_to_each(
                        others,
                        from + 1,
                        engine_mid,
                        context_mid,
                        signal,
                        depth,
                        engine_after,
                        context_after,
                    ));
                }
                if Self::delivered_to_each(
                    others,
                    from,
                    engine,
                    context,
                    signal,
                    depth,
                    engine_after,
                    context_after,
                ) {
                    let (engine_mid, context_mid) = choose|
                        engine_mid: EngineView<St, View<L, S, M, N>>,
                        context_mid: Context,
                    |
                        {
                            &&& #[trigger] stage((engine_mid, context_mid))
                            &&& Self::delivered_to_sharable(
                                others[from as int],
                                engine,
                                context,
                                signal,
                                depth,
                                engine_mid,
                                context_mid,
                            )
                            &&& Self::delivered_to_each(
                                others,
                                from + 1,
                                engine_mid,
                                context_mid,
                                signal,
                                depth,
                                engine_after,
                                context_after,
                            )
                        };
                    assert(stage((engine_mid, context_mid)));
                    assert(Self::delivered_to_each(
                        children,
                        from + 1,
                        engine_mid,
                        context_mid,
                        signal,
                        depth,
                        engine_after,
                        context_after,
                    ));
                }
            }
        }
    }
}

} // verus!
