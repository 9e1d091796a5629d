//! The component handle — the mode-contract surface and nothing else:
//! mount, unmount, dispatch(event), subscribe(descriptor callback). No
//! raw-state getter, no transition method; state leaves only as
//! descriptors delivered to subscribers.
use vstd::prelude::*;

use crate::instance::{assemble_descriptor, Descriptor};
use crate::machine::{copy_definition, transition_for, Machine, MachineDefinition};

verus! {

/// The component handle — the only value a platform adapter may hold.
/// `C` is the subscriber callback type.
pub struct LoomComponent<C: Fn(&Descriptor)> {
    machine: Option<Machine>,
    definition: MachineDefinition,
    subscribers: Vec<C>,
}

/// Whether a callback accepts every descriptor.
pub open spec fn accepts_all<C: Fn(&Descriptor)>(c: C) -> bool {
    forall|d: &Descriptor| call_requires(c, (d,))
}

impl<C: Fn(&Descriptor)> LoomComponent<C> {
    /// Every subscriber accepts every descriptor, and a mounted machine
    /// interprets the handle's definition.
    #[verifier::type_invariant]
    spec fn wf(&self) -> bool {
        &&& forall|i: int|
            0 <= i < self.subscribers@.len() ==> accepts_all(#[trigger] self.subscribers@[i])
        &&& self.machine is Some ==> self.machine->0.definition().transitions@
            == self.definition.transitions@
    }

    /// Whether a machine is mounted.
    pub closed spec fn mounted(&self) -> bool {
        self.machine is Some
    }

    /// The mounted machine's current state.
    pub closed spec fn current(&self) -> Seq<char> {
        self.machine->0.current()
    }

    /// The definition the handle interprets on mount.
    pub closed spec fn definition(&self) -> MachineDefinition {
        self.definition
    }

    /// The subscriber at position `i`, in subscription order.
    pub closed spec fn subscriber(&self, i: int) -> C {
        self.subscribers@[i]
    }

    /// Whether every subscriber has been called with `d` and returned.
    pub open spec fn delivered(&self, d: &Descriptor) -> bool {
        forall|j: int| 0 <= j < self.subscriber_count() ==> call_ensures(#[trigger] self.subscriber(j), (d,), ())
    }

    /// The number of subscribers.
    pub closed spec fn subscriber_count(&self) -> nat {
        self.subscribers@.len()
    }

    /// A handle for a definition, unmounted, with no subscribers.
    pub fn new(definition: MachineDefinition) -> (r: Self)
        ensures
            !r.mounted(),
            r.definition() == definition,
            r.subscriber_count() == 0,
    {
        LoomComponent { machine: None, definition, subscribers: Vec::new() }
    }

    /// Deliver the descriptor of the current state, with the given active
    /// motion, to every subscriber. Nothing is delivered when unmounted.
    /// Returns the descriptor delivered.
    fn publish(&self, active_motion: Option<String>) -> (r: Option<Descriptor>)
        ensures
            self.mounted() <==> r is Some,
            r matches Some(d) ==> d.state@ == self.current() && d.active_motion == active_motion
                && d.slots@.len() == 0 && d.a11y_fields@.len() == 0 && self.delivered(&d),
    {
        proof {
            use_type_invariant(self);
        }
        match &self.machine {
            None => None,
            Some(machine) => {
                let mut descriptor = assemble_descriptor(machine.state(), &[], &[]);
                descriptor.active_motion = active_motion;
                let mut i: usize = 0;
                while i < self.subscribers.len()
                    invariant
                        forall|j: int|
                            0 <= j < self.subscribers@.len() ==> accepts_all(
                                #[trigger] self.subscribers@[j],
                            ),
                        i <= self.subscribers@.len(),
                        forall|j: int|
                            0 <= j < i ==> call_ensures(#[trigger] self.subscribers@[j], (&descriptor,), ()),
                    decreases self.subscribers@.len() - i,
                {
                    assert(accepts_all(self.subscribers@[i as int]));
                    (self.subscribers[i])(&descriptor);
                    i = i + 1;
                }
                Some(descriptor)
            },
        }
    }

    /// Whether every subscriber of the handle before the call still stands
    /// at its position afterwards.
    pub open spec fn keeps_subscribers(&self, before: &Self) -> bool {
        &&& self.subscriber_count() == before.subscriber_count()
        &&& forall|i: int|
            0 <= i < before.subscriber_count() ==> #[trigger] self.subscriber(i) == before.subscriber(i)
    }

    /// Whether some descriptor of the current state, with no slots or
    /// accessibility fields and with the given active motion, has been
    /// delivered to every subscriber.
    pub open spec fn published(&self, active_motion: Option<String>) -> bool {
        exists|d: Descriptor|
            d.state@ == self.current() && d.active_motion == active_motion && d.slots@.len() == 0
                && d.a11y_fields@.len() == 0 && #[trigger] self.delivered(&d)
    }

    /// Mount: interpret the machine from its definition (a mounted machine
    /// is kept as it stands), then deliver the current descriptor to every
    /// subscriber.
    pub fn mount(&mut self)
        ensures
            final(self).mounted(),
            final(self).definition() == old(self).definition(),
            final(self).keeps_subscribers(&*old(self)),
            old(self).mounted() ==> final(self).current() == old(self).current(),
            !old(self).mounted() ==> final(self).current() == old(self).definition().initial_state@,
            final(self).published(None),
    {
        proof {
            use_type_invariant(&*self);
        }
        if self.machine.is_none() {
            self.machine = Some(Machine::mount(copy_definition(&self.definition)));
        }
        let r = self.publish(None);
        proof {
            let d = r->0;
            assert(self.delivered(&d));
        }
    }

    /// Unmount: drop the interpreted machine. No subscriber is called, and
    /// every subscription is kept.
    pub fn unmount(&mut self)
        ensures
            !final(self).mounted(),
            final(self).definition() == old(self).definition(),
            final(self).keeps_subscribers(&*old(self)),
    {
        proof {
            use_type_invariant(&*self);
        }
        self.machine = None;
    }

    /// Dispatch a declared event to the mounted machine; subscribers
    /// receive the new descriptor, carrying the motion of the transition
    /// that fired. Unmounted, the event is dropped and no subscriber is
    /// called.
    pub fn dispatch(&mut self, event: &str)
        ensures
            final(self).mounted() == old(self).mounted(),
            final(self).definition() == old(self).definition(),
            final(self).keeps_subscribers(&*old(self)),
            old(self).mounted() ==> match transition_for(
                old(self).definition().transitions@,
                old(self).current(),
                event@,
            ) {
                Some(i) => final(self).current() == old(self).definition().transitions@[i].to_state@
                    && final(self).published(old(self).definition().transitions@[i].carries_motion),
                None => final(self).current() == old(self).current() && final(self).published(None),
            },
    {
        proof {
            use_type_invariant(&*self);
        }
        let mut taken: Option<Machine> = None;
        std::mem::swap(&mut taken, &mut self.machine);
        let motion = match &mut taken {
            None => {
                return ;
            },
            Some(machine) => match machine.dispatch(event) {
                Some(t) => t.carries_motion,
                None => None,
            },
        };
        self.machine = taken;
        let r = self.publish(motion);
        proof {
            let d = r->0;
            assert(self.delivered(&d));
        }
    }

    /// Subscribe to descriptor updates — the only way state leaves the handle.
    pub fn subscribe(&mut self, callback: C)
        requires
            accepts_all(callback),
        ensures
            final(self).mounted() == old(self).mounted(),
            old(self).mounted() ==> final(self).current() == old(self).current(),
            final(self).definition() == old(self).definition(),
            final(self).subscriber_count() == old(self).subscriber_count() + 1,
            forall|i: int|
                0 <= i < old(self).subscriber_count() ==> #[trigger] final(self).subscriber(i)
                    == old(self).subscriber(i),
            final(self).subscriber(old(self).subscriber_count() as int) == callback,
    {
        proof {
            use_type_invariant(&*self);
        }
        let mut subscribers: Vec<C> = Vec::new();
        std::mem::swap(&mut subscribers, &mut self.subscribers);
        subscribers.push(callback);
        self.subscribers = subscribers;
    }
}

} // verus!
