use std::cell::RefCell;
use std::rc::Rc;

use loom::component::LoomComponent;
use loom::instance::{assemble_descriptor, Descriptor};
use loom::machine::{MachineDefinition, TransitionDef};

fn definition() -> MachineDefinition {
    MachineDefinition {
        component: "disclosure".into(),
        initial_state: "closed".into(),
        transitions: vec![
            TransitionDef {
                from_state: "closed".into(),
                on_event: "toggle".into(),
                to_state: "open".into(),
                carries_motion: Some("expand".into()),
            },
            TransitionDef {
                from_state: "open".into(),
                on_event: "toggle".into(),
                to_state: "closed".into(),
                carries_motion: None,
            },
        ],
    }
}

type Callback = Box<dyn Fn(&Descriptor)>;

type Seen = Rc<RefCell<Vec<(String, Option<String>)>>>;

fn recorder(seen: &Seen) -> Callback {
    let sink = seen.clone();
    Box::new(move |d: &Descriptor| sink.borrow_mut().push((d.state.clone(), d.active_motion.clone())))
}

#[test]
fn subscribers_receive_each_descriptor() {
    let seen: Seen = Rc::new(RefCell::new(Vec::new()));
    let mut c: LoomComponent<Callback> = LoomComponent::new(definition());
    c.subscribe(recorder(&seen));
    c.mount();
    c.dispatch("toggle");
    c.dispatch("unknown");
    assert_eq!(
        *seen.borrow(),
        vec![
            ("closed".to_string(), None),
            ("open".to_string(), Some("expand".to_string())),
            ("open".to_string(), None),
        ]
    );
}

#[test]
fn unmounted_component_publishes_nothing() {
    let count = Rc::new(RefCell::new(0usize));
    let sink = count.clone();
    let mut c: LoomComponent<Callback> = LoomComponent::new(definition());
    c.subscribe(Box::new(move |_d: &Descriptor| *sink.borrow_mut() += 1));
    c.dispatch("toggle");
    assert_eq!(*count.borrow(), 0);
    c.mount();
    c.unmount();
    c.dispatch("toggle");
    assert_eq!(*count.borrow(), 1);
}

#[test]
fn remount_keeps_the_current_state() {
    let seen: Seen = Rc::new(RefCell::new(Vec::new()));
    let mut c: LoomComponent<Callback> = LoomComponent::new(definition());
    c.subscribe(recorder(&seen));
    c.mount();
    c.dispatch("toggle");
    c.mount();
    assert_eq!(seen.borrow().last().map(|p| p.0.clone()), Some("open".to_string()));
    c.unmount();
    c.mount();
    assert_eq!(seen.borrow().last().map(|p| p.0.clone()), Some("closed".to_string()));
}

#[test]
fn subscriptions_survive_unmount_and_keep_their_order() {
    let order: Rc<RefCell<Vec<u8>>> = Rc::new(RefCell::new(Vec::new()));
    let first = order.clone();
    let second = order.clone();
    let mut c: LoomComponent<Callback> = LoomComponent::new(definition());
    c.subscribe(Box::new(move |_d: &Descriptor| first.borrow_mut().push(1)));
    c.mount();
    c.subscribe(Box::new(move |_d: &Descriptor| second.borrow_mut().push(2)));
    c.unmount();
    c.mount();
    assert_eq!(*order.borrow(), vec![1, 1, 2]);
}

#[test]
fn descriptor_assembly_copies_overlay_states() {
    let d = assemble_descriptor("open", &["a".to_string()], &["expanded".to_string()]);
    assert_eq!(d.state, "open");
    assert!(d.slots.is_empty());
    assert_eq!(d.a11y_fields, vec!["expanded".to_string()]);
    assert_eq!(d.active_motion, None);
}
