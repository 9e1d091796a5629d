use loom::machine::{Machine, MachineDefinition, TransitionDef};

#[test]
fn dispatch_follows_the_interpreted_table() {
    let mut machine = Machine::mount(MachineDefinition {
        component: "single-select".into(),
        initial_state: "loading".into(),
        transitions: vec![TransitionDef {
            from_state: "loading".into(),
            on_event: "data-arrived".into(),
            to_state: "present".into(),
            carries_motion: None,
        }],
    });
    assert_eq!(machine.state(), "loading");
    assert!(machine.dispatch("data-arrived").is_some());
    assert_eq!(machine.state(), "present");
    assert!(machine.dispatch("data-arrived").is_none());
}

fn t(from: &str, ev: &str, to: &str, motion: Option<&str>) -> TransitionDef {
    TransitionDef {
        from_state: from.into(),
        on_event: ev.into(),
        to_state: to.into(),
        carries_motion: motion.map(String::from),
    }
}

#[test]
fn last_declared_transition_for_a_pair_wins() {
    let mut machine = Machine::mount(MachineDefinition {
        component: "menu".into(),
        initial_state: "closed".into(),
        transitions: vec![t("closed", "open", "half", None), t("closed", "open", "open", Some("fade-in"))],
    });
    let fired = machine.dispatch("open").expect("declared");
    assert_eq!(fired.to_state, "open");
    assert_eq!(fired.carries_motion.as_deref(), Some("fade-in"));
    assert_eq!(machine.state(), "open");
    assert_eq!(machine.component(), "menu");
}

#[test]
fn undeclared_event_leaves_the_state() {
    let mut machine = Machine::mount(MachineDefinition {
        component: "menu".into(),
        initial_state: "closed".into(),
        transitions: vec![t("closed", "open", "open", None), t("open", "close", "closed", None)],
    });
    assert!(machine.dispatch("close").is_none());
    assert_eq!(machine.state(), "closed");
    assert!(machine.dispatch("open").is_some());
    assert!(machine.dispatch("close").is_some());
    assert_eq!(machine.state(), "closed");
}
