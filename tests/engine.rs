use plan_a::def::{Actions, Plan, Screen, ScreenGroup, ScreenIdent, ScreenNavigation, ScreenTo, TextOperation};
use plan_a::engine::{ScreenEngine, ScreenEngineAction};
use plan_a::errors::NavigationError;
use plan_a::navigation::{ScreenState, ScreenStatePathfinding, ScreenStatePathfindingSource};

fn taps(x: u32, y: u32) -> ScreenTo {
    ScreenTo::Actions(vec![Actions::Tap(x, y)])
}

fn screen(ident: bool, to: Vec<(&str, ScreenTo)>, back: bool, group: Option<&str>) -> Screen {
    let ident = if ident {
        vec![ScreenIdent::Ocr {
            ocr: "Title".to_string(),
            operation: TextOperation::Exact,
            rect: (0, 0, 10, 10),
        }]
    } else {
        Vec::new()
    };
    Screen {
        ident,
        nav: ScreenNavigation {
            to: to.into_iter().map(|(k, v)| (k.to_string(), v)).collect(),
            back,
        },
        routines: Vec::new(),
        group: group.map(|g| g.to_string()),
    }
}

fn plan(screens: Vec<(&str, Screen)>, groups: Vec<(&str, ScreenGroup)>) -> Plan {
    Plan {
        workdir: ".".to_string(),
        package: "pkg".to_string(),
        activity: "act".to_string(),
        screens: screens.into_iter().map(|(k, v)| (k.to_string(), v)).collect(),
        screen_groups: groups.into_iter().map(|(k, v)| (k.to_string(), v)).collect(),
        schedules: Vec::new(),
        routine_location: Vec::new(),
    }
}

fn actions_of(a: &ScreenEngineAction) -> Vec<Actions> {
    match a {
        ScreenEngineAction::Navigate(_, ScreenTo::Actions(v)) => v.clone(),
        other => panic!("expected a literal navigation, got {:?}", other),
    }
}

/// Runs the route to the end, collecting every action and counting identifications.
fn drive(engine: &mut ScreenEngine) -> (Vec<Actions>, usize) {
    let mut acts = Vec::new();
    let mut identifies = 0;
    for _ in 0..50 {
        match engine.step().expect("step") {
            ScreenEngineAction::Done => return (acts, identifies),
            ScreenEngineAction::Identify(v) => {
                identifies += 1;
                let name = v[0].0.clone();
                engine.mark_identified(&name);
            }
            a @ ScreenEngineAction::Navigate(..) => {
                acts.extend(actions_of(&a));
                engine.step_navigate();
            }
        }
    }
    panic!("route did not end");
}

#[test]
fn trivial_identification_taps_once() {
    let p = plan(
        vec![("start", screen(false, vec![("end", taps(10, 20))], false, None)), ("end", screen(false, vec![], false, None))],
        vec![],
    );
    let mut e = ScreenEngine::from_plan(&p);
    e.set_navigate_target("end").unwrap();
    let (acts, identifies) = drive(&mut e);
    assert_eq!(acts, vec![Actions::Tap(10, 20)]);
    assert_eq!(identifies, 0);
    assert_eq!(e.get_state(), "end");
}

#[test]
fn pathfinding_uses_back_twice() {
    let p = plan(
        vec![
            ("start", screen(false, vec![("a", taps(9, 9))], false, None)),
            ("a", screen(true, vec![("b", taps(1, 1))], false, None)),
            ("b", screen(false, vec![("c", taps(2, 2))], true, None)),
            ("c", screen(false, vec![], true, None)),
        ],
        vec![],
    );
    let mut e = ScreenEngine::from_plan(&p);
    e.go_to("a").unwrap();
    e.go_to("b").unwrap();
    e.go_to("c").unwrap();
    e.set_navigate_target("a").unwrap();
    assert_eq!(e.pending_steps(), 3);
    let (acts, _) = drive(&mut e);
    assert_eq!(acts, vec![Actions::Back, Actions::Back]);
    assert_eq!(e.get_state(), "a");
    assert!(e.go_back().is_err());
}

#[test]
fn group_switch_keeps_stack() {
    let group = ScreenGroup {
        ident: Vec::new(),
        screens: vec!["g1".to_string(), "g2".to_string()],
        nav: ScreenNavigation {
            to: vec![("g1".to_string(), taps(4, 4)), ("g2".to_string(), taps(5, 5))],
            back: true,
        },
    };
    let p = plan(
        vec![
            ("start", screen(false, vec![], false, None)),
            ("home", screen(false, vec![("g1", taps(3, 3))], false, None)),
            ("g1", screen(false, vec![], true, Some("g"))),
            ("g2", screen(false, vec![], true, Some("g"))),
        ],
        vec![("g", group)],
    );
    let mut e = ScreenEngine::from_plan(&p);
    e.go_to("home").unwrap();
    e.go_to("g1").unwrap();
    e.set_navigate_target("g2").unwrap();
    let (acts, _) = drive(&mut e);
    assert_eq!(acts, vec![Actions::Tap(5, 5)]);
    assert_eq!(e.get_state(), "g2");
    e.go_back().unwrap();
    assert_eq!(e.get_state(), "home");
    assert!(e.go_back().is_err());
}

#[test]
fn identify_comes_before_navigating() {
    let p = plan(
        vec![("start", screen(true, vec![("end", taps(7, 8))], false, None)), ("end", screen(false, vec![], false, None))],
        vec![],
    );
    let mut e = ScreenEngine::from_plan(&p);
    e.set_navigate_target("end").unwrap();
    match e.step().unwrap() {
        ScreenEngineAction::Identify(v) => {
            assert_eq!(v.len(), 1);
            assert_eq!(v[0].0, "start");
            assert_eq!(v[0].1.len(), 1);
        }
        other => panic!("expected Identify, got {:?}", other),
    }
    // Still unconfirmed: asked again.
    assert!(matches!(e.step().unwrap(), ScreenEngineAction::Identify(_)));
    e.mark_identified("start");
    e.mark_identified("start");
    let a = e.step().unwrap();
    assert!(matches!(&a, ScreenEngineAction::Navigate(n, _) if n == "end"));
    assert_eq!(actions_of(&a), vec![Actions::Tap(7, 8)]);
    e.step_navigate();
    assert!(matches!(e.step().unwrap(), ScreenEngineAction::Done));
}

#[test]
fn dead_end_has_no_path() {
    let p = plan(
        vec![("start", screen(false, vec![], false, None)), ("end", screen(false, vec![], false, None))],
        vec![],
    );
    let mut e = ScreenEngine::from_plan(&p);
    let err = e.set_navigate_target("end").unwrap_err();
    assert_eq!(err.message(), "Path not found");
    assert_eq!(e.pending_steps(), 0);
    assert!(matches!(e.step().unwrap(), ScreenEngineAction::Done));
}

#[test]
fn target_already_reached_needs_nothing() {
    let p = plan(vec![("start", screen(true, vec![], false, None))], vec![]);
    let mut e = ScreenEngine::from_plan(&p);
    e.set_navigate_target("start").unwrap();
    assert_eq!(e.pending_steps(), 1);
    assert!(matches!(e.step().unwrap(), ScreenEngineAction::Done));
    assert_eq!(e.pending_steps(), 0);
}

#[test]
fn unknown_screen_errors() {
    let p = plan(vec![("start", screen(false, vec![], false, None))], vec![]);
    let mut e = ScreenEngine::from_plan(&p);
    let err = e.go_to("nowhere").unwrap_err();
    assert_eq!(err.message(), "Invalid screen");
    assert_eq!(e.get_state(), "start");
    let err = e.go_back().unwrap_err();
    assert_eq!(err.message(), "No more steps needed");
}

#[test]
fn missing_start_screen_fails_identification() {
    let p = plan(vec![("home", screen(false, vec![], false, None))], vec![]);
    let mut e = ScreenEngine::from_plan(&p);
    assert!(e.set_navigate_target("home").is_err());
    assert_eq!(e.get_state(), "start");
}

#[test]
fn transitions_follow_back_rules() {
    let screens: Vec<(String, Screen)> = vec![
        ("root".to_string(), screen(false, vec![], false, None)),
        ("deep".to_string(), screen(false, vec![], true, None)),
        ("g1".to_string(), screen(false, vec![], true, Some("g"))),
        ("g2".to_string(), screen(false, vec![], true, Some("g"))),
        ("g3".to_string(), screen(false, vec![], false, Some("g"))),
    ];
    let s = ScreenState { curr: "deep".to_string(), back: vec!["root".to_string()] };
    // A screen without `back` clears the stack.
    let r = s.to(&screens, "root").unwrap();
    assert_eq!(r, ScreenState { curr: "root".to_string(), back: vec![] });
    // Otherwise the current screen is pushed.
    let r = s.to(&screens, "g1").unwrap();
    assert_eq!(r.back, vec!["root".to_string(), "deep".to_string()]);
    // Within a group the stack is kept...
    let r2 = r.to(&screens, "g2").unwrap();
    assert_eq!(r2.back, r.back);
    assert_eq!(r2.curr, "g2");
    // ...unless the target has no way back.
    let r3 = r.to(&screens, "g3").unwrap();
    assert!(r3.back.is_empty());
    // Back pops the top of the stack.
    let b = r.back().unwrap();
    assert_eq!(b, ScreenState { curr: "deep".to_string(), back: vec!["root".to_string()] });
    assert!(ScreenState::initial().back().is_none());
    assert!(s.to(&screens, "zzz").is_err());
}

#[test]
fn fresh_moves_keep_current_off_the_stack() {
    let screens: Vec<(String, Screen)> = vec![
        ("start".to_string(), screen(false, vec![], false, None)),
        ("a".to_string(), screen(false, vec![], true, None)),
        ("b".to_string(), screen(false, vec![], true, None)),
    ];
    let s1 = ScreenState::initial().to(&screens, "a").unwrap();
    let s2 = s1.to(&screens, "b").unwrap();
    for s in [&s1, &s2] {
        assert!(!s.back.contains(&s.curr));
        assert!(s.back.windows(2).all(|w| w[0] != w[1]));
    }
    let s3 = s2.back().unwrap();
    assert!(!s3.back.contains(&s3.curr));
}

#[test]
fn successors_come_in_order() {
    let group = ScreenGroup {
        ident: Vec::new(),
        screens: vec!["g1".to_string(), "g2".to_string()],
        nav: ScreenNavigation { to: vec![("home".to_string(), taps(1, 2))], back: true },
    };
    let screens: Vec<(String, Screen)> = vec![
        ("home".to_string(), screen(false, vec![], false, None)),
        ("g1".to_string(), screen(false, vec![("home", taps(0, 0))], true, Some("g"))),
        ("g2".to_string(), screen(false, vec![], true, Some("g"))),
    ];
    let groups = vec![("g".to_string(), group)];
    let s = ScreenState { curr: "g1".to_string(), back: vec!["home".to_string()] };
    let succ = s.successors(&screens, &groups).unwrap();
    let vias: Vec<ScreenStatePathfindingSource> = succ.iter().map(|n| n.via).collect();
    assert_eq!(
        vias,
        vec![
            ScreenStatePathfindingSource::Back,
            ScreenStatePathfindingSource::To,
            ScreenStatePathfindingSource::InGroupNavigation,
            ScreenStatePathfindingSource::GroupTo,
        ]
    );
    assert_eq!(succ[2].state, ScreenState { curr: "g2".to_string(), back: vec!["home".to_string()] });
    let states = s.successor_states(&screens, &groups);
    assert_eq!(states.len(), 4);
    // A dangling group makes the state a dead end for the search.
    assert!(s.successors(&screens, &Vec::new()).is_none());
    assert!(s.successor_states(&screens, &Vec::new()).is_empty());
}

#[test]
fn steps_materialize_by_kind() {
    let group = ScreenGroup {
        ident: Vec::new(),
        screens: vec!["g1".to_string(), "g2".to_string()],
        nav: ScreenNavigation { to: vec![("g2".to_string(), taps(5, 6))], back: true },
    };
    let screens: Vec<(String, Screen)> = vec![
        ("g1".to_string(), screen(false, vec![("x", ScreenTo::Script("go.lua".to_string()))], true, Some("g"))),
        ("g2".to_string(), screen(false, vec![], true, Some("g"))),
        ("x".to_string(), screen(false, vec![], true, None)),
    ];
    let groups = vec![("g".to_string(), group)];
    let node = |curr: &str, via| ScreenStatePathfinding {
        state: ScreenState { curr: curr.to_string(), back: vec![] },
        via,
    };
    match node("x", ScreenStatePathfindingSource::To).to_screento("g1", &screens, &groups).unwrap() {
        ScreenTo::Script(p) => assert_eq!(p, "go.lua"),
        other => panic!("{:?}", other),
    }
    match node("g2", ScreenStatePathfindingSource::InGroupNavigation).to_screento("g1", &screens, &groups).unwrap() {
        ScreenTo::Actions(v) => assert_eq!(v, vec![Actions::Tap(5, 6)]),
        other => panic!("{:?}", other),
    }
    match node("g1", ScreenStatePathfindingSource::Back).to_screento("g2", &screens, &groups).unwrap() {
        ScreenTo::Actions(v) => assert_eq!(v, vec![Actions::Back]),
        other => panic!("{:?}", other),
    }
    match ScreenStatePathfinding::new(ScreenState::initial()).to_screento("g1", &screens, &groups).unwrap() {
        ScreenTo::Actions(v) => assert!(v.is_empty()),
        other => panic!("{:?}", other),
    }
    assert!(node("g1", ScreenStatePathfindingSource::GroupTo).to_screento("g2", &screens, &groups).is_err());
    assert!(node("x", ScreenStatePathfindingSource::To).to_screento("nope", &screens, &groups).is_err());
}

#[test]
fn route_replays_to_target() {
    let p = plan(
        vec![
            ("start", screen(false, vec![("a", taps(1, 1))], false, None)),
            ("a", screen(false, vec![("b", taps(2, 2))], true, None)),
            ("b", screen(false, vec![("end", taps(3, 3))], true, None)),
            ("end", screen(false, vec![], false, None)),
        ],
        vec![],
    );
    let mut e = ScreenEngine::from_plan(&p);
    e.set_navigate_target("end").unwrap();
    assert_eq!(e.pending_steps(), 4);
    let (acts, _) = drive(&mut e);
    assert_eq!(acts, vec![Actions::Tap(1, 1), Actions::Tap(2, 2), Actions::Tap(3, 3)]);
    assert_eq!(e.get_state(), "end");
}

#[test]
fn missing_group_is_reported() {
    let screens: Vec<(String, Screen)> = vec![
        ("g1".to_string(), screen(false, vec![], true, Some("ghost"))),
        ("g2".to_string(), screen(false, vec![], true, Some("ghost"))),
    ];
    let step = ScreenStatePathfinding {
        state: ScreenState { curr: "g2".to_string(), back: vec![] },
        via: ScreenStatePathfindingSource::InGroupNavigation,
    };
    let err = step.to_screento("g1", &screens, &Vec::new()).unwrap_err();
    assert!(matches!(err, NavigationError::UnknownScreenGroup(_)));
    assert_eq!(err.message(), "Invalid screen group");
    let err = step.to_screento("nope", &screens, &Vec::new()).unwrap_err();
    assert!(matches!(err, NavigationError::UnknownScreen(_)));
    assert_eq!(err.message(), "Invalid screen");
}
