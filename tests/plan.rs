use plan_a::def::{
    Actions, PlanDef, Plan, Schedule, ScheduleActions, ScreenDef, ScreenIdent, ScreenNavigation, ScreenTo,
    Subscreen,
};
use plan_a::engine::ScreenEngine;

fn nav(to: Vec<(&str, ScreenTo)>, back: bool) -> ScreenNavigation {
    ScreenNavigation { to: to.into_iter().map(|(k, v)| (k.to_string(), v)).collect(), back }
}

fn def(ident: Vec<ScreenIdent>, to: Vec<(&str, ScreenTo)>, back: bool, routines: Vec<&str>) -> ScreenDef {
    ScreenDef {
        ident,
        nav: nav(to, back),
        routines: routines.into_iter().map(|r| r.to_string()).collect(),
        subscreens: None,
    }
}

fn tap(x: u32, y: u32) -> ScreenTo {
    ScreenTo::Actions(vec![Actions::Tap(x, y)])
}

fn sample() -> PlanDef {
    let mut settings = def(
        vec![ScreenIdent::ImageMatch { image: "frame.png".to_string(), pos: (0, 0) }],
        vec![("home", ScreenTo::Actions(vec![Actions::Back]))],
        true,
        vec![],
    );
    settings.subscreens = Some(vec![
        (
            "general".to_string(),
            Subscreen { ident: vec![], to: vec![("missing".to_string(), tap(1, 1))], routines: vec!["clean.lua".to_string()] },
        ),
        ("about".to_string(), Subscreen { ident: vec![], to: vec![], routines: vec![] }),
    ]);
    PlanDef {
        package: "com.example".to_string(),
        activity: ".Main".to_string(),
        screens: vec![
            ("start".to_string(), def(vec![], vec![("home", tap(5, 5))], false, vec![])),
            ("home".to_string(), def(vec![], vec![("general", tap(6, 6))], false, vec!["daily.lua"])),
            ("settings".to_string(), settings),
        ],
        schedules: vec![Schedule {
            action: ScheduleActions::Routines(vec!["daily.lua".to_string()]),
            on_calendar: "daily".to_string(),
            interruptible: false,
        }],
    }
}

fn names<T>(v: &[(String, T)]) -> Vec<&str> {
    v.iter().map(|(k, _)| k.as_str()).collect()
}

#[test]
fn subscreens_become_a_group() {
    let (plan, _) = Plan::from_def("plans/demo".to_string(), sample());
    assert_eq!(plan.workdir, "plans/demo");
    assert_eq!(plan.package, "com.example");
    assert_eq!(names(&plan.screens), vec!["start", "home", "general", "about", "end"]);
    assert_eq!(names(&plan.screen_groups), vec!["settings"]);
    let group = &plan.screen_groups[0].1;
    assert_eq!(group.screens, vec!["general".to_string(), "about".to_string()]);
    assert!(group.nav.back);
    assert_eq!(group.ident.len(), 1);
    let general = &plan.screens[2].1;
    assert_eq!(general.group.as_deref(), Some("settings"));
    assert!(general.nav.back);
    assert_eq!(names(&general.nav.to), vec!["missing"]);
    assert_eq!(plan.schedules.len(), 1);
}

#[test]
fn routines_are_located() {
    let (plan, _) = Plan::from_def(".".to_string(), sample());
    let loc: Vec<(&str, &str)> = plan.routine_location.iter().map(|(r, s)| (r.as_str(), s.as_str())).collect();
    assert_eq!(loc, vec![("daily.lua", "home"), ("clean.lua", "general")]);
}

#[test]
fn end_screen_is_added_once() {
    let (plan, _) = Plan::from_def(".".to_string(), sample());
    let end = &plan.screens.last().unwrap().1;
    assert!(end.ident.is_empty() && end.nav.to.is_empty() && !end.nav.back && end.group.is_none());

    let mut d = sample();
    d.screens.push(("end".to_string(), def(vec![], vec![], true, vec![])));
    let (plan, _) = Plan::from_def(".".to_string(), d);
    let ends: Vec<_> = plan.screens.iter().filter(|(k, _)| k == "end").collect();
    assert_eq!(ends.len(), 1);
    assert!(ends[0].1.nav.back);
}

#[test]
fn dangling_links_are_warnings() {
    let (_, warnings) = Plan::from_def(".".to_string(), sample());
    assert_eq!(warnings, vec![("general".to_string(), "missing".to_string())]);
}

#[test]
fn later_definition_replaces_earlier() {
    let mut d = sample();
    d.screens.push(("home".to_string(), def(vec![], vec![], true, vec![])));
    let (plan, _) = Plan::from_def(".".to_string(), d);
    assert_eq!(names(&plan.screens), vec!["start", "home", "general", "about", "end"]);
    assert!(plan.screens[1].1.nav.back);
}

#[test]
fn loaded_plan_navigates() {
    let (plan, _) = Plan::from_def(".".to_string(), sample());
    let mut e = ScreenEngine::from_plan(&plan);
    e.set_navigate_target("general").unwrap();
    // start -> home -> general
    assert_eq!(e.pending_steps(), 3);
    // `general` links to a screen that does not exist, so nothing leads on from it.
    assert!(e.set_navigate_target("about").is_err());
    assert_eq!(e.pending_steps(), 3);
}

fn same_screens(a: &Plan, b: &Plan) {
    assert_eq!(a.screens.len(), b.screens.len());
    for (name, s) in &a.screens {
        let (_, t) = b.screens.iter().find(|(n, _)| n == name).expect("screen kept");
        assert_eq!(s.ident.len(), t.ident.len());
        assert_eq!(names(&s.nav.to), names(&t.nav.to));
        assert_eq!(s.nav.back, t.nav.back);
        assert_eq!(s.routines, t.routines);
        assert_eq!(s.group, t.group);
    }
    assert_eq!(a.screen_groups.len(), b.screen_groups.len());
    for (name, g) in &a.screen_groups {
        let (_, h) = b.screen_groups.iter().find(|(n, _)| n == name).expect("group kept");
        assert_eq!(g.screens, h.screens);
        assert_eq!(g.nav.back, h.nav.back);
        assert_eq!(names(&g.nav.to), names(&h.nav.to));
        assert_eq!(g.ident.len(), h.ident.len());
    }
}

#[test]
fn reserialized_plan_loads_the_same() {
    let (plan, warnings) = Plan::from_def("w".to_string(), sample());
    let doc = plan.to_def();
    assert_eq!(names(&doc.screens), vec!["start", "home", "end", "settings"]);
    let settings = &doc.screens[3].1;
    let subs = settings.subscreens.as_ref().unwrap();
    assert_eq!(names(subs), vec!["general", "about"]);
    assert!(settings.routines.is_empty());
    let (again, warnings_again) = Plan::from_def("w".to_string(), doc);
    same_screens(&plan, &again);
    assert_eq!(warnings, warnings_again);
    assert_eq!(again.package, "com.example");
}
