use vstd::prelude::*;

use crate::def::{
    clone_groups, clone_idents, clone_screens, find_entry, find_key, IdentView, Plan, Screen,
    ScreenGroup, ScreenIdent, ScreenTo, ScreenToView, idents_view,
};
use crate::errors::{NavigationError, NoMoreStepsError, PathNotFoundError, UnknownScreenError};
use crate::navigation::{
    graph_of, nodes_view, state_back, state_to, GraphView, NodeView, ScreenState,
    ScreenStatePathfinding, StateView,
};
use crate::route::{is_plan, pathfind, route_exists, screen_to_of, search_ends, unknown_screen};

verus! {

/// What the driver loop must do next.
#[derive(Debug)]
pub enum ScreenEngineAction {
    /// Confirm from a screenshot that the named screen is shown, by all of its identifiers.
    Identify(Vec<(String, Vec<ScreenIdent>)>),
    /// Execute the navigation, then advance to the named screen.
    Navigate(String, ScreenTo),
    /// Nothing is left to do.
    Done,
}

pub enum ActionView {
    Identify(Seq<(Seq<char>, Seq<IdentView>)>),
    Navigate(Seq<char>, ScreenToView),
    Done,
}

impl View for ScreenEngineAction {
    type V = ActionView;

    open spec fn view(&self) -> ActionView {
        match self {
            ScreenEngineAction::Identify(v) => ActionView::Identify(
                v@.map_values(|p: (String, Vec<ScreenIdent>)| (p.0@, idents_view(p.1@))),
            ),
            ScreenEngineAction::Navigate(n, t) => ActionView::Navigate(n@, t@),
            ScreenEngineAction::Done => ActionView::Done,
        }
    }
}

/// The engine as its contracts see it: the screen graph, where it stands, the route
/// still to take, and whether the current screen has been confirmed.
pub struct EngineView {
    pub graph: GraphView,
    pub state: StateView,
    pub steps: Seq<NodeView>,
    pub idented: bool,
}

impl EngineView {
    /// The same engine, with the current screen confirmed.
    pub open spec fn identified(self) -> EngineView {
        EngineView { graph: self.graph, state: self.state, steps: self.steps, idented: true }
    }

    /// The same engine after consuming the first step of the route.
    pub open spec fn advanced(self) -> EngineView {
        EngineView {
            graph: self.graph,
            state: self.steps[0].state,
            steps: self.steps.drop_first(),
            idented: false,
        }
    }

    /// The engine once the leading steps that stand where it already is are consumed.
    pub open spec fn skip_reached(self) -> EngineView
        decreases self.steps.len(),
    {
        if self.steps.len() > 0 && self.steps[0].state == self.state {
            self.advanced().skip_reached()
        } else {
            self
        }
    }

    /// The engine after one call of `step`, and what it returns.
    pub open spec fn step_outcome(self) -> (EngineView, Result<ActionView, NavigationError>) {
        let f = self.skip_reached();
        let cs = find_key(f.graph.screens, f.state.curr);
        if f.steps.len() == 0 {
            (f, Ok(ActionView::Done))
        } else if !f.idented && cs is None {
            (f, Err(unknown_screen()))
        } else if !f.idented && cs.unwrap().ident.len() > 0 {
            (f, Ok(ActionView::Identify(seq![(f.state.curr, cs.unwrap().ident)])))
        } else {
            match screen_to_of(f.graph, f.state.curr, f.steps[0]) {
                Ok(t) => (f.identified(), Ok(ActionView::Navigate(f.steps[0].state.curr, t))),
                Err(e) => (f.identified(), Err(e)),
            }
        }
    }
}

/// Confirming the current screen twice in a step leaves the engine as confirming it once.
pub proof fn lemma_mark_identified_idempotent(e: EngineView)
    ensures
        e.identified().identified() == e.identified(),
{
}

/// Tracks where the application is in the screen graph and which step of a route
/// comes next.
pub struct ScreenEngine {
    screens: Vec<(String, Screen)>,
    screen_groups: Vec<(String, ScreenGroup)>,
    state: ScreenState,
    navigate_plan: std::collections::VecDeque<ScreenStatePathfinding>,
    idented: bool,
}

impl View for ScreenEngine {
    type V = EngineView;

    closed spec fn view(&self) -> EngineView {
        EngineView {
            graph: graph_of(self.screens@, self.screen_groups@),
            state: self.state@,
            steps: nodes_view(self.navigate_plan@),
            idented: self.idented,
        }
    }
}

impl ScreenEngine {
    /// An engine on the plan's screens, standing on `start` with no route; the start
    /// screen counts as confirmed when it has no identifiers.
    pub fn from_plan(plan: &Plan) -> (r: Self)
        ensures
            r@.graph == graph_of(plan.screens@, plan.screen_groups@),
            r@.state == ScreenState::initial_view(),
            r@.steps.len() == 0,
            r@.idented == (find_key(r@.graph.screens, r@.state.curr) matches Some(s)
                && s.ident.len() == 0),
    {
        let screens = clone_screens(&plan.screens);
        let screen_groups = clone_groups(&plan.screen_groups);
        let state = ScreenState::initial();
        let idented = match find_entry(&screens, state.curr.as_str()) {
            Some(i) => screens[i].1.ident.len() == 0,
            None => false,
        };
        let r = ScreenEngine {
            screens,
            screen_groups,
            state,
            navigate_plan: std::collections::VecDeque::new(),
            idented,
        };
        assert(r@.steps =~= Seq::<NodeView>::empty());
        r
    }

    /// Says what to do next: `Done` when the route is used up, `Identify` while the
    /// current screen is unconfirmed and has identifiers, `Navigate` with what to
    /// execute otherwise. Steps standing where the engine already is are consumed
    /// first. `Err` names the screen or group that is missing from the plan: the current
    /// screen, or what the navigation for the next step needs.
    pub fn step(&mut self) -> (r: Result<ScreenEngineAction, NavigationError>)
        ensures
            final(self)@ == old(self)@.step_outcome().0,
            match r {
                Ok(a) => old(self)@.step_outcome().1 == Ok::<ActionView, NavigationError>(a@),
                Err(e) => old(self)@.step_outcome().1 == Err::<ActionView, NavigationError>(e),
            },
            r matches Ok(ScreenEngineAction::Identify(_)) ==> (find_key(
                final(self)@.graph.screens,
                final(self)@.state.curr,
            ) matches Some(cs) && cs.ident.len() > 0),
    {
        loop
            invariant
                self@.skip_reached() == old(self)@.skip_reached(),
            decreases self@.steps.len(),
        {
            if self.navigate_plan.len() == 0 {
                return Ok(ScreenEngineAction::Done);
            }
            if self.navigate_plan[0].state.same_as(&self.state) {
                self.step_navigate();
                continue;
            }
            if !self.idented {
                let ci = match find_entry(&self.screens, self.state.curr.as_str()) {
                    Some(i) => i,
                    None => return Err(NavigationError::UnknownScreen(UnknownScreenError)),
                };
                if self.screens[ci].1.ident.len() > 0 {
                    let ident = clone_idents(&self.screens[ci].1.ident);
                    let v = vec![(self.state.curr.clone(), ident)];
                    let a = ScreenEngineAction::Identify(v);
                    assert(a@ == ActionView::Identify(
                        seq![(self@.state.curr, find_key(self@.graph.screens, self@.state.curr).unwrap().ident)],
                    )) by {
                        assert(v@.map_values(
                            |p: (String, Vec<ScreenIdent>)| (p.0@, idents_view(p.1@)),
                        ) =~= seq![(self@.state.curr, find_key(self@.graph.screens, self@.state.curr).unwrap().ident)]);
                    }
                    return Ok(a);
                }
                self.idented = true;
            }
            let next = self.navigate_plan[0].state.curr.clone();
            let to = self.navigate_plan[0].to_screento(
                self.state.curr.as_str(),
                &self.screens,
                &self.screen_groups,
            );
            self.idented = true;
            return match to {
                Ok(t) => Ok(ScreenEngineAction::Navigate(next, t)),
                Err(e) => Err(e),
            };
        }
    }

    /// Records that the current screen has been confirmed.
    pub fn mark_identified(&mut self, screen_name: &str)
        requires
            screen_name@ == old(self)@.state.curr,
        ensures
            final(self)@ == old(self)@.identified(),
    {
        self.idented = true;
    }

    /// Takes the first step of the route: its state becomes current, unconfirmed.
    pub fn step_navigate(&mut self)
        requires
            old(self)@.steps.len() > 0,
        ensures
            final(self)@ == old(self)@.advanced(),
    {
        let ghost before = self.navigate_plan@;
        let n = self.navigate_plan.pop_front().unwrap();
        self.state = n.state;
        self.idented = false;
        assert(nodes_view(self.navigate_plan@) =~= nodes_view(before).drop_first());
    }

    /// How many steps of the route are left.
    pub fn pending_steps(&self) -> (r: usize)
        ensures
            r == self@.steps.len(),
    {
        self.navigate_plan.len()
    }

    /// Moves to `screen_name` directly, as `ScreenState::to` does.
    pub fn go_to(&mut self, screen_name: &str) -> (r: Result<(), UnknownScreenError>)
        ensures
            match state_to(old(self)@.graph.screens, old(self)@.state, screen_name@) {
                Some(s) => r is Ok && final(self)@ == (EngineView { state: s, ..old(self)@ }),
                None => r is Err && final(self)@ == old(self)@,
            },
    {
        match self.state.to(&self.screens, screen_name) {
            Ok(s) => {
                self.state = s;
                Ok(())
            },
            Err(e) => Err(e),
        }
    }

    /// Goes back one screen; `Err` when the back-stack is empty.
    pub fn go_back(&mut self) -> (r: Result<(), NoMoreStepsError>)
        ensures
            match state_back(old(self)@.state) {
                Some(s) => r is Ok && final(self)@ == (EngineView { state: s, ..old(self)@ }),
                None => r is Err && final(self)@ == old(self)@,
            },
    {
        match self.state.back() {
            Some(s) => {
                self.state = s;
                Ok(())
            },
            None => Err(NoMoreStepsError),
        }
    }

    /// The name of the current screen.
    pub fn get_state(&self) -> (r: &str)
        ensures
            r@ == self@.state.curr,
    {
        self.state.curr.as_str()
    }

    /// Replaces the route by a shortest one from the current state to `screen_name`;
    /// `Err`, with the engine unchanged, exactly when no route exists.
    pub fn set_navigate_target(&mut self, screen_name: &str) -> (r: Result<(), PathNotFoundError>)
        requires
            search_ends(old(self)@.graph, old(self)@.state, screen_name@),
        ensures
            final(self)@.graph == old(self)@.graph,
            final(self)@.state == old(self)@.state,
            final(self)@.idented == old(self)@.idented,
            match r {
                Ok(_) => is_plan(
                    old(self)@.graph,
                    old(self)@.state,
                    screen_name@,
                    final(self)@.steps,
                ),
                Err(_) => !route_exists(old(self)@.graph, old(self)@.state, screen_name@)
                    && final(self)@ == old(self)@,
            },
    {
        let res = pathfind(&self.screens, &self.screen_groups, &self.state, screen_name)?;
        let mut plan: std::collections::VecDeque<ScreenStatePathfinding> =
            std::collections::VecDeque::new();
        let mut i: usize = 0;
        while i < res.len()
            invariant
                i <= res.len(),
                plan@.len() == i,
                forall|k: int| 0 <= k < i ==> (#[trigger] plan@[k])@ == res@[k]@,
            decreases res.len() - i,
        {
            plan.push_back(res[i].clone());
            i += 1;
        }
        assert(nodes_view(plan@) =~= nodes_view(res@));
        self.navigate_plan = plan;
        Ok(())
    }
}

} // verus!
