use vstd::prelude::*;

use crate::def::{find_entry, find_key, Actions, Screen, ScreenGroup, ScreenTo, ScreenToView};
use crate::errors::{
    NavigationError, PathNotFoundError, UnknownScreenError, UnknownScreenGroupError,
};
use crate::navigation::{
    graph_of, moves, nodes_view, state_back, state_to, states_view,
    successor_states_of, successors_of, GraphView, NodeView, ScreenState, ScreenStatePathfinding,
    ScreenStatePathfindingSource, StateView,
};

verus! {

/// Each state of `p` is one transition away from the state before it.
pub open spec fn is_walk(g: GraphView, p: Seq<StateView>) -> bool {
    &&& p.len() >= 1
    &&& forall|i: int|
        0 <= i < p.len() - 1 ==> (#[trigger] successor_states_of(g, p[i])).contains(p[i + 1])
}

/// `p` leads from `s` to a state on the screen `t`.
pub open spec fn is_route(g: GraphView, s: StateView, t: Seq<char>, p: Seq<StateView>) -> bool {
    &&& is_walk(g, p)
    &&& p[0] == s
    &&& p.last().curr == t
}

pub open spec fn route_exists(g: GraphView, s: StateView, t: Seq<char>) -> bool {
    exists|p: Seq<StateView>| is_route(g, s, t, p)
}

/// No transition leads out of `set`.
pub open spec fn closed_under_successors(g: GraphView, set: Set<StateView>) -> bool {
    forall|x: StateView, i: int|
        set.contains(x) && 0 <= i < successor_states_of(g, x).len() ==> set.contains(
            #[trigger] successor_states_of(g, x)[i],
        )
}

/// Only finitely many states can be reached from `s`.
pub open spec fn finitely_many_reachable(g: GraphView, s: StateView) -> bool {
    exists|set: Set<StateView>| set.finite() && set.contains(s) && closed_under_successors(g, set)
}

/// A breadth-first search from `s` for the screen `t` comes to an end: either a route
/// exists, or the states it can visit are finitely many. (Back-stacks can grow without
/// bound in plans with cycles of screens that keep a way back.)
pub open spec fn search_ends(g: GraphView, s: StateView, t: Seq<char>) -> bool {
    route_exists(g, s, t) || finitely_many_reachable(g, s)
}

/// Relies on pathfinding's `bfs`: a breadth-first search from `start` that returns a
/// shortest path (start and end included, each node among the successors of the node
/// before it) to a node for which the success test holds, checking `start` itself first,
/// or `None` once every reachable node has been visited without success.
#[verifier::external_body]
fn shortest_route(
    start: &ScreenState,
    screens: &Vec<(String, Screen)>,
    screen_groups: &Vec<(String, ScreenGroup)>,
    target: &str,
) -> (r: Option<Vec<ScreenState>>)
    requires
        search_ends(graph_of(screens@, screen_groups@), start@, target@),
    ensures
        match r {
            Some(p) => {
                &&& is_route(graph_of(screens@, screen_groups@), start@, target@, states_view(p@))
                &&& forall|q: Seq<StateView>|
                    is_route(graph_of(screens@, screen_groups@), start@, target@, q) ==> p.len()
                        <= q.len()
            },
            None => !route_exists(graph_of(screens@, screen_groups@), start@, target@),
        },
{
    pathfinding::prelude::bfs(
        start,
        |s: &ScreenState| s.successor_states(screens, screen_groups),
        |s: &ScreenState| s.is_at(target),
    )
}

/// The kind of the first transition in `entries` that leads to `st`.
pub open spec fn via_of(entries: Seq<NodeView>, st: StateView) -> ScreenStatePathfindingSource
    decreases entries.len(),
{
    if entries.len() == 0 {
        ScreenStatePathfindingSource::Begin
    } else if entries[0].state == st {
        entries[0].via
    } else {
        via_of(entries.drop_first(), st)
    }
}

proof fn lemma_via_of_skip(entries: Seq<NodeView>, st: StateView, j: int)
    requires
        0 <= j <= entries.len(),
        forall|k: int| 0 <= k < j ==> entries[k].state != st,
    ensures
        via_of(entries, st) == via_of(entries.subrange(j, entries.len() as int), st),
    decreases j,
{
    if j > 0 {
        assert(entries.drop_first().subrange(j - 1, entries.drop_first().len() as int)
            =~= entries.subrange(j, entries.len() as int));
        lemma_via_of_skip(entries.drop_first(), st, j - 1);
    } else {
        assert(entries.subrange(0, entries.len() as int) =~= entries);
    }
}

/// `n` is a shortest route from `s` to the screen `t`, each step tagged with the
/// first transition of its predecessor's successors that leads to it.
pub open spec fn is_plan(g: GraphView, s: StateView, t: Seq<char>, n: Seq<NodeView>) -> bool {
    &&& is_route(g, s, t, n.map_values(|x: NodeView| x.state))
    &&& forall|q: Seq<StateView>| is_route(g, s, t, q) ==> n.len() <= q.len()
    &&& n[0].via == ScreenStatePathfindingSource::Begin
    &&& forall|i: int|
        1 <= i < n.len() ==> #[trigger] n[i].via == via_of(
            successors_of(g, n[i - 1].state).unwrap(),
            n[i].state,
        )
}

/// Computes the route to the screen `target`: `Err` exactly when none exists.
pub fn pathfind(
    screens: &Vec<(String, Screen)>,
    screen_groups: &Vec<(String, ScreenGroup)>,
    start: &ScreenState,
    target: &str,
) -> (r: Result<Vec<ScreenStatePathfinding>, PathNotFoundError>)
    requires
        search_ends(graph_of(screens@, screen_groups@), start@, target@),
    ensures
        match r {
            Ok(n) => is_plan(graph_of(screens@, screen_groups@), start@, target@, nodes_view(n@)),
            Err(_) => !route_exists(graph_of(screens@, screen_groups@), start@, target@),
        },
{
    let ghost g = graph_of(screens@, screen_groups@);
    let path = match shortest_route(start, screens, screen_groups, target) {
        Some(p) => p,
        None => return Err(PathNotFoundError),
    };
    let ghost pv = states_view(path@);
    let mut out: Vec<ScreenStatePathfinding> = Vec::new();
    out.push(ScreenStatePathfinding::new(path[0].clone()));
    let mut i: usize = 1;
    while i < path.len()
        invariant
            1 <= i <= path.len(),
            g == graph_of(screens@, screen_groups@),
            pv == states_view(path@),
            is_walk(g, pv),
            out.len() == i,
            forall|k: int| 0 <= k < i ==> (#[trigger] out@[k])@.state == pv[k],
            out@[0].via == ScreenStatePathfindingSource::Begin,
            forall|k: int|
                1 <= k < i ==> (#[trigger] out@[k]).via == via_of(
                    successors_of(g, pv[k - 1]).unwrap(),
                    pv[k],
                ),
        decreases path.len() - i,
    {
        assert(successor_states_of(g, pv[i - 1]).contains(pv[i as int]));
        assert(pv[i - 1] == path@[i - 1]@);
        let succ = match path[i - 1].successors(screens, screen_groups) {
            Some(v) => v,
            None => {
                assert(successor_states_of(g, pv[i - 1]) =~= Seq::<StateView>::empty());
                return Err(PathNotFoundError);
            },
        };
        let ghost sv = nodes_view(succ@);
        let mut j: usize = 0;
        let mut via = ScreenStatePathfindingSource::Begin;
        let mut found = false;
        while j < succ.len() && !found
            invariant
                j <= succ.len(),
                1 <= i < path.len(),
                pv == states_view(path@),
                sv == nodes_view(succ@),
                successors_of(g, pv[i - 1]) == Some(sv),
                forall|k: int| 0 <= k < j ==> sv[k].state != pv[i as int],
                found ==> via == via_of(sv, pv[i as int]),
            decreases succ.len() - j + (if found { 0int } else { 1int }),
        {
            if succ[j].state.same_as(&path[i]) {
                proof {
                    lemma_via_of_skip(sv, pv[i as int], j as int);
                }
                via = succ[j].via;
                found = true;
            } else {
                j += 1;
            }
        }
        if !found {
            proof {
                let ss = successor_states_of(g, pv[i - 1]);
                assert(ss =~= sv.map_values(|n: NodeView| n.state));
                let k = choose|k: int| 0 <= k < ss.len() && #[trigger] ss[k] == pv[i as int];
                assert(ss[k] == sv[k].state);
            }
            return Err(PathNotFoundError);
        }
        out.push(ScreenStatePathfinding { state: path[i].clone(), via });
        i += 1;
    }
    assert(nodes_view(out@).map_values(|x: NodeView| x.state) =~= pv);
    Ok(out)
}

pub open spec fn unknown_screen() -> NavigationError {
    NavigationError::UnknownScreen(UnknownScreenError)
}

pub open spec fn unknown_group() -> NavigationError {
    NavigationError::UnknownScreenGroup(UnknownScreenGroupError)
}

/// What to execute from the screen `from` to take the step `n`: a Back for a Back,
/// nothing for the first step, otherwise the entry for the step's screen in the
/// navigation table of `from` (for `To`) or of its group. The error names what is missing.
pub open spec fn screen_to_of(g: GraphView, from: Seq<char>, n: NodeView) -> Result<
    ScreenToView,
    NavigationError,
> {
    match find_key(g.screens, from) {
        None => Err(unknown_screen()),
        Some(fs) => match n.via {
            ScreenStatePathfindingSource::To => match find_key(fs.to, n.state.curr) {
                Some(t) => Ok(t),
                None => Err(unknown_screen()),
            },
            ScreenStatePathfindingSource::Back => Ok(ScreenToView::Actions(seq![Actions::Back])),
            ScreenStatePathfindingSource::Begin => Ok(ScreenToView::Actions(Seq::empty())),
            _ => match fs.group {
                None => Err(unknown_group()),
                Some(gn) => match find_key(g.groups, gn) {
                    None => Err(unknown_group()),
                    Some(gr) => match find_key(gr.to, n.state.curr) {
                        Some(t) => Ok(t),
                        None => Err(unknown_screen()),
                    },
                },
            },
        },
    }
}

impl ScreenStatePathfinding {
    /// What to execute, from the screen `from_screen_name`, to take this step, as
    /// `screen_to_of` says; `Err` names the screen or group that is missing.
    pub fn to_screento(
        &self,
        from_screen_name: &str,
        screens: &Vec<(String, Screen)>,
        screen_groups: &Vec<(String, ScreenGroup)>,
    ) -> (r: Result<ScreenTo, NavigationError>)
        ensures
            match r {
                Ok(t) => screen_to_of(graph_of(screens@, screen_groups@), from_screen_name@, self@)
                    == Ok::<ScreenToView, NavigationError>(t@),
                Err(e) => screen_to_of(graph_of(screens@, screen_groups@), from_screen_name@, self@)
                    == Err::<ScreenToView, NavigationError>(e),
            },
    {
        let fi = match find_entry(screens, from_screen_name) {
            Some(i) => i,
            None => return Err(NavigationError::UnknownScreen(UnknownScreenError)),
        };
        let from_screen = &screens[fi].1;
        match self.via {
            ScreenStatePathfindingSource::To => {
                match find_entry(&from_screen.nav.to, self.state.curr.as_str()) {
                    Some(k) => Ok(from_screen.nav.to[k].1.clone()),
                    None => Err(NavigationError::UnknownScreen(UnknownScreenError)),
                }
            },
            ScreenStatePathfindingSource::Back => {
                let v = vec![Actions::Back];
                assert(v@ =~= seq![Actions::Back]);
                Ok(ScreenTo::Actions(v))
            },
            ScreenStatePathfindingSource::Begin => {
                let v: Vec<Actions> = Vec::new();
                assert(v@ =~= Seq::<Actions>::empty());
                Ok(ScreenTo::Actions(v))
            },
            _ => {
                let gname = match &from_screen.group {
                    Some(g) => g,
                    None => return Err(NavigationError::UnknownScreenGroup(UnknownScreenGroupError)),
                };
                let gi = match find_entry(screen_groups, gname.as_str()) {
                    Some(i) => i,
                    None => return Err(NavigationError::UnknownScreenGroup(UnknownScreenGroupError)),
                };
                let gr = &screen_groups[gi].1;
                match find_entry(&gr.nav.to, self.state.curr.as_str()) {
                    Some(k) => Ok(gr.nav.to[k].1.clone()),
                    None => Err(NavigationError::UnknownScreen(UnknownScreenError)),
                }
            },
        }
    }
}

/// The state reached from `prev` by taking the transition that `n` records.
pub open spec fn apply_via(g: GraphView, prev: StateView, n: NodeView) -> Option<StateView> {
    match n.via {
        ScreenStatePathfindingSource::Begin => Some(prev),
        ScreenStatePathfindingSource::Back => state_back(prev),
        _ => state_to(g.screens, prev, n.state.curr),
    }
}

/// The state reached from `s` by taking the transitions of `n` in order.
pub open spec fn replay(g: GraphView, s: StateView, n: Seq<NodeView>) -> Option<StateView>
    decreases n.len(),
{
    if n.len() == 0 {
        Some(s)
    } else {
        match replay(g, s, n.drop_last()) {
            None => None,
            Some(p) => apply_via(g, p, n.last()),
        }
    }
}

proof fn lemma_moves_apply(
    screens: Seq<(Seq<char>, crate::def::ScreenView)>,
    s: StateView,
    names: Seq<Seq<char>>,
    via: ScreenStatePathfindingSource,
    skip_curr: bool,
)
    requires
        moves(screens, s, names, via, skip_curr) is Some,
    ensures
        forall|i: int|
            0 <= i < moves(screens, s, names, via, skip_curr).unwrap().len() ==> {
                let e = #[trigger] moves(screens, s, names, via, skip_curr).unwrap()[i];
                e.via == via && state_to(screens, s, e.state.curr) == Some(e.state)
            },
    decreases names.len(),
{
    if names.len() > 0 {
        lemma_moves_apply(screens, s, names.drop_last(), via, skip_curr);
    }
}

proof fn lemma_successors_apply(g: GraphView, x: StateView)
    requires
        successors_of(g, x) is Some,
    ensures
        forall|i: int|
            0 <= i < successors_of(g, x).unwrap().len() ==> apply_via(
                g,
                x,
                #[trigger] successors_of(g, x).unwrap()[i],
            ) == Some(successors_of(g, x).unwrap()[i].state),
{
    let cs = find_key(g.screens, x.curr).unwrap();
    lemma_moves_apply(g.screens, x, crate::def::keys_of(cs.to), ScreenStatePathfindingSource::To, false);
    if let Some(gn) = cs.group {
        let gr = find_key(g.groups, gn).unwrap();
        lemma_moves_apply(
            g.screens,
            x,
            gr.screens,
            ScreenStatePathfindingSource::InGroupNavigation,
            true,
        );
        lemma_moves_apply(
            g.screens,
            x,
            crate::def::keys_of(gr.to),
            ScreenStatePathfindingSource::GroupTo,
            false,
        );
    }
}

proof fn lemma_via_of_found(entries: Seq<NodeView>, st: StateView, k: int)
    requires
        0 <= k < entries.len(),
        entries[k].state == st,
    ensures
        exists|j: int|
            0 <= j < entries.len() && entries[j].state == st && entries[j].via == via_of(
                entries,
                st,
            ),
    decreases k,
{
    if entries[0].state == st {
        assert(entries[0].via == via_of(entries, st));
    } else {
        lemma_via_of_found(entries.drop_first(), st, k - 1);
        let j = choose|j: int|
            0 <= j < entries.drop_first().len() && #[trigger] entries.drop_first()[j].state == st
                && entries.drop_first()[j].via == via_of(entries.drop_first(), st);
        assert(entries[j + 1].state == st);
    }
}

proof fn lemma_via_of_apply(g: GraphView, x: StateView, st: StateView)
    requires
        successor_states_of(g, x).contains(st),
    ensures
        successors_of(g, x) is Some,
        apply_via(
            g,
            x,
            NodeView { state: st, via: via_of(successors_of(g, x).unwrap(), st) },
        ) == Some(st),
{
    if successors_of(g, x) is None {
        assert(successor_states_of(g, x) =~= Seq::<StateView>::empty());
    }
    let v = successors_of(g, x).unwrap();
    lemma_successors_apply(g, x);
    let ss = successor_states_of(g, x);
    let k = choose|k: int| 0 <= k < ss.len() && #[trigger] ss[k] == st;
    assert(v[k].state == st);
    lemma_via_of_found(v, st, k);
    let j = choose|j: int| 0 <= j < v.len() && #[trigger] v[j].state == st && v[j].via == via_of(v, st);
    assert(apply_via(g, x, v[j]) == Some(v[j].state));
    assert(v[j] == NodeView { state: st, via: via_of(v, st) });
}

proof fn lemma_replay_prefix(g: GraphView, s: StateView, t: Seq<char>, n: Seq<NodeView>, k: int)
    requires
        is_plan(g, s, t, n),
        1 <= k <= n.len(),
    ensures
        replay(g, s, n.take(k)) == Some(n[k - 1].state),
    decreases k,
{
    let ps = n.map_values(|x: NodeView| x.state);
    assert(n.take(k).drop_last() =~= n.take(k - 1));
    assert(n.take(k).last() == n[k - 1]);
    if k == 1 {
        assert(n.take(0) =~= Seq::<NodeView>::empty());
        assert(ps[0] == s);
    } else {
        lemma_replay_prefix(g, s, t, n, k - 1);
        assert(successor_states_of(g, ps[k - 2]).contains(ps[k - 1]));
        lemma_via_of_apply(g, n[k - 2].state, n[k - 1].state);
        assert(n[k - 1].via == via_of(successors_of(g, n[k - 2].state).unwrap(), n[k - 1].state));
        assert(n[k - 1] == NodeView {
            state: n[k - 1].state,
            via: via_of(successors_of(g, n[k - 2].state).unwrap(), n[k - 1].state),
        });
    }
}

/// Retracing a route that `pathfind` returns: taking, from the state searched from, the
/// transition that each step records (Back pops the stack, the others move to the step's
/// screen) passes through every state of the route and ends on the target screen.
pub proof fn lemma_plan_replays(g: GraphView, s: StateView, t: Seq<char>, n: Seq<NodeView>)
    requires
        is_plan(g, s, t, n),
    ensures
        replay(g, s, n) == Some(n.last().state),
        n.last().state.curr == t,
{
    lemma_replay_prefix(g, s, t, n, n.len() as int);
    assert(n.take(n.len() as int) =~= n);
    let ps = n.map_values(|x: NodeView| x.state);
    assert(ps.last() == n.last().state);
}

/// A screen with no links, no way back and no group is a dead end: a search from it
/// comes to an end, and no route leads from it to any other screen.
pub proof fn lemma_dead_end(g: GraphView, s: StateView, t: Seq<char>)
    requires
        find_key(g.screens, s.curr) is Some,
        find_key(g.screens, s.curr).unwrap().to.len() == 0,
        !find_key(g.screens, s.curr).unwrap().back,
        find_key(g.screens, s.curr).unwrap().group is None,
        s.curr != t,
    ensures
        search_ends(g, s, t),
        !route_exists(g, s, t),
{
    let cs = find_key(g.screens, s.curr).unwrap();
    assert(crate::def::keys_of(cs.to) =~= Seq::<Seq<char>>::empty());
    assert(successors_of(g, s).unwrap() =~= Seq::<NodeView>::empty());
    assert(successor_states_of(g, s) =~= Seq::<StateView>::empty());
    let set = Set::<StateView>::empty().insert(s);
    assert(closed_under_successors(g, set));
    assert(set.finite());
    assert forall|p: Seq<StateView>| !is_route(g, s, t, p) by {
        if is_route(g, s, t, p) {
            if p.len() > 1 {
                assert(successor_states_of(g, p[0]).contains(p[1]));
            }
        }
    }
}

/// No two neighbouring entries of the stack are the same screen.
pub open spec fn no_adjacent_duplicates(b: Seq<Seq<char>>) -> bool {
    forall|i: int| 0 <= i < b.len() - 1 ==> #[trigger] b[i] != b[i + 1]
}

/// The current screen is not on the back-stack, and the stack never names a screen
/// twice in a row.
pub open spec fn stack_invariant(s: StateView) -> bool {
    !s.back.contains(s.curr) && no_adjacent_duplicates(s.back)
}

/// The move `e` from `x` does not land on a screen that the back-stack holds: it is a
/// Back, or it clears the stack, or its screen is neither on the stack nor (when the
/// move pushes) the current one.
pub open spec fn lands_fresh(x: StateView, e: NodeView) -> bool {
    ||| e.via == ScreenStatePathfindingSource::Back
    ||| e.state.back.len() == 0
    ||| !x.back.contains(e.state.curr) && (e.state.curr != x.curr || e.state.back == x.back)
}

/// Each state of `p` is reached from the one before by a transition of the graph that
/// lands fresh.
pub open spec fn is_fresh_walk(g: GraphView, p: Seq<StateView>) -> bool {
    forall|i: int|
        0 <= i < p.len() - 1 ==> exists|e: NodeView|
            #[trigger] successors_of(g, p[i]) is Some && successors_of(g, p[i]).unwrap().contains(e)
                && e.state == p[i + 1] && lands_fresh(p[i], e)
}

proof fn lemma_fresh_step(g: GraphView, x: StateView, e: NodeView)
    requires
        successors_of(g, x) is Some,
        successors_of(g, x).unwrap().contains(e),
        x.back.no_duplicates(),
        !x.back.contains(x.curr),
        lands_fresh(x, e),
    ensures
        e.state.back.no_duplicates(),
        !e.state.back.contains(e.state.curr),
{
    let v = successors_of(g, x).unwrap();
    lemma_successors_apply(g, x);
    let k = choose|k: int| 0 <= k < v.len() && v[k] == e;
    assert(apply_via(g, x, v[k]) == Some(v[k].state));
    if e.via == ScreenStatePathfindingSource::Back {
        let b = x.back;
        assert(e.state.back == b.drop_last());
        assert(e.state.curr == b.last());
        if e.state.back.contains(e.state.curr) {
            let m = choose|m: int| 0 <= m < b.drop_last().len() && b.drop_last()[m] == b.last();
            assert(b[m] == b[b.len() - 1]);
        }
    } else if e.via == ScreenStatePathfindingSource::Begin {
    } else {
        assert(state_to(g.screens, x, e.state.curr) == Some(e.state));
        if e.state.back.len() > 0 && e.state.back != x.back {
            assert(e.state.back == x.back.push(x.curr));
            assert forall|i: int, j: int|
                0 <= i < e.state.back.len() && 0 <= j < e.state.back.len() && i != j implies
                e.state.back[i] != e.state.back[j] by {
                if i < x.back.len() && j < x.back.len() {
                    assert(x.back[i] != x.back[j]);
                } else if i < x.back.len() {
                    assert(x.back.contains(x.back[i]));
                } else if j < x.back.len() {
                    assert(x.back.contains(x.back[j]));
                }
            }
            if e.state.back.contains(e.state.curr) {
                let m = choose|m: int| 0 <= m < e.state.back.len() && e.state.back[m] == e.state.curr;
                if m < x.back.len() {
                    assert(x.back.contains(x.back[m]));
                }
            }
        }
    }
}

/// Along any walk from the initial state whose moves land fresh, the current screen is
/// never on the back-stack and the stack never names a screen twice in a row. (A move
/// onto a screen that the stack already holds breaks this: with screens `a` and `b`
/// that keep a way back and link to each other, `a`, `b`, `a` leaves `a` current and
/// on the stack.)
pub proof fn lemma_fresh_walk_keeps_stack_invariant(g: GraphView, p: Seq<StateView>)
    requires
        p.len() >= 1,
        p[0] == ScreenState::initial_view(),
        is_fresh_walk(g, p),
    ensures
        forall|i: int| 0 <= i < p.len() ==> #[trigger] stack_invariant(p[i]),
{
    lemma_fresh_walk_prefix(g, p, p.len() - 1);
    assert forall|i: int| 0 <= i < p.len() implies #[trigger] stack_invariant(p[i]) by {
        lemma_fresh_walk_prefix(g, p, i);
        assert forall|m: int| 0 <= m < p[i].back.len() - 1 implies #[trigger] p[i].back[m]
            != p[i].back[m + 1] by {
            assert(p[i].back.no_duplicates());
        }
    }
}

proof fn lemma_fresh_walk_prefix(g: GraphView, p: Seq<StateView>, i: int)
    requires
        0 <= i < p.len(),
        p[0] == ScreenState::initial_view(),
        is_fresh_walk(g, p),
    ensures
        p[i].back.no_duplicates(),
        !p[i].back.contains(p[i].curr),
    decreases i,
{
    if i == 0 {
        assert(p[0].back =~= Seq::<Seq<char>>::empty());
    } else {
        lemma_fresh_walk_prefix(g, p, i - 1);
        assert(successors_of(g, p[i - 1]) is Some);
        let e = choose|e: NodeView|
            successors_of(g, p[i - 1]) is Some && successors_of(g, p[i - 1]).unwrap().contains(e)
                && e.state == p[i] && lands_fresh(p[i - 1], e);
        lemma_fresh_step(g, p[i - 1], e);
    }
}

} // verus!
