use vstd::prelude::*;

use crate::def::{
    clone_names, entries_view, find_entry, find_key, keys_of, names_view, table_keys, GroupView,
    Screen, ScreenGroup, ScreenView,
};
use crate::errors::UnknownScreenError;

verus! {

/// Where the navigator stands: the current screen and the screens a Back leads to.
pub struct StateView {
    pub curr: Seq<char>,
    pub back: Seq<Seq<char>>,
}

/// The runtime position in the screen graph. The last entry of `back` is where a
/// Back action returns to.
#[derive(Debug, Hash, PartialEq, Eq)]
pub struct ScreenState {
    pub curr: String,
    pub back: Vec<String>,
}

impl View for ScreenState {
    type V = StateView;

    open spec fn view(&self) -> StateView {
        StateView { curr: self.curr@, back: names_view(self.back@) }
    }
}

impl Clone for ScreenState {
    fn clone(&self) -> (r: Self)
        ensures
            r@ == self@,
    {
        ScreenState { curr: self.curr.clone(), back: clone_names(&self.back) }
    }
}

/// The screens and screen groups of a plan, as the navigator sees them.
pub struct GraphView {
    pub screens: Seq<(Seq<char>, ScreenView)>,
    pub groups: Seq<(Seq<char>, GroupView)>,
}

pub open spec fn graph_of(screens: Seq<(String, Screen)>, groups: Seq<(String, ScreenGroup)>) -> GraphView {
    GraphView { screens: entries_view(screens), groups: entries_view(groups) }
}

/// Both screens belong to one and the same group.
pub open spec fn same_group(a: ScreenView, b: ScreenView) -> bool {
    a.group is Some && a.group == b.group
}

/// The state after moving from `s` to the screen `target`: a screen without `back`
/// clears the stack; otherwise the current screen is pushed, unless both screens
/// share a group. `None` when either screen is unknown.
pub open spec fn state_to(
    screens: Seq<(Seq<char>, ScreenView)>,
    s: StateView,
    target: Seq<char>,
) -> Option<StateView> {
    match (find_key(screens, s.curr), find_key(screens, target)) {
        (Some(cs), Some(ts)) => if !ts.back {
            Some(StateView { curr: target, back: Seq::empty() })
        } else if same_group(cs, ts) {
            Some(StateView { curr: target, back: s.back })
        } else {
            Some(StateView { curr: target, back: s.back.push(s.curr) })
        },
        _ => None,
    }
}

/// The state after a Back action: the top of the stack becomes current.
pub open spec fn state_back(s: StateView) -> Option<StateView> {
    if s.back.len() == 0 {
        None
    } else {
        Some(StateView { curr: s.back.last(), back: s.back.drop_last() })
    }
}

impl ScreenState {
    /// The state that starts every run: on screen `start`, nothing to go back to.
    pub open spec fn initial_view() -> StateView {
        StateView { curr: seq!['s', 't', 'a', 'r', 't'], back: Seq::empty() }
    }

    pub fn initial() -> (r: ScreenState)
        ensures
            r@ == Self::initial_view(),
    {
        proof {
            reveal_strlit("start");
        }
        let r = ScreenState { curr: "start".to_owned(), back: Vec::new() };
        assert(r@.back =~= Seq::<Seq<char>>::empty());
        assert(r@.curr =~= seq!['s', 't', 'a', 'r', 't']);
        r
    }

    /// Moves to the screen `target`; fails when the current or the target screen is unknown.
    pub fn to(&self, screens: &Vec<(String, Screen)>, target: &str) -> (r: Result<
        ScreenState,
        UnknownScreenError,
    >)
        ensures
            match r {
                Ok(s) => state_to(entries_view(screens@), self@, target@) == Some(s@),
                Err(_) => state_to(entries_view(screens@), self@, target@) is None,
            },
    {
        let ci = find_entry(screens, self.curr.as_str());
        let ti = find_entry(screens, target);
        match (ci, ti) {
            (Some(ci), Some(ti)) => {
                let cs = &screens[ci].1;
                let ts = &screens[ti].1;
                if !ts.nav.back {
                    let r = ScreenState { curr: target.to_owned(), back: Vec::new() };
                    assert(r@.back =~= Seq::<Seq<char>>::empty());
                    Ok(r)
                } else {
                    let mut out = self.clone();
                    let same = match (&cs.group, &ts.group) {
                        (Some(a), Some(b)) => *a == *b,
                        _ => false,
                    };
                    assert(same == same_group(cs@, ts@));
                    if !same {
                        out.back.push(self.curr.clone());
                        assert(out@.back =~= self@.back.push(self@.curr));
                    }
                    out.curr = target.to_owned();
                    Ok(out)
                }
            },
            _ => Err(UnknownScreenError),
        }
    }

    /// Goes back one screen; `None` when the stack is empty.
    pub fn back(&self) -> (r: Option<ScreenState>)
        ensures
            match r {
                Some(s) => state_back(self@) == Some(s@),
                None => state_back(self@) is None,
            },
    {
        if self.back.len() == 0 {
            return None;
        }
        let mut out = self.clone();
        let top = out.back.pop().unwrap();
        out.curr = top;
        assert(out@.back =~= self@.back.drop_last());
        Some(out)
    }

    /// Whether the current screen is `target`.
    pub fn is_at(&self, target: &str) -> (r: bool)
        ensures
            r == (self@.curr == target@),
    {
        self.curr == target.to_owned()
    }

    /// Whether two states are the same: same screen, same stack.
    pub fn same_as(&self, other: &ScreenState) -> (r: bool)
        ensures
            r == (self@ == other@),
    {
        if self.curr != other.curr {
            return false;
        }
        if self.back.len() != other.back.len() {
            assert(self@.back.len() != other@.back.len());
            return false;
        }
        let mut i: usize = 0;
        while i < self.back.len()
            invariant
                i <= self.back.len(),
                self.back.len() == other.back.len(),
                self.curr@ == other.curr@,
                forall|j: int| 0 <= j < i ==> self.back@[j]@ == other.back@[j]@,
            decreases self.back.len() - i,
        {
            if self.back[i] != other.back[i] {
                assert(self@.back[i as int] != other@.back[i as int]);
                return false;
            }
            i += 1;
        }
        assert(self@.back =~= other@.back);
        true
    }
}

/// How a step of a route was taken.
#[derive(Clone, Copy, Debug, Hash, PartialEq, Eq, Structural)]
pub enum ScreenStatePathfindingSource {
    Begin,
    To,
    Back,
    InGroupNavigation,
    GroupTo,
}

pub struct NodeView {
    pub state: StateView,
    pub via: ScreenStatePathfindingSource,
}

/// A state of a route, with the kind of transition that reached it.
#[derive(Debug)]
pub struct ScreenStatePathfinding {
    pub state: ScreenState,
    pub via: ScreenStatePathfindingSource,
}

impl View for ScreenStatePathfinding {
    type V = NodeView;

    open spec fn view(&self) -> NodeView {
        NodeView { state: self.state@, via: self.via }
    }
}

impl Clone for ScreenStatePathfinding {
    fn clone(&self) -> (r: Self)
        ensures
            r@ == self@,
    {
        ScreenStatePathfinding { state: self.state.clone(), via: self.via }
    }
}

pub open spec fn nodes_view(v: Seq<ScreenStatePathfinding>) -> Seq<NodeView> {
    v.map_values(|n: ScreenStatePathfinding| n@)
}

pub open spec fn states_view(v: Seq<ScreenState>) -> Seq<StateView> {
    v.map_values(|s: ScreenState| s@)
}

proof fn lemma_nodes_view_concat(a: Seq<ScreenStatePathfinding>, b: Seq<ScreenStatePathfinding>)
    ensures
        nodes_view(a + b) == nodes_view(a) + nodes_view(b),
{
    assert(nodes_view(a + b) =~= nodes_view(a) + nodes_view(b));
}

/// The transitions from `s` to each of `names` in turn, tagged `via`; with
/// `skip_curr`, the current screen is left out. `None` as soon as one fails.
pub open spec fn moves(
    screens: Seq<(Seq<char>, ScreenView)>,
    s: StateView,
    names: Seq<Seq<char>>,
    via: ScreenStatePathfindingSource,
    skip_curr: bool,
) -> Option<Seq<NodeView>>
    decreases names.len(),
{
    if names.len() == 0 {
        Some(Seq::empty())
    } else {
        let k = names.last();
        match moves(screens, s, names.drop_last(), via, skip_curr) {
            None => None,
            Some(prev) => if skip_curr && k == s.curr {
                Some(prev)
            } else {
                match state_to(screens, s, k) {
                    None => None,
                    Some(n) => Some(prev.push(NodeView { state: n, via })),
                }
            },
        }
    }
}

proof fn lemma_moves_none_extends(
    screens: Seq<(Seq<char>, ScreenView)>,
    s: StateView,
    names: Seq<Seq<char>>,
    via: ScreenStatePathfindingSource,
    skip_curr: bool,
    i: int,
)
    requires
        0 <= i <= names.len(),
        moves(screens, s, names.take(i), via, skip_curr) is None,
    ensures
        moves(screens, s, names, via, skip_curr) is None,
    decreases names.len() - i,
{
    if i < names.len() {
        assert(names.take(i + 1).drop_last() =~= names.take(i));
        lemma_moves_none_extends(screens, s, names, via, skip_curr, i + 1);
    } else {
        assert(names.take(i) =~= names);
    }
}

/// The Back transition, when the current screen allows it and the stack is not empty.
pub open spec fn back_move(cs: ScreenView, s: StateView) -> Seq<NodeView> {
    if cs.back && s.back.len() > 0 {
        seq![NodeView { state: state_back(s).unwrap(), via: ScreenStatePathfindingSource::Back }]
    } else {
        Seq::empty()
    }
}

/// The successors of `s`, in order: Back, the screen's own links, its group's
/// siblings, its group's links. `None` when a name on the way is unknown.
pub open spec fn successors_of(g: GraphView, s: StateView) -> Option<Seq<NodeView>> {
    match find_key(g.screens, s.curr) {
        None => None,
        Some(cs) => match moves(
            g.screens,
            s,
            keys_of(cs.to),
            ScreenStatePathfindingSource::To,
            false,
        ) {
            None => None,
            Some(t) => match cs.group {
                None => Some(back_move(cs, s) + t),
                Some(gn) => match find_key(g.groups, gn) {
                    None => None,
                    Some(gr) => match (
                        moves(
                            g.screens,
                            s,
                            gr.screens,
                            ScreenStatePathfindingSource::InGroupNavigation,
                            true,
                        ),
                        moves(
                            g.screens,
                            s,
                            keys_of(gr.to),
                            ScreenStatePathfindingSource::GroupTo,
                            false,
                        ),
                    ) {
                        (Some(x), Some(y)) => Some(back_move(cs, s) + t + x + y),
                        _ => None,
                    },
                },
            },
        },
    }
}

/// The states reachable in one transition; none where the successors cannot be formed.
pub open spec fn successor_states_of(g: GraphView, s: StateView) -> Seq<StateView> {
    match successors_of(g, s) {
        Some(v) => v.map_values(|n: NodeView| n.state),
        None => Seq::empty(),
    }
}

impl ScreenState {
    fn moves_to(
        &self,
        screens: &Vec<(String, Screen)>,
        names: &Vec<String>,
        via: ScreenStatePathfindingSource,
        skip_curr: bool,
    ) -> (r: Option<Vec<ScreenStatePathfinding>>)
        ensures
            match r {
                Some(v) => moves(entries_view(screens@), self@, names_view(names@), via, skip_curr)
                    == Some(nodes_view(v@)),
                None => moves(
                    entries_view(screens@),
                    self@,
                    names_view(names@),
                    via,
                    skip_curr,
                ) is None,
            },
    {
        let ghost sv = entries_view(screens@);
        let ghost nv = names_view(names@);
        let mut out: Vec<ScreenStatePathfinding> = Vec::new();
        let mut i: usize = 0;
        assert(nv.take(0) =~= Seq::<Seq<char>>::empty());
        assert(nodes_view(out@) =~= Seq::<NodeView>::empty());
        while i < names.len()
            invariant
                i <= names.len(),
                sv == entries_view(screens@),
                nv == names_view(names@),
                moves(sv, self@, nv.take(i as int), via, skip_curr) == Some(nodes_view(out@)),
            decreases names.len() - i,
        {
            assert(nv.take(i + 1).drop_last() =~= nv.take(i as int));
            assert(nv.take(i + 1).last() == names@[i as int]@);
            let k = &names[i];
            if skip_curr && *k == self.curr {
                i += 1;
                continue;
            }
            match self.to(screens, k.as_str()) {
                Ok(n) => {
                    let ghost prev = out@;
                    let node = ScreenStatePathfinding { state: n, via };
                    out.push(node);
                    assert(nodes_view(out@) =~= nodes_view(prev).push(node@));
                },
                Err(_) => {
                    proof {
                        lemma_moves_none_extends(sv, self@, nv, via, skip_curr, i + 1);
                    }
                    return None;
                },
            }
            i += 1;
        }
        assert(nv.take(names.len() as int) =~= nv);
        Some(out)
    }
}

impl ScreenStatePathfinding {
    /// The first node of a route: the state searched from.
    pub fn new(state: ScreenState) -> (r: Self)
        ensures
            r@ == (NodeView { state: state@, via: ScreenStatePathfindingSource::Begin }),
    {
        ScreenStatePathfinding { state, via: ScreenStatePathfindingSource::Begin }
    }
}

impl ScreenState {
    /// All transitions from this state, in the order of `successors_of`.
    pub fn successors(
        &self,
        screens: &Vec<(String, Screen)>,
        screen_groups: &Vec<(String, ScreenGroup)>,
    ) -> (r: Option<Vec<ScreenStatePathfinding>>)
        ensures
            match r {
                Some(v) => successors_of(graph_of(screens@, screen_groups@), self@) == Some(
                    nodes_view(v@),
                ),
                None => successors_of(graph_of(screens@, screen_groups@), self@) is None,
            },
    {
        let ghost g = graph_of(screens@, screen_groups@);
        let ci = match find_entry(screens, self.curr.as_str()) {
            Some(i) => i,
            None => return None,
        };
        let cs = &screens[ci].1;
        let mut succ: Vec<ScreenStatePathfinding> = Vec::new();
        if cs.nav.back {
            if let Some(b) = self.back() {
                succ.push(ScreenStatePathfinding { state: b, via: ScreenStatePathfindingSource::Back });
            }
        }
        assert(nodes_view(succ@) =~= back_move(cs@, self@));
        let keys = table_keys(&cs.nav.to);
        let mut t = match self.moves_to(screens, &keys, ScreenStatePathfindingSource::To, false) {
            Some(t) => t,
            None => return None,
        };
        let ghost before = succ@;
        succ.append(&mut t);
        proof {
            lemma_nodes_view_concat(before, t@);
        }
        let ghost t_part = nodes_view(succ@);
        match &cs.group {
            None => Some(succ),
            Some(gname) => {
                let gi = match find_entry(screen_groups, gname.as_str()) {
                    Some(i) => i,
                    None => return None,
                };
                let gr = &screen_groups[gi].1;
                let mut x = match self.moves_to(
                    screens,
                    &gr.screens,
                    ScreenStatePathfindingSource::InGroupNavigation,
                    true,
                ) {
                    Some(x) => x,
                    None => {
                        assert(successors_of(g, self@) is None);
                        return None;
                    },
                };
                let gkeys = table_keys(&gr.nav.to);
                let mut y = match self.moves_to(
                    screens,
                    &gkeys,
                    ScreenStatePathfindingSource::GroupTo,
                    false,
                ) {
                    Some(y) => y,
                    None => return None,
                };
                let ghost b1 = succ@;
                succ.append(&mut x);
                proof {
                    lemma_nodes_view_concat(b1, x@);
                }
                let ghost b2 = succ@;
                succ.append(&mut y);
                proof {
                    lemma_nodes_view_concat(b2, y@);
                }
                Some(succ)
            },
        }
    }

    /// The states reachable in one transition, as `successor_states_of` gives them.
    pub fn successor_states(
        &self,
        screens: &Vec<(String, Screen)>,
        screen_groups: &Vec<(String, ScreenGroup)>,
    ) -> (r: Vec<ScreenState>)
        ensures
            states_view(r@) == successor_states_of(graph_of(screens@, screen_groups@), self@),
    {
        match self.successors(screens, screen_groups) {
            None => {
                let r: Vec<ScreenState> = Vec::new();
                assert(states_view(r@) =~= Seq::<StateView>::empty());
                r
            },
            Some(v) => {
                let mut r: Vec<ScreenState> = Vec::new();
                let mut i: usize = 0;
                while i < v.len()
                    invariant
                        i <= v.len(),
                        r.len() == i,
                        forall|j: int| 0 <= j < i ==> r@[j]@ == v@[j].state@,
                    decreases v.len() - i,
                {
                    r.push(v[i].state.clone());
                    i += 1;
                }
                assert(states_view(r@) =~= nodes_view(v@).map_values(|n: NodeView| n.state));
                r
            },
        }
    }
}

/// Moving to a screen without `back` leaves an empty back-stack, wherever it starts from.
pub proof fn lemma_to_root_clears_stack(
    screens: Seq<(Seq<char>, ScreenView)>,
    s: StateView,
    t: Seq<char>,
)
    requires
        find_key(screens, t) is Some,
        !find_key(screens, t).unwrap().back,
        state_to(screens, s, t) is Some,
    ensures
        state_to(screens, s, t).unwrap().back.len() == 0,
{
}

/// Moving between two screens of one group leaves the back-stack as it was. (A target
/// without `back` clears the stack instead, so a non-empty stack is kept only when the
/// target keeps a way back.)
pub proof fn lemma_same_group_keeps_stack(
    screens: Seq<(Seq<char>, ScreenView)>,
    s: StateView,
    t: Seq<char>,
)
    requires
        find_key(screens, s.curr) is Some,
        find_key(screens, t) is Some,
        same_group(find_key(screens, s.curr).unwrap(), find_key(screens, t).unwrap()),
        find_key(screens, t).unwrap().back || s.back.len() == 0,
    ensures
        state_to(screens, s, t) == Some(StateView { curr: t, back: s.back }),
{
    if !find_key(screens, t).unwrap().back {
        assert(s.back =~= Seq::<Seq<char>>::empty());
    }
}

} // verus!
