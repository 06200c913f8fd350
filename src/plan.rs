use vstd::prelude::*;

use crate::def::{
    clone_idents, clone_names, clone_table, entries_view, find_entry, find_key, keys_of,
    names_view, table_view, GroupView, Plan, PlanDef, Screen, ScreenDef, ScreenDefView,
    ScreenGroup, ScreenNavigation, ScreenTo, ScreenView, Subscreen, SubscreenView,
};

verus! {

/// Position of the first entry of `t` whose key is `k`.
pub open spec fn key_position<V>(t: Seq<(Seq<char>, V)>, k: Seq<char>) -> Option<int>
    decreases t.len(),
{
    if t.len() == 0 {
        None
    } else if t[0].0 == k {
        Some(0)
    } else {
        match key_position(t.drop_first(), k) {
            Some(i) => Some(i + 1),
            None => None,
        }
    }
}

/// `t` with `k` bound to `v`: the entry for `k` replaced in place, or appended when
/// there is none.
pub open spec fn insert_entry<V>(t: Seq<(Seq<char>, V)>, k: Seq<char>, v: V) -> Seq<(Seq<char>, V)> {
    match key_position(t, k) {
        Some(i) => t.update(i, (k, v)),
        None => t.push((k, v)),
    }
}

proof fn lemma_key_position<V>(t: Seq<(Seq<char>, V)>, k: Seq<char>, i: int)
    requires
        0 <= i <= t.len(),
        forall|j: int| 0 <= j < i ==> t[j].0 != k,
        i < t.len() ==> t[i].0 == k,
    ensures
        key_position(t, k) == if i < t.len() {
            Some(i)
        } else {
            None::<int>
        },
    decreases i,
{
    if i > 0 {
        lemma_key_position(t.drop_first(), k, i - 1);
    }
}

/// Binds `k` to `v` in the table `t`, as `insert_entry` says.
fn put_entry<V: View>(t: &mut Vec<(String, V)>, k: String, v: V)
    ensures
        entries_view(final(t)@) == insert_entry(entries_view(old(t)@), k@, v@),
{
    let ghost tv = entries_view(t@);
    match find_entry(&*t, k.as_str()) {
        Some(i) => {
            proof {
                lemma_key_position(tv, k@, i as int);
            }
            let ghost kv = k@;
            let ghost vv = v@;
            t.set(i, (k, v));
            assert(entries_view(t@) =~= tv.update(i as int, (kv, vv)));
        },
        None => {
            proof {
                lemma_key_position(tv, k@, tv.len() as int);
            }
            let ghost kv = k@;
            let ghost vv = v@;
            t.push((k, v));
            assert(entries_view(t@) =~= tv.push((kv, vv)));
        },
    }
}

/// Each routine of `routines` located at the screen `screen`, in order.
pub open spec fn locate_routines(
    rl: Seq<(Seq<char>, Seq<char>)>,
    routines: Seq<Seq<char>>,
    screen: Seq<char>,
) -> Seq<(Seq<char>, Seq<char>)>
    decreases routines.len(),
{
    if routines.len() == 0 {
        rl
    } else {
        insert_entry(locate_routines(rl, routines.drop_last(), screen), routines.last(), screen)
    }
}

fn locate(rl: &mut Vec<(String, String)>, routines: &Vec<String>, screen: &String)
    ensures
        entries_view(final(rl)@) == locate_routines(
            entries_view(old(rl)@),
            names_view(routines@),
            screen@,
        ),
{
    let ghost start = entries_view(rl@);
    let ghost rv = names_view(routines@);
    let mut i: usize = 0;
    while i < routines.len()
        invariant
            i <= routines.len(),
            rv == names_view(routines@),
            entries_view(rl@) == locate_routines(start, rv.take(i as int), screen@),
        decreases routines.len() - i,
    {
        assert(rv.take(i + 1).drop_last() =~= rv.take(i as int));
        put_entry(rl, routines[i].clone(), screen.clone());
        i += 1;
    }
    assert(rv.take(routines.len() as int) =~= rv);
}

/// What the navigator keeps of a loaded plan.
pub struct Loaded {
    pub screens: Seq<(Seq<char>, ScreenView)>,
    pub groups: Seq<(Seq<char>, GroupView)>,
    pub routines: Seq<(Seq<char>, Seq<char>)>,
}

/// A subscreen of the group `parent`, as a screen: it keeps a way back when the group does.
pub open spec fn member_view(parent: Seq<char>, back: bool, sub: SubscreenView) -> ScreenView {
    ScreenView {
        ident: sub.ident,
        to: sub.to,
        back,
        routines: sub.routines,
        group: Some(parent),
    }
}

/// `st` with the subscreens of the group `parent` added as screens, in order.
pub open spec fn load_members(
    st: Loaded,
    parent: Seq<char>,
    back: bool,
    subs: Seq<(Seq<char>, SubscreenView)>,
) -> Loaded
    decreases subs.len(),
{
    if subs.len() == 0 {
        st
    } else {
        let prev = load_members(st, parent, back, subs.drop_last());
        let n = subs.last().0;
        let sub = subs.last().1;
        Loaded {
            screens: insert_entry(prev.screens, n, member_view(parent, back, sub)),
            groups: prev.groups,
            routines: locate_routines(prev.routines, sub.routines, n),
        }
    }
}

/// `st` with the plan document's screen `name` added: a screen with subscreens becomes a
/// group whose members are its subscreens; any other becomes a screen of no group.
pub open spec fn load_entry(st: Loaded, name: Seq<char>, d: ScreenDefView) -> Loaded {
    match d.subscreens {
        Some(subs) => {
            let m = load_members(st, name, d.back, subs);
            Loaded {
                screens: m.screens,
                groups: insert_entry(
                    m.groups,
                    name,
                    GroupView { ident: d.ident, screens: keys_of(subs), to: d.to, back: d.back },
                ),
                routines: m.routines,
            }
        },
        None => Loaded {
            screens: insert_entry(
                st.screens,
                name,
                ScreenView {
                    ident: d.ident,
                    to: d.to,
                    back: d.back,
                    routines: d.routines,
                    group: None,
                },
            ),
            groups: st.groups,
            routines: locate_routines(st.routines, d.routines, name),
        },
    }
}

/// The screens, groups and routine locations of a plan document's screens, taken in
/// document order; a later definition of a name replaces an earlier one.
pub open spec fn load_defs(defs: Seq<(Seq<char>, ScreenDefView)>) -> Loaded
    decreases defs.len(),
{
    if defs.len() == 0 {
        Loaded { screens: Seq::empty(), groups: Seq::empty(), routines: Seq::empty() }
    } else {
        load_entry(load_defs(defs.drop_last()), defs.last().0, defs.last().1)
    }
}

pub open spec fn end_name() -> Seq<char> {
    seq!['e', 'n', 'd']
}

/// The terminal screen added to plans that lack one.
pub open spec fn end_screen() -> ScreenView {
    ScreenView {
        ident: Seq::empty(),
        to: Seq::empty(),
        back: false,
        routines: Seq::empty(),
        group: None,
    }
}

pub open spec fn with_end(screens: Seq<(Seq<char>, ScreenView)>) -> Seq<(Seq<char>, ScreenView)> {
    if find_key(screens, end_name()) is Some {
        screens
    } else {
        screens.push((end_name(), end_screen()))
    }
}

/// `(owner, target)` for each of `targets`, in order, that names no screen.
pub open spec fn dangling_of(
    screens: Seq<(Seq<char>, ScreenView)>,
    owner: Seq<char>,
    targets: Seq<Seq<char>>,
) -> Seq<(Seq<char>, Seq<char>)>
    decreases targets.len(),
{
    if targets.len() == 0 {
        Seq::empty()
    } else {
        let prev = dangling_of(screens, owner, targets.drop_last());
        if find_key(screens, targets.last()) is None {
            prev.push((owner, targets.last()))
        } else {
            prev
        }
    }
}

/// The links of the screens `owners` that lead to no screen of `screens`.
pub open spec fn screen_warnings(
    screens: Seq<(Seq<char>, ScreenView)>,
    owners: Seq<(Seq<char>, ScreenView)>,
) -> Seq<(Seq<char>, Seq<char>)>
    decreases owners.len(),
{
    if owners.len() == 0 {
        Seq::empty()
    } else {
        screen_warnings(screens, owners.drop_last()) + dangling_of(
            screens,
            owners.last().0,
            keys_of(owners.last().1.to),
        )
    }
}

/// The links of the groups `owners` that lead to no screen of `screens`.
pub open spec fn group_warnings(
    screens: Seq<(Seq<char>, ScreenView)>,
    owners: Seq<(Seq<char>, GroupView)>,
) -> Seq<(Seq<char>, Seq<char>)>
    decreases owners.len(),
{
    if owners.len() == 0 {
        Seq::empty()
    } else {
        group_warnings(screens, owners.drop_last()) + dangling_of(
            screens,
            owners.last().0,
            keys_of(owners.last().1.to),
        )
    }
}

fn push_dangling(
    screens: &Vec<(String, Screen)>,
    owner: &String,
    to: &Vec<(String, ScreenTo)>,
    out: &mut Vec<(String, String)>,
)
    ensures
        entries_view(final(out)@) == entries_view(old(out)@) + dangling_of(
            entries_view(screens@),
            owner@,
            keys_of(table_view(to@)),
        ),
{
    let ghost start = entries_view(out@);
    let ghost keys = keys_of(table_view(to@));
    let mut i: usize = 0;
    while i < to.len()
        invariant
            i <= to.len(),
            keys == keys_of(table_view(to@)),
            entries_view(out@) == start + dangling_of(
                entries_view(screens@),
                owner@,
                keys.take(i as int),
            ),
        decreases to.len() - i,
    {
        assert(keys.take(i + 1).drop_last() =~= keys.take(i as int));
        assert(keys.take(i + 1).last() == to@[i as int].0@);
        if find_entry(screens, to[i].0.as_str()).is_none() {
            let ghost before = entries_view(out@);
            out.push((owner.clone(), to[i].0.clone()));
            assert(entries_view(out@) =~= before.push((owner@, to@[i as int].0@)));
        }
        i += 1;
    }
    assert(keys.take(to.len() as int) =~= keys);
}

/// The links of screens and groups that lead to no screen, as (owner, target) pairs:
/// those of the screens first, then those of the groups, each in table order.
pub fn dangling_links(
    screens: &Vec<(String, Screen)>,
    screen_groups: &Vec<(String, ScreenGroup)>,
) -> (r: Vec<(String, String)>)
    ensures
        entries_view(r@) == screen_warnings(entries_view(screens@), entries_view(screens@))
            + group_warnings(entries_view(screens@), entries_view(screen_groups@)),
{
    let ghost sv = entries_view(screens@);
    let ghost gv = entries_view(screen_groups@);
    let mut out: Vec<(String, String)> = Vec::new();
    let mut i: usize = 0;
    assert(entries_view(out@) =~= Seq::<(Seq<char>, Seq<char>)>::empty());
    while i < screens.len()
        invariant
            i <= screens.len(),
            sv == entries_view(screens@),
            entries_view(out@) == screen_warnings(sv, sv.take(i as int)),
        decreases screens.len() - i,
    {
        assert(sv.take(i + 1).drop_last() =~= sv.take(i as int));
        push_dangling(screens, &screens[i].0, &screens[i].1.nav.to, &mut out);
        i += 1;
    }
    assert(sv.take(screens.len() as int) =~= sv);
    let ghost sw = entries_view(out@);
    let mut j: usize = 0;
    while j < screen_groups.len()
        invariant
            j <= screen_groups.len(),
            sv == entries_view(screens@),
            gv == entries_view(screen_groups@),
            entries_view(out@) == sw + group_warnings(sv, gv.take(j as int)),
        decreases screen_groups.len() - j,
    {
        assert(gv.take(j + 1).drop_last() =~= gv.take(j as int));
        push_dangling(screens, &screen_groups[j].0, &screen_groups[j].1.nav.to, &mut out);
        j += 1;
        assert(entries_view(out@) =~= sw + group_warnings(sv, gv.take(j as int)));
    }
    assert(gv.take(screen_groups.len() as int) =~= gv);
    out
}

fn member_names(subs: &Vec<(String, Subscreen)>) -> (r: Vec<String>)
    ensures
        names_view(r@) == keys_of(entries_view(subs@)),
{
    let mut r: Vec<String> = Vec::new();
    let mut i: usize = 0;
    while i < subs.len()
        invariant
            i <= subs.len(),
            r.len() == i,
            forall|m: int| 0 <= m < i ==> r@[m]@ == subs@[m].0@,
        decreases subs.len() - i,
    {
        r.push(subs[i].0.clone());
        i += 1;
    }
    assert(names_view(r@) =~= keys_of(entries_view(subs@)));
    r
}

impl Plan {
    /// Builds a plan from a plan document read from `workdir`, with the links that lead
    /// to no screen. Subscreens become screens of a group named after their parent; a
    /// screen `end` with no identifiers, links or way back is added when missing.
    pub fn from_def(workdir: String, def: PlanDef) -> (r: (Plan, Vec<(String, String)>))
        ensures
            r.0.workdir@ == workdir@,
            r.0.package@ == def.package@,
            r.0.activity@ == def.activity@,
            r.0.schedules == def.schedules,
            entries_view(r.0.screens@) == with_end(load_defs(entries_view(def.screens@)).screens),
            entries_view(r.0.screen_groups@) == load_defs(entries_view(def.screens@)).groups,
            entries_view(r.0.routine_location@) == load_defs(
                entries_view(def.screens@),
            ).routines,
            entries_view(r.1@) == screen_warnings(
                entries_view(r.0.screens@),
                entries_view(r.0.screens@),
            ) + group_warnings(entries_view(r.0.screens@), entries_view(r.0.screen_groups@)),
    {
        let ghost defs = entries_view(def.screens@);
        let mut screens: Vec<(String, Screen)> = Vec::new();
        let mut groups: Vec<(String, ScreenGroup)> = Vec::new();
        let mut routine_location: Vec<(String, String)> = Vec::new();
        let mut i: usize = 0;
        assert(entries_view(screens@) =~= Seq::<(Seq<char>, ScreenView)>::empty());
        assert(entries_view(groups@) =~= Seq::<(Seq<char>, GroupView)>::empty());
        assert(entries_view(routine_location@) =~= Seq::<(Seq<char>, Seq<char>)>::empty());
        while i < def.screens.len()
            invariant
                i <= def.screens.len(),
                defs == entries_view(def.screens@),
                (Loaded {
                    screens: entries_view(screens@),
                    groups: entries_view(groups@),
                    routines: entries_view(routine_location@),
                }) == load_defs(defs.take(i as int)),
            decreases def.screens.len() - i,
        {
            assert(defs.take(i + 1).drop_last() =~= defs.take(i as int));
            let name = &def.screens[i].0;
            let sd = &def.screens[i].1;
            let ghost before = load_defs(defs.take(i as int));
            match &sd.subscreens {
                Some(subs) => {
                    let ghost sv = entries_view(subs@);
                    let mut j: usize = 0;
                    while j < subs.len()
                        invariant
                            j <= subs.len(),
                            sv == entries_view(subs@),
                            (Loaded {
                                screens: entries_view(screens@),
                                groups: entries_view(groups@),
                                routines: entries_view(routine_location@),
                            }) == load_members(before, name@, sd.nav.back, sv.take(j as int)),
                        decreases subs.len() - j,
                    {
                        assert(sv.take(j + 1).drop_last() =~= sv.take(j as int));
                        let sub_name = &subs[j].0;
                        let sub = &subs[j].1;
                        locate(&mut routine_location, &sub.routines, sub_name);
                        let screen = Screen {
                            ident: clone_idents(&sub.ident),
                            nav: ScreenNavigation { to: clone_table(&sub.to), back: sd.nav.back },
                            routines: clone_names(&sub.routines),
                            group: Some(name.clone()),
                        };
                        assert(screen@ == member_view(name@, sd.nav.back, sub@));
                        put_entry(&mut screens, sub_name.clone(), screen);
                        j += 1;
                    }
                    assert(sv.take(subs.len() as int) =~= sv);
                    let group = ScreenGroup {
                        ident: clone_idents(&sd.ident),
                        screens: member_names(subs),
                        nav: sd.nav.clone(),
                    };
                    put_entry(&mut groups, name.clone(), group);
                },
                None => {
                    locate(&mut routine_location, &sd.routines, name);
                    let screen = Screen {
                        ident: clone_idents(&sd.ident),
                        nav: sd.nav.clone(),
                        routines: clone_names(&sd.routines),
                        group: None,
                    };
                    put_entry(&mut screens, name.clone(), screen);
                },
            }
            i += 1;
        }
        assert(defs.take(def.screens.len() as int) =~= defs);
        proof {
            reveal_strlit("end");
            assert("end"@ =~= end_name());
        }
        if find_entry(&screens, "end").is_none() {
            let end = Screen {
                ident: Vec::new(),
                nav: ScreenNavigation { to: Vec::new(), back: false },
                routines: Vec::new(),
                group: None,
            };
            let ghost before = entries_view(screens@);
            let end_key = "end".to_owned();
            assert(end_key@ =~= end_name());
            screens.push((end_key, end));
            assert(end@ == end_screen()) by {
                assert(end@.ident =~= Seq::empty());
                assert(end@.to =~= Seq::empty());
                assert(end@.routines =~= Seq::empty());
            }
            assert(entries_view(screens@) =~= before.push((end_name(), end_screen())));
        }
        let warnings = dangling_links(&screens, &groups);
        let plan = Plan {
            workdir,
            package: def.package,
            activity: def.activity,
            screens,
            screen_groups: groups,
            schedules: def.schedules,
            routine_location,
        };
        (plan, warnings)
    }
}

proof fn lemma_key_position_valid<V>(t: Seq<(Seq<char>, V)>, k: Seq<char>)
    ensures
        key_position(t, k) matches Some(i) ==> 0 <= i < t.len() && t[i].0 == k,
        key_position(t, k) is None ==> forall|i: int| 0 <= i < t.len() ==> t[i].0 != k,
    decreases t.len(),
{
    if t.len() > 0 {
        lemma_key_position_valid(t.drop_first(), k);
        if key_position(t, k) is None {
            assert forall|i: int| 0 <= i < t.len() implies t[i].0 != k by {
                if i > 0 {
                    assert(t[i] == t.drop_first()[i - 1]);
                }
            }
        }
    }
}

proof fn lemma_find_insert<V>(t: Seq<(Seq<char>, V)>, k: Seq<char>, v: V, q: Seq<char>)
    ensures
        find_key(insert_entry(t, k, v), q) == if q == k {
            Some(v)
        } else {
            find_key(t, q)
        },
    decreases t.len(),
{
    let r = insert_entry(t, k, v);
    if t.len() > 0 {
        if t[0].0 == k {
            assert(key_position(t, k) == Some(0int));
            assert(r == t.update(0, (k, v)));
            assert(r[0] == (k, v));
            assert(r.drop_first() =~= t.drop_first());
            assert(find_key(r, q) == if q == k { Some(v) } else { find_key(t, q) });
        } else {
            lemma_find_insert(t.drop_first(), k, v, q);
            lemma_key_position_valid(t.drop_first(), k);
            assert(r[0] == t[0]);
            assert(r.drop_first() =~= insert_entry(t.drop_first(), k, v));
            assert(r.len() > 0);
            assert(find_key(r, q) == if q == k { Some(v) } else { find_key(t, q) });
        }
    } else {
        assert(r == t.push((k, v)));
        assert(r[0] == (k, v));
        assert(r.drop_first() =~= Seq::<(Seq<char>, V)>::empty());
        assert(find_key(r.drop_first(), q) is None);
    }
}

/// The last subscreen of `subs` named `k`.
pub open spec fn last_sub(subs: Seq<(Seq<char>, SubscreenView)>, k: Seq<char>) -> Option<
    SubscreenView,
>
    decreases subs.len(),
{
    if subs.len() == 0 {
        None
    } else if subs.last().0 == k {
        Some(subs.last().1)
    } else {
        last_sub(subs.drop_last(), k)
    }
}

/// The screen that the last definition of `k` in `defs` gives: as a subscreen of a
/// group, or as a screen of its own.
pub open spec fn last_screen_def(defs: Seq<(Seq<char>, ScreenDefView)>, k: Seq<char>) -> Option<
    ScreenView,
>
    decreases defs.len(),
{
    if defs.len() == 0 {
        None
    } else {
        let n = defs.last().0;
        let d = defs.last().1;
        match d.subscreens {
            Some(subs) => match last_sub(subs, k) {
                Some(sub) => Some(member_view(n, d.back, sub)),
                None => last_screen_def(defs.drop_last(), k),
            },
            None => if n == k {
                Some(
                    ScreenView {
                        ident: d.ident,
                        to: d.to,
                        back: d.back,
                        routines: d.routines,
                        group: None,
                    },
                )
            } else {
                last_screen_def(defs.drop_last(), k)
            },
        }
    }
}

/// The group that the last group definition named `k` in `defs` gives.
pub open spec fn last_group_def(defs: Seq<(Seq<char>, ScreenDefView)>, k: Seq<char>) -> Option<
    GroupView,
>
    decreases defs.len(),
{
    if defs.len() == 0 {
        None
    } else {
        let n = defs.last().0;
        let d = defs.last().1;
        match d.subscreens {
            Some(subs) => if n == k {
                Some(GroupView { ident: d.ident, screens: keys_of(subs), to: d.to, back: d.back })
            } else {
                last_group_def(defs.drop_last(), k)
            },
            None => last_group_def(defs.drop_last(), k),
        }
    }
}

proof fn lemma_load_members_find(
    st: Loaded,
    parent: Seq<char>,
    back: bool,
    subs: Seq<(Seq<char>, SubscreenView)>,
    k: Seq<char>,
)
    ensures
        find_key(load_members(st, parent, back, subs).screens, k) == match last_sub(subs, k) {
            Some(sub) => Some(member_view(parent, back, sub)),
            None => find_key(st.screens, k),
        },
        load_members(st, parent, back, subs).groups == st.groups,
    decreases subs.len(),
{
    if subs.len() > 0 {
        lemma_load_members_find(st, parent, back, subs.drop_last(), k);
        let prev = load_members(st, parent, back, subs.drop_last());
        lemma_find_insert(
            prev.screens,
            subs.last().0,
            member_view(parent, back, subs.last().1),
            k,
        );
    }
}

/// What loading gives for a name: the screen and the group of its last definition.
pub proof fn lemma_load_defs_find(defs: Seq<(Seq<char>, ScreenDefView)>, k: Seq<char>)
    ensures
        find_key(load_defs(defs).screens, k) == last_screen_def(defs, k),
        find_key(load_defs(defs).groups, k) == last_group_def(defs, k),
    decreases defs.len(),
{
    if defs.len() > 0 {
        lemma_load_defs_find(defs.drop_last(), k);
        let prev = load_defs(defs.drop_last());
        let n = defs.last().0;
        let d = defs.last().1;
        match d.subscreens {
            Some(subs) => {
                lemma_load_members_find(prev, n, d.back, subs, k);
                let m = load_members(prev, n, d.back, subs);
                lemma_find_insert(
                    m.groups,
                    n,
                    GroupView { ident: d.ident, screens: keys_of(subs), to: d.to, back: d.back },
                    k,
                );
            },
            None => {
                lemma_find_insert(
                    prev.screens,
                    n,
                    ScreenView {
                        ident: d.ident,
                        to: d.to,
                        back: d.back,
                        routines: d.routines,
                        group: None,
                    },
                    k,
                );
            },
        }
    }
}

/// A screen of no group, as a plan document gives it.
pub open spec fn own_def(s: ScreenView) -> ScreenDefView {
    ScreenDefView { ident: s.ident, to: s.to, back: s.back, routines: s.routines, subscreens: None }
}

/// A member screen, as a subscreen of its group's document entry.
pub open spec fn as_subscreen(s: ScreenView) -> SubscreenView {
    SubscreenView { ident: s.ident, to: s.to, routines: s.routines }
}

/// The subscreens of a group whose members are `names`, from the screens that define
/// them; a member that is no screen is left out.
pub open spec fn members_of(
    screens: Seq<(Seq<char>, ScreenView)>,
    names: Seq<Seq<char>>,
) -> Seq<(Seq<char>, SubscreenView)>
    decreases names.len(),
{
    if names.len() == 0 {
        Seq::empty()
    } else {
        let prev = members_of(screens, names.drop_last());
        match find_key(screens, names.last()) {
            Some(s) => prev.push((names.last(), as_subscreen(s))),
            None => prev,
        }
    }
}

/// A group, as a plan document gives it: a screen with subscreens.
pub open spec fn group_def(screens: Seq<(Seq<char>, ScreenView)>, g: GroupView) -> ScreenDefView {
    ScreenDefView {
        ident: g.ident,
        to: g.to,
        back: g.back,
        routines: Seq::empty(),
        subscreens: Some(members_of(screens, g.screens)),
    }
}

/// The document entries of the screens that belong to no group, in order.
pub open spec fn own_defs(screens: Seq<(Seq<char>, ScreenView)>) -> Seq<(Seq<char>, ScreenDefView)>
    decreases screens.len(),
{
    if screens.len() == 0 {
        Seq::empty()
    } else {
        let prev = own_defs(screens.drop_last());
        if screens.last().1.group is None {
            prev.push((screens.last().0, own_def(screens.last().1)))
        } else {
            prev
        }
    }
}

/// The document entries of the groups, in order.
pub open spec fn group_defs(
    screens: Seq<(Seq<char>, ScreenView)>,
    groups: Seq<(Seq<char>, GroupView)>,
) -> Seq<(Seq<char>, ScreenDefView)>
    decreases groups.len(),
{
    if groups.len() == 0 {
        Seq::empty()
    } else {
        group_defs(screens, groups.drop_last()).push(
            (groups.last().0, group_def(screens, groups.last().1)),
        )
    }
}

/// The plan document that gives back `screens` and `groups`: the screens of no group,
/// then the groups with their members as subscreens.
pub open spec fn unload(
    screens: Seq<(Seq<char>, ScreenView)>,
    groups: Seq<(Seq<char>, GroupView)>,
) -> Seq<(Seq<char>, ScreenDefView)> {
    own_defs(screens) + group_defs(screens, groups)
}

/// Screens and groups that agree with each other, as loading a document whose names
/// are all distinct leaves them: names are unique; each member of a group is a screen of
/// that group, with the group's way back; each screen of a group is among its members.
pub open spec fn consistent(
    screens: Seq<(Seq<char>, ScreenView)>,
    groups: Seq<(Seq<char>, GroupView)>,
) -> bool {
    &&& keys_of(screens).no_duplicates()
    &&& keys_of(groups).no_duplicates()
    &&& forall|i: int, j: int|
        0 <= i < groups.len() && 0 <= j < groups[i].1.screens.len() ==> (find_key(
            screens,
            #[trigger] groups[i].1.screens[j],
        ) matches Some(s) && s.group == Some(groups[i].0) && s.back == groups[i].1.back)
    &&& forall|i: int|
        0 <= i < screens.len() && (#[trigger] screens[i]).1.group is Some ==> (find_key(
            groups,
            screens[i].1.group.unwrap(),
        ) matches Some(g) && g.screens.contains(screens[i].0))
}

proof fn lemma_find_push<V>(t: Seq<(Seq<char>, V)>, e: (Seq<char>, V), k: Seq<char>)
    ensures
        find_key(t.push(e), k) == match find_key(t, k) {
            Some(x) => Some(x),
            None => if e.0 == k {
                Some(e.1)
            } else {
                None
            },
        },
    decreases t.len(),
{
    if t.len() > 0 {
        assert(t.push(e).drop_first() =~= t.drop_first().push(e));
        lemma_find_push(t.drop_first(), e, k);
    } else {
        assert(t.push(e).drop_first() =~= Seq::<(Seq<char>, V)>::empty());
        assert(find_key(t.push(e).drop_first(), k) is None);
    }
}

proof fn lemma_find_key_index<V>(t: Seq<(Seq<char>, V)>, k: Seq<char>)
    ensures
        find_key(t, k) matches Some(v) ==> exists|i: int| 0 <= i < t.len() && t[i] == (k, v),
        find_key(t, k) is None ==> forall|i: int| 0 <= i < t.len() ==> t[i].0 != k,
    decreases t.len(),
{
    if t.len() > 0 {
        lemma_find_key_index(t.drop_first(), k);
        if t[0].0 != k {
            if let Some(v) = find_key(t, k) {
                let i = choose|i: int| 0 <= i < t.drop_first().len() && t.drop_first()[i] == (k, v);
                assert(t[i + 1] == (k, v));
            } else {
                assert forall|i: int| 0 <= i < t.len() implies t[i].0 != k by {
                    if i > 0 {
                        assert(t[i] == t.drop_first()[i - 1]);
                    }
                }
            }
        }
    }
}

proof fn lemma_find_unique<V>(t: Seq<(Seq<char>, V)>, i: int)
    requires
        keys_of(t).no_duplicates(),
        0 <= i < t.len(),
    ensures
        find_key(t, t[i].0) == Some(t[i].1),
    decreases i,
{
    if i > 0 {
        assert(keys_of(t)[0] != keys_of(t)[i]);
        assert(keys_of(t.drop_first()) =~= keys_of(t).drop_first());
        lemma_find_unique(t.drop_first(), i - 1);
    }
}

proof fn lemma_last_screen_concat(
    a: Seq<(Seq<char>, ScreenDefView)>,
    b: Seq<(Seq<char>, ScreenDefView)>,
    k: Seq<char>,
)
    ensures
        last_screen_def(a + b, k) == match last_screen_def(b, k) {
            Some(x) => Some(x),
            None => last_screen_def(a, k),
        },
        last_group_def(a + b, k) == match last_group_def(b, k) {
            Some(x) => Some(x),
            None => last_group_def(a, k),
        },
    decreases b.len(),
{
    if b.len() == 0 {
        assert(a + b =~= a);
    } else {
        assert((a + b).drop_last() =~= a + b.drop_last());
        assert((a + b).last() == b.last());
        lemma_last_screen_concat(a, b.drop_last(), k);
    }
}

proof fn lemma_members_of(screens: Seq<(Seq<char>, ScreenView)>, names: Seq<Seq<char>>, k: Seq<char>)
    ensures
        last_sub(members_of(screens, names), k) == if names.contains(k) && find_key(
            screens,
            k,
        ) is Some {
            Some(as_subscreen(find_key(screens, k).unwrap()))
        } else {
            None::<SubscreenView>
        },
        (forall|j: int| 0 <= j < names.len() ==> find_key(screens, #[trigger] names[j]) is Some)
            ==> keys_of(members_of(screens, names)) == names,
    decreases names.len(),
{
    if names.len() > 0 {
        let init = names.drop_last();
        lemma_members_of(screens, init, k);
        let prev = members_of(screens, init);
        if let Some(sv) = find_key(screens, names.last()) {
            let e = (names.last(), as_subscreen(sv));
            assert(prev.push(e).drop_last() =~= prev);
            assert(prev.push(e).last() == e);
        }
        assert(names.contains(k) <==> (init.contains(k) || names.last() == k)) by {
            if names.contains(k) {
                let j = choose|j: int| 0 <= j < names.len() && names[j] == k;
                if j < names.len() - 1 {
                    assert(init[j] == k);
                }
            }
            if init.contains(k) {
                let j = choose|j: int| 0 <= j < init.len() && init[j] == k;
                assert(names[j] == k);
            }
        }
        if forall|j: int| 0 <= j < names.len() ==> find_key(screens, #[trigger] names[j]) is Some {
            assert forall|j: int| 0 <= j < init.len() implies find_key(screens, #[trigger] init[j])
                is Some by {
                assert(init[j] == names[j]);
            }
            assert(find_key(screens, names[names.len() - 1]) is Some);
            assert(keys_of(members_of(screens, names)) =~= keys_of(members_of(screens, init)).push(
                names.last(),
            ));
            assert(names =~= init.push(names.last()));
        }
    } else {
        assert(keys_of(members_of(screens, names)) =~= names);
    }
}

proof fn lemma_group_defs_find(
    screens: Seq<(Seq<char>, ScreenView)>,
    groups: Seq<(Seq<char>, GroupView)>,
    k: Seq<char>,
)
    requires
        forall|i: int, j: int|
            0 <= i < groups.len() && 0 <= j < groups[i].1.screens.len() ==> (find_key(
                screens,
                #[trigger] groups[i].1.screens[j],
            ) matches Some(s) && s.group == Some(groups[i].0) && s.back == groups[i].1.back),
        keys_of(groups).no_duplicates(),
    ensures
        last_screen_def(group_defs(screens, groups), k) == if exists|i: int|
            0 <= i < groups.len() && (#[trigger] groups[i]).1.screens.contains(k) {
            find_key(screens, k)
        } else {
            None::<ScreenView>
        },
        last_group_def(group_defs(screens, groups), k) == find_key(groups, k),
    decreases groups.len(),
{
    if groups.len() > 0 {
        let init = groups.drop_last();
        let (g, gr) = groups.last();
        let n = groups.len() - 1;
        assert(keys_of(init) =~= keys_of(groups).drop_last());
        assert forall|i: int, j: int|
            0 <= i < init.len() && 0 <= j < init[i].1.screens.len() implies (find_key(
            screens,
            #[trigger] init[i].1.screens[j],
        ) matches Some(s) && s.group == Some(init[i].0) && s.back == init[i].1.back) by {
            assert(init[i] == groups[i]);
        }
        lemma_group_defs_find(screens, init, k);
        lemma_members_of(screens, gr.screens, k);
        assert forall|j: int| 0 <= j < gr.screens.len() implies find_key(
            screens,
            #[trigger] gr.screens[j],
        ) is Some by {
            assert(gr.screens[j] == groups[n].1.screens[j]);
        }
        assert(group_defs(screens, groups).last() == (g, group_def(screens, gr)));
        assert(group_defs(screens, groups).drop_last() =~= group_defs(screens, init));
        if gr.screens.contains(k) {
            let j = choose|j: int| 0 <= j < gr.screens.len() && gr.screens[j] == k;
            assert(groups[n].1.screens[j] == k);
        }
        if exists|i: int| 0 <= i < groups.len() && (#[trigger] groups[i]).1.screens.contains(k) {
            if !gr.screens.contains(k) {
                let i = choose|i: int| 0 <= i < groups.len() && (#[trigger] groups[i]).1.screens.contains(k);
                assert(i < n);
                assert(init[i] == groups[i]);
            }
        } else {
            assert(!gr.screens.contains(k)) by {
                if gr.screens.contains(k) {
                    assert(groups[n].1.screens.contains(k));
                }
            }
            assert(forall|i: int| 0 <= i < init.len() ==> !(#[trigger] init[i]).1.screens.contains(k)) by {
                assert forall|i: int| 0 <= i < init.len() implies !(#[trigger] init[i]).1.screens.contains(k) by {
                    assert(init[i] == groups[i]);
                }
            }
        }
        lemma_find_push(init, (g, gr), k);
        assert(groups =~= init.push((g, gr)));
        if g == k {
            if find_key(init, k) is Some {
                lemma_find_key_index(init, k);
                let i = choose|i: int| 0 <= i < init.len() && init[i] == (k, find_key(init, k).unwrap());
                assert(keys_of(groups)[i] == keys_of(groups)[n]);
            }
        }
    }
}

proof fn lemma_own_defs_find(screens: Seq<(Seq<char>, ScreenView)>, k: Seq<char>)
    requires
        keys_of(screens).no_duplicates(),
    ensures
        last_screen_def(own_defs(screens), k) == if find_key(screens, k) matches Some(s)
            && s.group is None {
            find_key(screens, k)
        } else {
            None::<ScreenView>
        },
        last_group_def(own_defs(screens), k) is None,
    decreases screens.len(),
{
    if screens.len() > 0 {
        let init = screens.drop_last();
        let e = screens.last();
        let n = screens.len() - 1;
        assert(keys_of(init) =~= keys_of(screens).drop_last());
        lemma_own_defs_find(init, k);
        lemma_find_push(init, e, k);
        assert(screens =~= init.push(e));
        if e.0 == k && find_key(init, k) is Some {
            lemma_find_key_index(init, k);
            let i = choose|i: int| 0 <= i < init.len() && init[i] == (k, find_key(init, k).unwrap());
            assert(keys_of(screens)[i] == keys_of(screens)[n]);
        }
        let prev = own_defs(init);
        if e.1.group is None {
            let d = (e.0, own_def(e.1));
            assert(prev.push(d).drop_last() =~= prev);
            assert(prev.push(d).last() == d);
        }
    }
}

/// Writing a plan's screens and groups back as a plan document, and loading that
/// document, gives the same plan: every name stands for the same screen and the same
/// group as before (the terminal screen `end` included).
pub proof fn lemma_reload_is_isomorphic(
    screens: Seq<(Seq<char>, ScreenView)>,
    groups: Seq<(Seq<char>, GroupView)>,
    k: Seq<char>,
)
    requires
        consistent(screens, groups),
        find_key(screens, end_name()) is Some,
    ensures
        find_key(with_end(load_defs(unload(screens, groups)).screens), k) == find_key(screens, k),
        find_key(load_defs(unload(screens, groups)).groups, k) == find_key(groups, k),
{
    assert forall|q: Seq<char>|
        find_key(load_defs(unload(screens, groups)).screens, q) == find_key(screens, q)
        && find_key(load_defs(unload(screens, groups)).groups, q) == find_key(groups, q) by {
        lemma_reload_one(screens, groups, q);
    }
}

proof fn lemma_reload_one(
    screens: Seq<(Seq<char>, ScreenView)>,
    groups: Seq<(Seq<char>, GroupView)>,
    k: Seq<char>,
)
    requires
        consistent(screens, groups),
    ensures
        find_key(load_defs(unload(screens, groups)).screens, k) == find_key(screens, k),
        find_key(load_defs(unload(screens, groups)).groups, k) == find_key(groups, k),
{
    lemma_load_defs_find(unload(screens, groups), k);
    lemma_last_screen_concat(own_defs(screens), group_defs(screens, groups), k);
    lemma_own_defs_find(screens, k);
    lemma_group_defs_find(screens, groups, k);
    lemma_find_key_index(screens, k);
    if exists|i: int| 0 <= i < groups.len() && (#[trigger] groups[i]).1.screens.contains(k) {
        let i = choose|i: int| 0 <= i < groups.len() && (#[trigger] groups[i]).1.screens.contains(k);
        let j = choose|j: int| 0 <= j < groups[i].1.screens.len() && groups[i].1.screens[j] == k;
        assert(find_key(screens, groups[i].1.screens[j]) is Some);
    } else if let Some(s) = find_key(screens, k) {
        let i = choose|i: int| 0 <= i < screens.len() && screens[i] == (k, s);
        if s.group is Some {
            assert(screens[i].1.group is Some);
            let g = s.group.unwrap();
            lemma_find_key_index(groups, g);
            let gr = find_key(groups, g).unwrap();
            let m = choose|m: int| 0 <= m < groups.len() && groups[m] == (g, gr);
            assert(groups[m].1.screens.contains(k));
        }
    }
}

impl Plan {
    /// The plan document that loads back into this plan: the screens of no group, then
    /// each group as a screen whose subscreens are its members.
    pub fn to_def(&self) -> (r: PlanDef)
        ensures
            r.package@ == self.package@,
            r.activity@ == self.activity@,
            entries_view(r.screens@) == unload(
                entries_view(self.screens@),
                entries_view(self.screen_groups@),
            ),
    {
        let ghost sv = entries_view(self.screens@);
        let ghost gv = entries_view(self.screen_groups@);
        let mut out: Vec<(String, ScreenDef)> = Vec::new();
        let mut i: usize = 0;
        assert(entries_view(out@) =~= own_defs(sv.take(0)));
        while i < self.screens.len()
            invariant
                i <= self.screens.len(),
                sv == entries_view(self.screens@),
                entries_view(out@) == own_defs(sv.take(i as int)),
            decreases self.screens.len() - i,
        {
            assert(sv.take(i + 1).drop_last() =~= sv.take(i as int));
            let s = &self.screens[i].1;
            if s.group.is_none() {
                let d = ScreenDef {
                    ident: clone_idents(&s.ident),
                    nav: s.nav.clone(),
                    routines: clone_names(&s.routines),
                    subscreens: None,
                };
                let ghost before = entries_view(out@);
                let name = self.screens[i].0.clone();
                out.push((name, d));
                assert(entries_view(out@) =~= before.push((sv[i as int].0, own_def(sv[i as int].1))));
            }
            i += 1;
        }
        assert(sv.take(self.screens.len() as int) =~= sv);
        let ghost own = entries_view(out@);
        let mut g: usize = 0;
        assert(entries_view(out@) =~= own + group_defs(sv, gv.take(0)));
        while g < self.screen_groups.len()
            invariant
                g <= self.screen_groups.len(),
                sv == entries_view(self.screens@),
                gv == entries_view(self.screen_groups@),
                entries_view(out@) == own + group_defs(sv, gv.take(g as int)),
            decreases self.screen_groups.len() - g,
        {
            assert(gv.take(g + 1).drop_last() =~= gv.take(g as int));
            let group = &self.screen_groups[g].1;
            let ghost names = names_view(group.screens@);
            let mut subs: Vec<(String, Subscreen)> = Vec::new();
            let mut j: usize = 0;
            assert(entries_view(subs@) =~= members_of(sv, names.take(0)));
            while j < group.screens.len()
                invariant
                    j <= group.screens.len(),
                    sv == entries_view(self.screens@),
                    names == names_view(group.screens@),
                    entries_view(subs@) == members_of(sv, names.take(j as int)),
                decreases group.screens.len() - j,
            {
                assert(names.take(j + 1).drop_last() =~= names.take(j as int));
                assert(names.take(j + 1).last() == group.screens@[j as int]@);
                match find_entry(&self.screens, group.screens[j].as_str()) {
                    Some(k) => {
                        let s = &self.screens[k].1;
                        let sub = Subscreen {
                            ident: clone_idents(&s.ident),
                            to: clone_table(&s.nav.to),
                            routines: clone_names(&s.routines),
                        };
                        let ghost before = entries_view(subs@);
                        let name = group.screens[j].clone();
                        subs.push((name, sub));
                        assert(entries_view(subs@) =~= before.push(
                            (names[j as int], as_subscreen(sv[k as int].1)),
                        ));
                    },
                    None => {},
                }
                j += 1;
            }
            assert(names.take(group.screens.len() as int) =~= names);
            let d = ScreenDef {
                ident: clone_idents(&group.ident),
                nav: group.nav.clone(),
                routines: Vec::new(),
                subscreens: Some(subs),
            };
            assert(d@.routines =~= Seq::<Seq<char>>::empty());
            let ghost before = entries_view(out@);
            let name = self.screen_groups[g].0.clone();
            out.push((name, d));
            assert(entries_view(out@) =~= before.push((gv[g as int].0, group_def(sv, gv[g as int].1))));
            g += 1;
        }
        assert(gv.take(self.screen_groups.len() as int) =~= gv);
        PlanDef {
            package: self.package.clone(),
            activity: self.activity.clone(),
            screens: out,
            schedules: self.schedules.clone(),
        }
    }
}

proof fn lemma_insert_unique<V>(t: Seq<(Seq<char>, V)>, k: Seq<char>, v: V)
    requires
        keys_of(t).no_duplicates(),
    ensures
        keys_of(insert_entry(t, k, v)).no_duplicates(),
{
    lemma_key_position_valid(t, k);
    match key_position(t, k) {
        Some(i) => {
            assert(keys_of(insert_entry(t, k, v)) =~= keys_of(t));
        },
        None => {
            assert(keys_of(insert_entry(t, k, v)) =~= keys_of(t).push(k));
            assert forall|a: int, b: int|
                0 <= a < keys_of(t).push(k).len() && 0 <= b < keys_of(t).push(k).len() && a != b
                    implies keys_of(t).push(k)[a] != keys_of(t).push(k)[b] by {
                if a < t.len() && b < t.len() {
                    assert(keys_of(t)[a] != keys_of(t)[b]);
                } else if a < t.len() {
                    assert(t[a].0 != k);
                } else if b < t.len() {
                    assert(t[b].0 != k);
                }
            }
        },
    }
}

proof fn lemma_load_members_unique(
    st: Loaded,
    parent: Seq<char>,
    back: bool,
    subs: Seq<(Seq<char>, SubscreenView)>,
)
    requires
        keys_of(st.screens).no_duplicates(),
    ensures
        keys_of(load_members(st, parent, back, subs).screens).no_duplicates(),
        load_members(st, parent, back, subs).groups == st.groups,
    decreases subs.len(),
{
    if subs.len() > 0 {
        lemma_load_members_unique(st, parent, back, subs.drop_last());
        let prev = load_members(st, parent, back, subs.drop_last());
        lemma_insert_unique(prev.screens, subs.last().0, member_view(parent, back, subs.last().1));
    }
}

proof fn lemma_load_unique(defs: Seq<(Seq<char>, ScreenDefView)>)
    ensures
        keys_of(load_defs(defs).screens).no_duplicates(),
        keys_of(load_defs(defs).groups).no_duplicates(),
    decreases defs.len(),
{
    if defs.len() == 0 {
        assert(keys_of(load_defs(defs).screens) =~= Seq::<Seq<char>>::empty());
        assert(keys_of(load_defs(defs).groups) =~= Seq::<Seq<char>>::empty());
    } else {
        lemma_load_unique(defs.drop_last());
        let prev = load_defs(defs.drop_last());
        let n = defs.last().0;
        let d = defs.last().1;
        match d.subscreens {
            Some(subs) => {
                lemma_load_members_unique(prev, n, d.back, subs);
                let m = load_members(prev, n, d.back, subs);
                lemma_insert_unique(
                    m.groups,
                    n,
                    GroupView { ident: d.ident, screens: keys_of(subs), to: d.to, back: d.back },
                );
            },
            None => {
                lemma_insert_unique(
                    prev.screens,
                    n,
                    ScreenView {
                        ident: d.ident,
                        to: d.to,
                        back: d.back,
                        routines: d.routines,
                        group: None,
                    },
                );
            },
        }
    }
}

/// The names that a document entry gives: its own, and those of its subscreens.
pub open spec fn def_names(n: Seq<char>, d: ScreenDefView) -> Seq<Seq<char>> {
    match d.subscreens {
        Some(subs) => seq![n] + keys_of(subs),
        None => seq![n],
    }
}

/// Every name that a plan document gives, screens and subscreens, in order.
pub open spec fn all_names(defs: Seq<(Seq<char>, ScreenDefView)>) -> Seq<Seq<char>>
    decreases defs.len(),
{
    if defs.len() == 0 {
        Seq::empty()
    } else {
        all_names(defs.drop_last()) + def_names(defs.last().0, defs.last().1)
    }
}

proof fn lemma_names_split(defs: Seq<(Seq<char>, ScreenDefView)>)
    requires
        defs.len() > 0,
        all_names(defs).no_duplicates(),
    ensures
        all_names(defs.drop_last()).no_duplicates(),
        forall|x: Seq<char>|
            def_names(defs.last().0, defs.last().1).contains(x) ==> !all_names(
                defs.drop_last(),
            ).contains(x),
{
    let a = all_names(defs.drop_last());
    let b = def_names(defs.last().0, defs.last().1);
    assert(all_names(defs) == a + b);
    assert forall|i: int, j: int| 0 <= i < a.len() && 0 <= j < a.len() && i != j implies a[i]
        != a[j] by {
        assert((a + b)[i] == a[i] && (a + b)[j] == a[j]);
    }
    assert forall|x: Seq<char>| b.contains(x) implies !a.contains(x) by {
        if b.contains(x) && a.contains(x) {
            let i = choose|i: int| 0 <= i < a.len() && a[i] == x;
            let j = choose|j: int| 0 <= j < b.len() && b[j] == x;
            assert((a + b)[i] == (a + b)[a.len() + j]);
        }
    }
}

proof fn lemma_names_contain(defs: Seq<(Seq<char>, ScreenDefView)>, p: int, x: Seq<char>)
    requires
        0 <= p < defs.len(),
        def_names(defs[p].0, defs[p].1).contains(x),
    ensures
        all_names(defs).contains(x),
    decreases defs.len(),
{
    let a = all_names(defs.drop_last());
    let b = def_names(defs.last().0, defs.last().1);
    if p == defs.len() - 1 {
        let j = choose|j: int| 0 <= j < b.len() && b[j] == x;
        assert((a + b)[a.len() + j] == x);
    } else {
        assert(defs.drop_last()[p] == defs[p]);
        lemma_names_contain(defs.drop_last(), p, x);
        let i = choose|i: int| 0 <= i < a.len() && a[i] == x;
        assert((a + b)[i] == x);
    }
}

proof fn lemma_def_names_member(n: Seq<char>, d: ScreenDefView, x: Seq<char>)
    ensures
        def_names(n, d).contains(n),
        d.subscreens matches Some(subs) && keys_of(subs).contains(x) ==> def_names(n, d).contains(
            x,
        ),
{
    assert(def_names(n, d)[0] == n);
    if let Some(subs) = d.subscreens {
        if keys_of(subs).contains(x) {
            let j = choose|j: int| 0 <= j < keys_of(subs).len() && keys_of(subs)[j] == x;
            assert(def_names(n, d)[j + 1] == x);
        }
    }
}

proof fn lemma_last_sub_keys(subs: Seq<(Seq<char>, SubscreenView)>, k: Seq<char>)
    ensures
        last_sub(subs, k) is Some <==> keys_of(subs).contains(k),
    decreases subs.len(),
{
    if subs.len() > 0 {
        lemma_last_sub_keys(subs.drop_last(), k);
        let ks = keys_of(subs);
        assert(keys_of(subs.drop_last()) =~= ks.drop_last());
        if ks.contains(k) && subs.last().0 != k {
            let j = choose|j: int| 0 <= j < ks.len() && ks[j] == k;
            assert(ks.drop_last()[j] == k);
        }
        if keys_of(subs.drop_last()).contains(k) {
            let j = choose|j: int| 0 <= j < ks.drop_last().len() && ks.drop_last()[j] == k;
            assert(ks[j] == k);
        }
        if subs.last().0 == k {
            assert(ks[ks.len() - 1] == k);
        }
    }
}

proof fn lemma_member_screen(defs: Seq<(Seq<char>, ScreenDefView)>, p: int, m: Seq<char>)
    requires
        all_names(defs).no_duplicates(),
        0 <= p < defs.len(),
        defs[p].1.subscreens is Some,
        keys_of(defs[p].1.subscreens.unwrap()).contains(m),
    ensures
        last_sub(defs[p].1.subscreens.unwrap(), m) is Some,
        last_screen_def(defs, m) == Some(
            member_view(defs[p].0, defs[p].1.back, last_sub(defs[p].1.subscreens.unwrap(), m).unwrap()),
        ),
    decreases defs.len(),
{
    lemma_last_sub_keys(defs[p].1.subscreens.unwrap(), m);
    if p < defs.len() - 1 {
        let init = defs.drop_last();
        let n = defs.last().0;
        let d = defs.last().1;
        lemma_names_split(defs);
        assert(init[p] == defs[p]);
        lemma_def_names_member(defs[p].0, defs[p].1, m);
        lemma_names_contain(init, p, m);
        lemma_def_names_member(n, d, m);
        if let Some(subs) = d.subscreens {
            lemma_last_sub_keys(subs, m);
        }
        lemma_member_screen(init, p, m);
    }
}

proof fn lemma_group_of_def(defs: Seq<(Seq<char>, ScreenDefView)>, p: int)
    requires
        all_names(defs).no_duplicates(),
        0 <= p < defs.len(),
        defs[p].1.subscreens is Some,
    ensures
        last_group_def(defs, defs[p].0) == Some(
            GroupView {
                ident: defs[p].1.ident,
                screens: keys_of(defs[p].1.subscreens.unwrap()),
                to: defs[p].1.to,
                back: defs[p].1.back,
            },
        ),
    decreases defs.len(),
{
    if p < defs.len() - 1 {
        let init = defs.drop_last();
        lemma_names_split(defs);
        assert(init[p] == defs[p]);
        lemma_def_names_member(defs[p].0, defs[p].1, defs[p].0);
        lemma_names_contain(init, p, defs[p].0);
        lemma_def_names_member(defs.last().0, defs.last().1, defs[p].0);
        lemma_group_of_def(init, p);
    }
}

proof fn lemma_group_def_origin(defs: Seq<(Seq<char>, ScreenDefView)>, k: Seq<char>)
    ensures
        last_group_def(defs, k) matches Some(gr) ==> exists|p: int|
            0 <= p < defs.len() && (#[trigger] defs[p]).0 == k && defs[p].1.subscreens is Some
                && gr == (GroupView {
                ident: defs[p].1.ident,
                screens: keys_of(defs[p].1.subscreens.unwrap()),
                to: defs[p].1.to,
                back: defs[p].1.back,
            }),
    decreases defs.len(),
{
    if defs.len() > 0 {
        let init = defs.drop_last();
        lemma_group_def_origin(init, k);
        let n = defs.len() - 1;
        if let Some(gr) = last_group_def(defs, k) {
            if defs.last().0 == k && defs.last().1.subscreens is Some {
                assert(defs[n] == defs.last());
            } else {
                let p = choose|p: int|
                    0 <= p < init.len() && (#[trigger] init[p]).0 == k && init[p].1.subscreens is Some
                        && gr == (GroupView {
                        ident: init[p].1.ident,
                        screens: keys_of(init[p].1.subscreens.unwrap()),
                        to: init[p].1.to,
                        back: init[p].1.back,
                    });
                assert(defs[p] == init[p]);
            }
        }
    }
}

proof fn lemma_screen_def_origin(defs: Seq<(Seq<char>, ScreenDefView)>, k: Seq<char>)
    ensures
        last_screen_def(defs, k) matches Some(s) ==> (s.group matches Some(g) ==> exists|p: int|
            0 <= p < defs.len() && (#[trigger] defs[p]).0 == g && defs[p].1.subscreens is Some
                && keys_of(defs[p].1.subscreens.unwrap()).contains(k)),
    decreases defs.len(),
{
    if defs.len() > 0 {
        let init = defs.drop_last();
        lemma_screen_def_origin(init, k);
        let n = defs.len() - 1;
        let d = defs.last().1;
        if let Some(subs) = d.subscreens {
            lemma_last_sub_keys(subs, k);
        }
        if let Some(s) = last_screen_def(defs, k) {
            if let Some(g) = s.group {
                if d.subscreens is Some && last_sub(d.subscreens.unwrap(), k) is Some {
                    assert(defs[n] == defs.last());
                } else {
                    let p = choose|p: int|
                        0 <= p < init.len() && (#[trigger] init[p]).0 == g
                            && init[p].1.subscreens is Some && keys_of(
                            init[p].1.subscreens.unwrap(),
                        ).contains(k);
                    assert(defs[p] == init[p]);
                }
            }
        }
    }
}

/// Loading a plan document whose names, of screens and of subscreens, are all distinct
/// leaves screens and groups that agree with each other.
pub proof fn lemma_loaded_plan_consistent(defs: Seq<(Seq<char>, ScreenDefView)>)
    requires
        all_names(defs).no_duplicates(),
    ensures
        consistent(with_end(load_defs(defs).screens), load_defs(defs).groups),
        find_key(with_end(load_defs(defs).screens), end_name()) is Some,
{
    let l = load_defs(defs);
    let ss = with_end(l.screens);
    let gs = l.groups;
    lemma_load_unique(defs);
    lemma_find_key_index(l.screens, end_name());
    if find_key(l.screens, end_name()) is None {
        assert(keys_of(ss) =~= keys_of(l.screens).push(end_name()));
        assert forall|a: int, b: int|
            0 <= a < keys_of(ss).len() && 0 <= b < keys_of(ss).len() && a != b implies keys_of(
            ss,
        )[a] != keys_of(ss)[b] by {
            if a < l.screens.len() && b < l.screens.len() {
                assert(keys_of(l.screens)[a] != keys_of(l.screens)[b]);
            } else if a < l.screens.len() {
                assert(l.screens[a].0 != end_name());
            } else if b < l.screens.len() {
                assert(l.screens[b].0 != end_name());
            }
        }
        lemma_find_push(l.screens, (end_name(), end_screen()), end_name());
    }
    assert forall|q: Seq<char>| find_key(l.screens, q) is Some implies find_key(ss, q) == find_key(
        l.screens,
        q,
    ) by {
        if find_key(l.screens, end_name()) is None {
            lemma_find_push(l.screens, (end_name(), end_screen()), q);
        }
    }
    assert forall|i: int, j: int|
        0 <= i < gs.len() && 0 <= j < gs[i].1.screens.len() implies (find_key(
        ss,
        #[trigger] gs[i].1.screens[j],
    ) matches Some(s) && s.group == Some(gs[i].0) && s.back == gs[i].1.back) by {
        let g = gs[i].0;
        let m = gs[i].1.screens[j];
        lemma_find_unique(gs, i);
        lemma_load_defs_find(defs, g);
        lemma_group_def_origin(defs, g);
        let p = choose|p: int|
            0 <= p < defs.len() && (#[trigger] defs[p]).0 == g && defs[p].1.subscreens is Some
                && gs[i].1 == (GroupView {
                ident: defs[p].1.ident,
                screens: keys_of(defs[p].1.subscreens.unwrap()),
                to: defs[p].1.to,
                back: defs[p].1.back,
            });
        assert(keys_of(defs[p].1.subscreens.unwrap()).contains(m));
        lemma_member_screen(defs, p, m);
        lemma_load_defs_find(defs, m);
    }
    assert forall|i: int|
        0 <= i < ss.len() && (#[trigger] ss[i]).1.group is Some implies (find_key(
        gs,
        ss[i].1.group.unwrap(),
    ) matches Some(g) && g.screens.contains(ss[i].0)) by {
        let n = ss[i].0;
        let g = ss[i].1.group.unwrap();
        if i < l.screens.len() {
            assert(ss[i] == l.screens[i]);
            lemma_find_unique(l.screens, i);
            lemma_load_defs_find(defs, n);
            lemma_screen_def_origin(defs, n);
            let p = choose|p: int|
                0 <= p < defs.len() && (#[trigger] defs[p]).0 == g && defs[p].1.subscreens is Some
                    && keys_of(defs[p].1.subscreens.unwrap()).contains(n);
            lemma_group_of_def(defs, p);
            lemma_load_defs_find(defs, g);
        }
    }
}

/// Loading a plan document whose names are all distinct, writing the plan back as a
/// document, and loading that again gives the same plan: every name stands for the
/// same screen and the same group.
pub proof fn lemma_load_reserialize_load(defs: Seq<(Seq<char>, ScreenDefView)>, k: Seq<char>)
    requires
        all_names(defs).no_duplicates(),
    ensures
        find_key(
            with_end(load_defs(unload(with_end(load_defs(defs).screens), load_defs(defs).groups)).screens),
            k,
        ) == find_key(with_end(load_defs(defs).screens), k),
        find_key(
            load_defs(unload(with_end(load_defs(defs).screens), load_defs(defs).groups)).groups,
            k,
        ) == find_key(load_defs(defs).groups, k),
{
    lemma_loaded_plan_consistent(defs);
    lemma_reload_is_isomorphic(with_end(load_defs(defs).screens), load_defs(defs).groups, k);
}

} // verus!
