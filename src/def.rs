use vstd::prelude::*;

verus! {

/// (x, y)
pub type Pos = (u32, u32);

/// (x, y, width, height)
pub type Rect = (u32, u32, u32, u32);

/// How OCR text is compared with the text an identifier expects.
#[derive(Clone, Copy, Debug, PartialEq, Eq, Structural)]
pub enum TextOperation {
    Exact,
    Contains,
    StartsWith,
    EndsWith,
}

/// One device action of a literal navigation.
#[derive(Clone, Copy, Debug, PartialEq, Eq, Structural)]
pub enum Actions {
    Tap(u32, u32),
    Back,
}

/// What to do to go from one screen to another: run a script, or a list of actions.
#[derive(Debug)]
pub enum ScreenTo {
    Script(String),
    Actions(Vec<Actions>),
}

pub enum ScreenToView {
    Script(Seq<char>),
    Actions(Seq<Actions>),
}

impl View for ScreenTo {
    type V = ScreenToView;

    open spec fn view(&self) -> ScreenToView {
        match self {
            ScreenTo::Script(p) => ScreenToView::Script(p@),
            ScreenTo::Actions(a) => ScreenToView::Actions(a@),
        }
    }
}

impl Clone for ScreenTo {
    fn clone(&self) -> (r: Self)
        ensures
            r@ == self@,
    {
        match self {
            ScreenTo::Script(p) => ScreenTo::Script(p.clone()),
            ScreenTo::Actions(a) => {
                let c = a.clone();
                assert(c@ =~= a@);
                ScreenTo::Actions(c)
            },
        }
    }
}

/// A visual test that a screenshot shows a given screen.
#[derive(Debug)]
pub enum ScreenIdent {
    RefMatch { reference: String, rect: Rect },
    ImageMatch { image: String, pos: Pos },
    Ocr { ocr: String, operation: TextOperation, rect: Rect },
}

pub enum IdentView {
    RefMatch { reference: Seq<char>, rect: Rect },
    ImageMatch { image: Seq<char>, pos: Pos },
    Ocr { ocr: Seq<char>, operation: TextOperation, rect: Rect },
}

impl View for ScreenIdent {
    type V = IdentView;

    open spec fn view(&self) -> IdentView {
        match self {
            ScreenIdent::RefMatch { reference, rect } => IdentView::RefMatch {
                reference: reference@,
                rect: *rect,
            },
            ScreenIdent::ImageMatch { image, pos } => IdentView::ImageMatch {
                image: image@,
                pos: *pos,
            },
            ScreenIdent::Ocr { ocr, operation, rect } => IdentView::Ocr {
                ocr: ocr@,
                operation: *operation,
                rect: *rect,
            },
        }
    }
}

impl Clone for ScreenIdent {
    fn clone(&self) -> (r: Self)
        ensures
            r@ == self@,
    {
        match self {
            ScreenIdent::RefMatch { reference, rect } => ScreenIdent::RefMatch {
                reference: reference.clone(),
                rect: *rect,
            },
            ScreenIdent::ImageMatch { image, pos } => ScreenIdent::ImageMatch {
                image: image.clone(),
                pos: *pos,
            },
            ScreenIdent::Ocr { ocr, operation, rect } => ScreenIdent::Ocr {
                ocr: ocr.clone(),
                operation: *operation,
                rect: *rect,
            },
        }
    }
}

pub open spec fn names_view(v: Seq<String>) -> Seq<Seq<char>> {
    v.map_values(|s: String| s@)
}

pub open spec fn idents_view(v: Seq<ScreenIdent>) -> Seq<IdentView> {
    v.map_values(|i: ScreenIdent| i@)
}

/// A table keyed by name, seen through the views of its keys and values.
pub open spec fn entries_view<V: View>(t: Seq<(String, V)>) -> Seq<(Seq<char>, V::V)> {
    t.map_values(|e: (String, V)| (e.0@, e.1@))
}

pub open spec fn table_view(v: Seq<(String, ScreenTo)>) -> Seq<(Seq<char>, ScreenToView)> {
    entries_view(v)
}

/// The keys of a table, in order.
pub open spec fn keys_of<V>(t: Seq<(Seq<char>, V)>) -> Seq<Seq<char>> {
    t.map_values(|e: (Seq<char>, V)| e.0)
}

/// The value of the first entry of `t` whose key is `k`.
pub open spec fn find_key<V>(t: Seq<(Seq<char>, V)>, k: Seq<char>) -> Option<V>
    decreases t.len(),
{
    if t.len() == 0 {
        None
    } else if t[0].0 == k {
        Some(t[0].1)
    } else {
        find_key(t.drop_first(), k)
    }
}

proof fn lemma_find_key_first<V>(t: Seq<(Seq<char>, V)>, k: Seq<char>, i: int)
    requires
        0 <= i <= t.len(),
        forall|j: int| 0 <= j < i ==> t[j].0 != k,
    ensures
        find_key(t, k) == find_key(t.subrange(i, t.len() as int), k),
    decreases i,
{
    if i > 0 {
        assert(t.drop_first().subrange(i - 1, t.drop_first().len() as int) =~= t.subrange(
            i,
            t.len() as int,
        ));
        lemma_find_key_first(t.drop_first(), k, i - 1);
    } else {
        assert(t.subrange(0, t.len() as int) =~= t);
    }
}

/// Index of the first entry of `t` whose key is `k`.
pub fn find_entry<V: View>(t: &Vec<(String, V)>, k: &str) -> (r: Option<usize>)
    ensures
        match r {
            Some(i) => {
                &&& i < t.len()
                &&& t@[i as int].0@ == k@
                &&& find_key(entries_view(t@), k@) == Some(t@[i as int].1@)
                &&& forall|j: int| 0 <= j < i ==> t@[j].0@ != k@
            },
            None => {
                &&& find_key(entries_view(t@), k@) is None
                &&& forall|j: int| 0 <= j < t.len() ==> t@[j].0@ != k@
            },
        },
{
    let key = k.to_owned();
    let ghost tv = entries_view(t@);
    let mut i: usize = 0;
    while i < t.len()
        invariant
            i <= t.len(),
            key@ == k@,
            tv == entries_view(t@),
            forall|j: int| 0 <= j < i ==> tv[j].0 != k@,
            forall|j: int| 0 <= j < i ==> t@[j].0@ != k@,
        decreases t.len() - i,
    {
        if t[i].0 == key {
            proof {
                lemma_find_key_first(tv, k@, i as int);
                assert(tv.subrange(i as int, tv.len() as int)[0] == tv[i as int]);
            }
            return Some(i);
        }
        assert(tv[i as int].0 == t@[i as int].0@);
        i += 1;
    }
    proof {
        lemma_find_key_first(tv, k@, i as int);
    }
    None
}

/// The keys of a navigation table, in order.
pub fn table_keys(t: &Vec<(String, ScreenTo)>) -> (r: Vec<String>)
    ensures
        names_view(r@) == keys_of(table_view(t@)),
{
    let mut r: Vec<String> = Vec::new();
    let mut i: usize = 0;
    while i < t.len()
        invariant
            i <= t.len(),
            r.len() == i,
            names_view(r@) =~= keys_of(table_view(t@)).subrange(0, i as int),
        decreases t.len() - i,
    {
        let ghost prev = r@;
        r.push(t[i].0.clone());
        assert forall|m: int| 0 <= m < i implies r@[m] == prev[m] by {}
        i += 1;
        assert(names_view(r@) =~= keys_of(table_view(t@)).subrange(0, i as int));
    }
    r
}

pub open spec fn opt_name_view(o: Option<String>) -> Option<Seq<char>> {
    match o {
        Some(s) => Some(s@),
        None => None,
    }
}

pub fn clone_names(v: &Vec<String>) -> (r: Vec<String>)
    ensures
        names_view(r@) == names_view(v@),
{
    let r = v.clone();
    assert(r@ =~= v@);
    r
}

pub fn clone_idents(v: &Vec<ScreenIdent>) -> (r: Vec<ScreenIdent>)
    ensures
        idents_view(r@) == idents_view(v@),
{
    let r = v.clone();
    assert(idents_view(r@) =~= idents_view(v@));
    r
}

pub fn clone_table(v: &Vec<(String, ScreenTo)>) -> (r: Vec<(String, ScreenTo)>)
    ensures
        table_view(r@) == table_view(v@),
{
    let mut r: Vec<(String, ScreenTo)> = Vec::new();
    let mut i: usize = 0;
    while i < v.len()
        invariant
            i <= v.len(),
            r.len() == i,
            table_view(r@) =~= table_view(v@.subrange(0, i as int)),
        decreases v.len() - i,
    {
        let k = v[i].0.clone();
        let t = v[i].1.clone();
        let ghost prev = r@;
        r.push((k, t));
        let ghost j = i as int;
        assert(table_view(r@)[j] == table_view(v@.subrange(0, j + 1))[j]);
        assert forall|m: int| 0 <= m < j implies table_view(r@)[m] == table_view(
            v@.subrange(0, j + 1),
        )[m] by {
            assert(r@[m] == prev[m]);
            assert(table_view(prev)[m] == table_view(v@.subrange(0, j))[m]);
        }
        i += 1;
        assert(table_view(r@) =~= table_view(v@.subrange(0, i as int)));
    }
    assert(v@.subrange(0, v.len() as int) =~= v@);
    r
}

/// Where a screen can go: its navigation table, and whether leaving it keeps a way back.
#[derive(Debug)]
pub struct ScreenNavigation {
    pub to: Vec<(String, ScreenTo)>,
    pub back: bool,
}

impl Clone for ScreenNavigation {
    fn clone(&self) -> (r: Self)
        ensures
            table_view(r.to@) == table_view(self.to@),
            r.back == self.back,
    {
        ScreenNavigation { to: clone_table(&self.to), back: self.back }
    }
}

/// A screen of the application: how to recognise it and where it leads.
#[derive(Debug)]
pub struct Screen {
    pub ident: Vec<ScreenIdent>,
    pub nav: ScreenNavigation,
    pub routines: Vec<String>,
    pub group: Option<String>,
}

pub struct ScreenView {
    pub ident: Seq<IdentView>,
    pub to: Seq<(Seq<char>, ScreenToView)>,
    pub back: bool,
    pub routines: Seq<Seq<char>>,
    pub group: Option<Seq<char>>,
}

impl View for Screen {
    type V = ScreenView;

    open spec fn view(&self) -> ScreenView {
        ScreenView {
            ident: idents_view(self.ident@),
            to: table_view(self.nav.to@),
            back: self.nav.back,
            routines: names_view(self.routines@),
            group: opt_name_view(self.group),
        }
    }
}

impl Clone for Screen {
    fn clone(&self) -> (r: Self)
        ensures
            r@ == self@,
    {
        let group = match &self.group {
            Some(g) => Some(g.clone()),
            None => None,
        };
        Screen {
            ident: clone_idents(&self.ident),
            nav: self.nav.clone(),
            routines: clone_names(&self.routines),
            group,
        }
    }
}

/// Peer screens that share an outer frame, with the navigation they share.
#[derive(Debug)]
pub struct ScreenGroup {
    pub ident: Vec<ScreenIdent>,
    pub screens: Vec<String>,
    pub nav: ScreenNavigation,
}

pub struct GroupView {
    pub ident: Seq<IdentView>,
    pub screens: Seq<Seq<char>>,
    pub to: Seq<(Seq<char>, ScreenToView)>,
    pub back: bool,
}

impl View for ScreenGroup {
    type V = GroupView;

    open spec fn view(&self) -> GroupView {
        GroupView {
            ident: idents_view(self.ident@),
            screens: names_view(self.screens@),
            to: table_view(self.nav.to@),
            back: self.nav.back,
        }
    }
}

impl Clone for ScreenGroup {
    fn clone(&self) -> (r: Self)
        ensures
            r@ == self@,
    {
        ScreenGroup {
            ident: clone_idents(&self.ident),
            screens: clone_names(&self.screens),
            nav: self.nav.clone(),
        }
    }
}

/// Copies a table of screens keyed by name, entry by entry.
pub fn clone_screens(t: &Vec<(String, Screen)>) -> (r: Vec<(String, Screen)>)
    ensures
        entries_view(r@) == entries_view(t@),
{
    let mut r: Vec<(String, Screen)> = Vec::new();
    let mut i: usize = 0;
    while i < t.len()
        invariant
            i <= t.len(),
            r.len() == i,
            forall|m: int| 0 <= m < i ==> r@[m].0@ == t@[m].0@ && r@[m].1@ == t@[m].1@,
        decreases t.len() - i,
    {
        let k = t[i].0.clone();
        let v = t[i].1.clone();
        r.push((k, v));
        i += 1;
    }
    assert(entries_view(r@) =~= entries_view(t@));
    r
}

/// Copies a table of screen groups keyed by name, entry by entry.
pub fn clone_groups(t: &Vec<(String, ScreenGroup)>) -> (r: Vec<(String, ScreenGroup)>)
    ensures
        entries_view(r@) == entries_view(t@),
{
    let mut r: Vec<(String, ScreenGroup)> = Vec::new();
    let mut i: usize = 0;
    while i < t.len()
        invariant
            i <= t.len(),
            r.len() == i,
            forall|m: int| 0 <= m < i ==> r@[m].0@ == t@[m].0@ && r@[m].1@ == t@[m].1@,
        decreases t.len() - i,
    {
        let k = t[i].0.clone();
        let v = t[i].1.clone();
        r.push((k, v));
        i += 1;
    }
    assert(entries_view(r@) =~= entries_view(t@));
    r
}

/// What to run when a schedule entry fires.
#[derive(Clone, Debug)]
pub enum ScheduleActions {
    Routines(Vec<String>),
    Script(String),
}

/// An entry of a plan's schedule.
#[derive(Clone, Debug)]
pub struct Schedule {
    pub action: ScheduleActions,
    pub on_calendar: String,
    pub interruptible: bool,
}

/// A loaded plan: its screens and groups, keyed by name, in the order the plan
/// document gives them.
#[derive(Debug)]
pub struct Plan {
    pub workdir: String,
    pub package: String,
    pub activity: String,
    pub screens: Vec<(String, Screen)>,
    pub screen_groups: Vec<(String, ScreenGroup)>,
    pub schedules: Vec<Schedule>,
    pub routine_location: Vec<(String, String)>,
}

/// Raw navigation of a screen in a plan document: its own identifiers, links, routines,
/// and, when it is a group, its subscreens.
#[derive(Debug)]
pub struct ScreenDef {
    pub ident: Vec<ScreenIdent>,
    pub nav: ScreenNavigation,
    pub routines: Vec<String>,
    pub subscreens: Option<Vec<(String, Subscreen)>>,
}

/// A member of a screen group, as the plan document gives it.
#[derive(Debug)]
pub struct Subscreen {
    pub ident: Vec<ScreenIdent>,
    pub to: Vec<(String, ScreenTo)>,
    pub routines: Vec<String>,
}

pub struct SubscreenView {
    pub ident: Seq<IdentView>,
    pub to: Seq<(Seq<char>, ScreenToView)>,
    pub routines: Seq<Seq<char>>,
}

impl View for Subscreen {
    type V = SubscreenView;

    open spec fn view(&self) -> SubscreenView {
        SubscreenView {
            ident: idents_view(self.ident@),
            to: table_view(self.to@),
            routines: names_view(self.routines@),
        }
    }
}

pub struct ScreenDefView {
    pub ident: Seq<IdentView>,
    pub to: Seq<(Seq<char>, ScreenToView)>,
    pub back: bool,
    pub routines: Seq<Seq<char>>,
    pub subscreens: Option<Seq<(Seq<char>, SubscreenView)>>,
}

impl View for ScreenDef {
    type V = ScreenDefView;

    open spec fn view(&self) -> ScreenDefView {
        ScreenDefView {
            ident: idents_view(self.ident@),
            to: table_view(self.nav.to@),
            back: self.nav.back,
            routines: names_view(self.routines@),
            subscreens: match self.subscreens {
                Some(s) => Some(entries_view(s@)),
                None => None,
            },
        }
    }
}

/// A plan document as read: its screens in document order.
#[derive(Debug)]
pub struct PlanDef {
    pub package: String,
    pub activity: String,
    pub screens: Vec<(String, ScreenDef)>,
    pub schedules: Vec<Schedule>,
}

/// The device connection section of the configuration file.
#[derive(Debug)]
pub struct AdbConfigDef {
    pub host: Option<String>,
    pub device_serial: String,
}

/// Where the OCR models are, relative to the user data directory.
#[derive(Debug)]
pub struct OcrConfig {
    pub detection_model_path: String,
    pub recognition_model_path: String,
}

/// The configuration file as read.
#[derive(Debug)]
pub struct ConfigDef {
    pub adb: AdbConfigDef,
    pub ocr: OcrConfig,
}

} // verus!
