use vstd::prelude::*;

verus! {

/// An entry of the debug log: a line of text, or the path of a saved image.
#[derive(Debug)]
pub enum DebugItem {
    Text(String),
    Image(String),
}

pub enum DebugItemView {
    Text(Seq<char>),
    Image(Seq<char>),
}

impl View for DebugItem {
    type V = DebugItemView;

    open spec fn view(&self) -> DebugItemView {
        match self {
            DebugItem::Text(t) => DebugItemView::Text(t@),
            DebugItem::Image(p) => DebugItemView::Image(p@),
        }
    }
}

/// What perception publishes for inspection: texts and saved images, in order.
#[derive(Debug)]
pub struct DebugData {
    items: Vec<DebugItem>,
    trigger: bool,
    counter: usize,
}

impl DebugData {
    pub closed spec fn items_view(&self) -> Seq<DebugItemView> {
        self.items@.map_values(|i: DebugItem| i@)
    }

    pub closed spec fn images_named(&self) -> nat {
        self.counter as nat
    }

    /// An empty log.
    pub fn new() -> (r: Self)
        ensures
            r.items_view().len() == 0,
            r.images_named() == 0,
    {
        DebugData { items: Vec::new(), trigger: false, counter: 0 }
    }

    /// Appends a line of text.
    pub fn push_text(&mut self, text: &str)
        ensures
            final(self).items_view() == old(self).items_view().push(DebugItemView::Text(text@)),
            final(self).images_named() == old(self).images_named(),
    {
        let ghost before = self.items@;
        self.items.push(DebugItem::Text(text.to_owned()));
        assert(self.items@.map_values(|i: DebugItem| i@) =~= before.map_values(
            |i: DebugItem| i@,
        ).push(DebugItemView::Text(text@)));
    }

    /// Appends the path of a saved image.
    pub fn push_image_path(&mut self, path: String)
        ensures
            final(self).items_view() == old(self).items_view().push(DebugItemView::Image(path@)),
            final(self).images_named() == old(self).images_named(),
    {
        let ghost before = self.items@;
        let ghost pv = path@;
        self.items.push(DebugItem::Image(path));
        assert(self.items@.map_values(|i: DebugItem| i@) =~= before.map_values(
            |i: DebugItem| i@,
        ).push(DebugItemView::Image(pv)));
    }

    /// The number for the next saved image: one more than the images named so far.
    pub fn next_image_number(&mut self) -> (r: usize)
        requires
            old(self).images_named() < usize::MAX,
        ensures
            r == old(self).images_named() + 1,
            final(self).images_named() == r,
            final(self).items_view() == old(self).items_view(),
    {
        self.counter = self.counter + 1;
        self.counter
    }

    /// How many images have been named.
    pub fn image_count(&self) -> (r: usize)
        ensures
            r == self.images_named(),
    {
        self.counter
    }
}

} // verus!
