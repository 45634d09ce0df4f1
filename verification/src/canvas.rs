//! The authoritative canvas: an ordered sequence of drawn entries with
//! monotonically-assigned identifiers.
//!
//! Entries keep insertion order; an update replaces an entry in place and a
//! deletion removes it. The identifier counter only ever grows, so an
//! identifier is never reused within one server process.

use vstd::prelude::*;

verus! {

/// One drawable shape. Geometry is unsigned 16-bit on purpose: negative
/// coordinates are not representable. The colour is RGBA, one byte each.
#[derive(Debug, Clone, PartialEq, Eq)]
pub enum CanvasElement {
    Line { x1: u16, y1: u16, x2: u16, y2: u16, colour: [u8; 4] },
    Circle { x: u16, y: u16, radius: u16, colour: [u8; 4] },
    Rect { x: u16, y: u16, width: u16, height: u16, colour: [u8; 4] },
    Text { x: u16, y: u16, text: String, colour: [u8; 4] },
}

/// Mathematical model of a [`CanvasElement`]: text as a character sequence,
/// colour as a byte sequence of length 4.
pub ghost enum ElementView {
    Line { x1: u16, y1: u16, x2: u16, y2: u16, colour: Seq<u8> },
    Circle { x: u16, y: u16, radius: u16, colour: Seq<u8> },
    Rect { x: u16, y: u16, width: u16, height: u16, colour: Seq<u8> },
    Text { x: u16, y: u16, text: Seq<char>, colour: Seq<u8> },
}

impl ElementView {
    /// Every element reachable from executable code satisfies this: the
    /// colour has exactly four channels.
    pub open spec fn wf(self) -> bool {
        match self {
            ElementView::Line { colour, .. } => colour.len() == 4,
            ElementView::Circle { colour, .. } => colour.len() == 4,
            ElementView::Rect { colour, .. } => colour.len() == 4,
            ElementView::Text { colour, .. } => colour.len() == 4,
        }
    }
}

impl View for CanvasElement {
    type V = ElementView;

    open spec fn view(&self) -> ElementView {
        match self {
            CanvasElement::Line { x1, y1, x2, y2, colour } => ElementView::Line {
                x1: *x1,
                y1: *y1,
                x2: *x2,
                y2: *y2,
                colour: colour@,
            },
            CanvasElement::Circle { x, y, radius, colour } => ElementView::Circle {
                x: *x,
                y: *y,
                radius: *radius,
                colour: colour@,
            },
            CanvasElement::Rect { x, y, width, height, colour } => ElementView::Rect {
                x: *x,
                y: *y,
                width: *width,
                height: *height,
                colour: colour@,
            },
            CanvasElement::Text { x, y, text, colour } => ElementView::Text {
                x: *x,
                y: *y,
                text: text@,
                colour: colour@,
            },
        }
    }
}

impl DeepView for CanvasElement {
    type V = ElementView;

    open spec fn deep_view(&self) -> ElementView {
        self.view()
    }
}

/// One persisted drawing operation: the element, who drew it, and the
/// identifier the canvas assigned to it. `shown` is a client-side display
/// flag; the server always stores entries as shown.
#[derive(Debug, Clone, PartialEq, Eq)]
pub struct CanvasEntry {
    pub id: usize,
    pub shown: bool,
    pub element: CanvasElement,
    pub author: String,
}

/// Mathematical model of a [`CanvasEntry`].
pub ghost struct EntryView {
    pub id: usize,
    pub shown: bool,
    pub element: ElementView,
    pub author: Seq<char>,
}

impl EntryView {
    pub open spec fn wf(self) -> bool {
        self.element.wf()
    }
}

impl View for CanvasEntry {
    type V = EntryView;

    open spec fn view(&self) -> EntryView {
        EntryView {
            id: self.id,
            shown: self.shown,
            element: self.element@,
            author: self.author@,
        }
    }
}

impl DeepView for CanvasEntry {
    type V = EntryView;

    open spec fn deep_view(&self) -> EntryView {
        self.view()
    }
}

/// The authoritative store: entries in display order plus the counter that
/// yields the next identifier.
#[derive(Debug, Clone, PartialEq)]
pub struct Canvas {
    pub entries: Vec<CanvasEntry>,
    pub current_action_id: usize,
}

/// Mathematical model of a [`Canvas`].
pub ghost struct CanvasView {
    pub entries: Seq<EntryView>,
    pub current_action_id: usize,
}

impl View for Canvas {
    type V = CanvasView;

    open spec fn view(&self) -> CanvasView {
        CanvasView { entries: self.entries.deep_view(), current_action_id: self.current_action_id }
    }
}

impl DeepView for Canvas {
    type V = CanvasView;

    open spec fn deep_view(&self) -> CanvasView {
        self.view()
    }
}

/// The first entry carrying `id`, scanning from the front.
pub open spec fn find_entry(entries: Seq<EntryView>, id: usize) -> Option<EntryView>
    decreases entries.len(),
{
    if entries.len() == 0 {
        None
    } else if entries[0].id == id {
        Some(entries[0])
    } else {
        find_entry(entries.drop_first(), id)
    }
}

/// `entries` without every entry carrying `id`; order is otherwise kept.
pub open spec fn delete_entries(entries: Seq<EntryView>, id: usize) -> Seq<EntryView>
    decreases entries.len(),
{
    if entries.len() == 0 {
        Seq::empty()
    } else {
        let rest = delete_entries(entries.drop_last(), id);
        if entries.last().id == id {
            rest
        } else {
            rest.push(entries.last())
        }
    }
}

/// `entries` with the first entry carrying `id` replaced by `e`; if no entry
/// carries `id`, the sequence is unchanged.
pub open spec fn replace_first(entries: Seq<EntryView>, id: usize, e: EntryView) -> Seq<EntryView>
    decreases entries.len(),
{
    if entries.len() == 0 {
        entries
    } else if entries[0].id == id {
        entries.update(0, e)
    } else {
        seq![entries[0]] + replace_first(entries.drop_first(), id, e)
    }
}

impl CanvasView {
    /// Every identifier on the canvas is below the counter, so the counter
    /// never hands out an identifier that is already present.
    pub open spec fn ids_bounded(self) -> bool {
        forall|i: int|
            0 <= i < self.entries.len() ==> #[trigger] self.entries[i].id
                < self.current_action_id
    }

    /// No two entries carry the same identifier.
    pub open spec fn ids_unique(self) -> bool {
        forall|i: int, j: int|
            0 <= i < j < self.entries.len() ==> #[trigger] self.entries[i].id
                != #[trigger] self.entries[j].id
    }

    pub open spec fn has_id(self, id: usize) -> bool {
        exists|i: int| 0 <= i < self.entries.len() && #[trigger] self.entries[i].id == id
    }
}

/// An exact copy of an element (text included).
pub fn clone_element(e: &CanvasElement) -> (r: CanvasElement)
    ensures
        r == *e,
{
    match e {
        CanvasElement::Line { x1, y1, x2, y2, colour } => CanvasElement::Line {
            x1: *x1,
            y1: *y1,
            x2: *x2,
            y2: *y2,
            colour: *colour,
        },
        CanvasElement::Circle { x, y, radius, colour } => CanvasElement::Circle {
            x: *x,
            y: *y,
            radius: *radius,
            colour: *colour,
        },
        CanvasElement::Rect { x, y, width, height, colour } => CanvasElement::Rect {
            x: *x,
            y: *y,
            width: *width,
            height: *height,
            colour: *colour,
        },
        CanvasElement::Text { x, y, text, colour } => CanvasElement::Text {
            x: *x,
            y: *y,
            text: text.clone(),
            colour: *colour,
        },
    }
}

/// An exact copy of an entry.
pub fn clone_entry(e: &CanvasEntry) -> (r: CanvasEntry)
    ensures
        r == *e,
{
    CanvasEntry {
        id: e.id,
        shown: e.shown,
        element: clone_element(&e.element),
        author: e.author.clone(),
    }
}

/// An exact copy of a sequence of entries.
pub fn clone_entries(v: &Vec<CanvasEntry>) -> (r: Vec<CanvasEntry>)
    ensures
        r@ == v@,
{
    let mut r: Vec<CanvasEntry> = Vec::new();
    let mut i: usize = 0;
    while i < v.len()
        invariant
            i <= v@.len(),
            r@ == v@.subrange(0, i as int),
        decreases v@.len() - i,
    {
        r.push(clone_entry(&v[i]));
        proof {
            assert(r@ =~= v@.subrange(0, i + 1 as int));
        }
        i = i + 1;
    }
    proof {
        assert(r@ =~= v@);
    }
    r
}

impl Canvas {
    /// A canvas with no entries and the counter at zero.
    pub fn new() -> (r: Self)
        ensures
            r@.entries == Seq::<EntryView>::empty(),
            r@.current_action_id == 0,
    {
        let r = Self { entries: Vec::new(), current_action_id: 0 };
        proof {
            assert(r@.entries =~= Seq::<EntryView>::empty());
        }
        r
    }

    /// Allocates the next identifier, appends the new entry at the end and
    /// returns a copy of it. Never fails.
    pub fn add_action(&mut self, user: String, element: &CanvasElement) -> (r: CanvasEntry)
        requires
            old(self).current_action_id < usize::MAX,
        ensures
            r@ == (EntryView {
                id: old(self).current_action_id,
                shown: true,
                element: element@,
                author: user@,
            }),
            final(self)@.entries == old(self)@.entries.push(r@),
            final(self)@.current_action_id == old(self).current_action_id + 1,
    {
        let entry = CanvasEntry {
            id: self.current_action_id,
            shown: true,
            element: clone_element(element),
            author: user,
        };
        let r = clone_entry(&entry);
        let ghost pre = self@.entries;
        self.entries.push(entry);
        self.current_action_id = self.current_action_id + 1;
        proof {
            assert(self@.entries =~= pre.push(r@));
        }
        r
    }

    /// The first entry carrying `id`, if any.
    pub fn get_entry(&self, id: usize) -> (r: Option<&CanvasEntry>)
        ensures
            match r {
                Some(e) => find_entry(self@.entries, id) == Some(e@),
                None => find_entry(self@.entries, id) is None,
            },
    {
        let mut i: usize = 0;
        while i < self.entries.len()
            invariant
                i <= self@.entries.len(),
                forall|j: int| 0 <= j < i ==> #[trigger] self@.entries[j].id != id,
            decreases self@.entries.len() - i,
        {
            if self.entries[i].id == id {
                proof {
                    lemma_find_first_match(self@.entries, id, i as int);
                }
                return Some(&self.entries[i]);
            }
            i = i + 1;
        }
        proof {
            lemma_find_no_match(self@.entries, id);
        }
        None
    }

    /// Replaces the element of the first entry carrying `id` in place,
    /// preserving its author, display flag and position, and returns a copy
    /// of the new entry; returns `None` if no entry carries `id`.
    pub fn update_entry(&mut self, id: usize, element: &CanvasElement) -> (r: Option<CanvasEntry>)
        ensures
            final(self)@.current_action_id == old(self).current_action_id,
            match r {
                Some(e) => {
                    &&& find_entry(old(self)@.entries, id) matches Some(prev) && e@ == (EntryView {
                        id: id,
                        shown: prev.shown,
                        element: element@,
                        author: prev.author,
                    })
                    &&& final(self)@.entries == replace_first(old(self)@.entries, id, e@)
                },
                None => {
                    &&& find_entry(old(self)@.entries, id) is None
                    &&& final(self)@.entries == old(self)@.entries
                },
            },
    {
        let ghost pre = self@.entries;
        let mut i: usize = 0;
        while i < self.entries.len()
            invariant
                i <= self@.entries.len(),
                pre == old(self)@.entries,
                self@.entries == pre,
                self.current_action_id == old(self).current_action_id,
                forall|j: int| 0 <= j < i ==> #[trigger] self@.entries[j].id != id,
            decreases self@.entries.len() - i,
        {
            if self.entries[i].id == id {
                let entry = CanvasEntry {
                    id: id,
                    shown: self.entries[i].shown,
                    element: clone_element(element),
                    author: self.entries[i].author.clone(),
                };
                let r = clone_entry(&entry);
                self.entries[i] = entry;
                proof {
                    lemma_find_first_match(pre, id, i as int);
                    assert(self@.entries =~= pre.update(i as int, r@));
                }
                return Some(r);
            }
            i = i + 1;
        }
        proof {
            lemma_find_no_match(self@.entries, id);
        }
        None
    }

    /// Removes every entry carrying `id`; does nothing if none does.
    pub fn delete_entry(&mut self, id: usize)
        ensures
            final(self)@.current_action_id == old(self).current_action_id,
            final(self)@.entries == delete_entries(old(self)@.entries, id),
    {
        let ghost pre = self@.entries;
        let mut kept: Vec<CanvasEntry> = Vec::new();
        let mut i: usize = 0;
        while i < self.entries.len()
            invariant
                i <= self@.entries.len(),
                pre == old(self)@.entries,
                self@.entries == pre,
                self.current_action_id == old(self).current_action_id,
                kept.deep_view() == delete_entries(pre.take(i as int), id),
            decreases self@.entries.len() - i,
        {
            let ghost before = kept.deep_view();
            if self.entries[i].id != id {
                kept.push(clone_entry(&self.entries[i]));
                proof {
                    assert(kept.deep_view() =~= before.push(pre[i as int]));
                }
            }
            proof {
                assert(pre.take(i + 1 as int).drop_last() =~= pre.take(i as int));
                assert(pre.take(i + 1 as int).last() == pre[i as int]);
            }
            i = i + 1;
        }
        proof {
            assert(pre.take(pre.len() as int) =~= pre);
        }
        self.entries = kept;
    }

    /// Replaces the first entry carrying `id` by `new_entry` as it stands;
    /// does nothing if no entry carries `id`.
    pub fn overwrite_entry(&mut self, id: usize, new_entry: CanvasEntry)
        ensures
            final(self)@.current_action_id == old(self).current_action_id,
            final(self)@.entries == replace_first(old(self)@.entries, id, new_entry@),
    {
        let ghost pre = self@.entries;
        let mut i: usize = 0;
        while i < self.entries.len()
            invariant
                i <= self@.entries.len(),
                pre == old(self)@.entries,
                self@.entries == pre,
                self.current_action_id == old(self).current_action_id,
                forall|j: int| 0 <= j < i ==> #[trigger] self@.entries[j].id != id,
            decreases self@.entries.len() - i,
        {
            if self.entries[i].id == id {
                proof {
                    lemma_find_first_match(pre, id, i as int);
                }
                let ghost v = new_entry@;
                self.entries[i] = new_entry;
                proof {
                    assert(self@.entries =~= pre.update(i as int, v));
                }
                return ;
            }
            i = i + 1;
        }
        proof {
            lemma_find_no_match(self@.entries, id);
        }
    }

    /// A deep copy of the whole store, used to save the state before a clear
    /// so that an undo can bring it back.
    pub fn snapshot(&self) -> (r: Canvas)
        ensures
            r@ == self@,
    {
        Canvas { entries: clone_entries(&self.entries), current_action_id: self.current_action_id }
    }

    /// Brings back the entries of a prior snapshot. The identifier counter is
    /// not rolled back: it keeps the larger of the two values, so identifiers
    /// issued after the snapshot was taken are still never reused.
    pub fn restore(&mut self, snapshot: Canvas)
        ensures
            final(self)@.entries == snapshot@.entries,
            final(self)@.current_action_id == max_counter(
                old(self).current_action_id,
                snapshot.current_action_id,
            ),
    {
        if snapshot.current_action_id > self.current_action_id {
            self.current_action_id = snapshot.current_action_id;
        }
        self.entries = snapshot.entries;
    }
}

impl Default for Canvas {
    /// The same empty canvas as [`Canvas::new`].
    fn default() -> (r: Self)
        ensures
            r@.entries == Seq::<EntryView>::empty(),
            r@.current_action_id == 0,
    {
        Canvas::new()
    }
}

/// The larger of two counter values.
pub open spec fn max_counter(a: usize, b: usize) -> usize {
    if a >= b {
        a
    } else {
        b
    }
}

/// Deletion removes exactly the entries carrying `id`: what is left never
/// carries it, and each survivor comes from the original sequence.
pub proof fn lemma_delete_removes(entries: Seq<EntryView>, id: usize)
    ensures
        forall|j: int|
            0 <= j < delete_entries(entries, id).len() ==> #[trigger] delete_entries(
                entries,
                id,
            )[j].id != id,
        forall|j: int|
            0 <= j < delete_entries(entries, id).len() ==> entries.contains(
                #[trigger] delete_entries(entries, id)[j],
            ),
    decreases entries.len(),
{
    if entries.len() > 0 {
        lemma_delete_removes(entries.drop_last(), id);
        assert forall|j: int|
            0 <= j < delete_entries(entries, id).len() implies entries.contains(
            #[trigger] delete_entries(entries, id)[j],
        ) by {
            let d = delete_entries(entries, id);
            let dprev = delete_entries(entries.drop_last(), id);
            if j < dprev.len() {
                let k = choose|k: int| 0 <= k < entries.drop_last().len() && entries.drop_last()[k]
                    == dprev[j];
                assert(entries[k] == d[j]);
            } else {
                assert(entries[entries.len() - 1] == d[j]);
            }
        }
    }
}

/// Deleting an identifier that no entry carries changes nothing.
pub proof fn lemma_delete_noop(entries: Seq<EntryView>, id: usize)
    requires
        forall|j: int| 0 <= j < entries.len() ==> #[trigger] entries[j].id != id,
    ensures
        delete_entries(entries, id) =~= entries,
    decreases entries.len(),
{
    if entries.len() > 0 {
        lemma_delete_noop(entries.drop_last(), id);
    }
}

/// Deleting the same identifier twice yields the same entries as deleting it
/// once.
pub proof fn lemma_delete_idempotent(entries: Seq<EntryView>, id: usize)
    ensures
        delete_entries(delete_entries(entries, id), id) =~= delete_entries(entries, id),
        find_entry(delete_entries(entries, id), id) is None,
{
    lemma_delete_removes(entries, id);
    lemma_delete_noop(delete_entries(entries, id), id);
    lemma_find_no_match(delete_entries(entries, id), id);
}

/// Deleting the identifier of a freshly appended entry removes exactly that
/// entry, when no earlier entry carries it.
pub proof fn lemma_delete_pushed(entries: Seq<EntryView>, e: EntryView)
    requires
        forall|j: int| 0 <= j < entries.len() ==> #[trigger] entries[j].id != e.id,
    ensures
        delete_entries(entries.push(e), e.id) =~= entries,
{
    assert(entries.push(e).drop_last() =~= entries);
    lemma_delete_noop(entries, e.id);
}

/// Replacement keeps the length, and each resulting entry is either `e` or
/// comes from the original sequence.
pub proof fn lemma_replace_first_shape(entries: Seq<EntryView>, id: usize, e: EntryView)
    ensures
        replace_first(entries, id, e).len() == entries.len(),
        forall|j: int|
            0 <= j < entries.len() ==> #[trigger] replace_first(entries, id, e)[j] == e
                || replace_first(entries, id, e)[j] == entries[j],
    decreases entries.len(),
{
    if entries.len() > 0 && entries[0].id != id {
        lemma_replace_first_shape(entries.drop_first(), id, e);
        assert forall|j: int| 0 <= j < entries.len() implies #[trigger] replace_first(
            entries,
            id,
            e,
        )[j] == e || replace_first(entries, id, e)[j] == entries[j] by {
            if j > 0 {
                assert(replace_first(entries, id, e)[j] == replace_first(
                    entries.drop_first(),
                    id,
                    e,
                )[j - 1]);
            }
        }
    }
}

/// If `k` is the first index of `entries` whose entry carries `id`, then the
/// scan finds that entry and a replacement rewrites exactly that index.
pub proof fn lemma_find_first_match(entries: Seq<EntryView>, id: usize, k: int)
    requires
        0 <= k < entries.len(),
        entries[k].id == id,
        forall|j: int| 0 <= j < k ==> #[trigger] entries[j].id != id,
    ensures
        find_entry(entries, id) == Some(entries[k]),
        forall|e: EntryView| #[trigger] replace_first(entries, id, e) =~= entries.update(k, e),
    decreases k,
{
    if k == 0 {
        assert forall|e: EntryView| #[trigger] replace_first(entries, id, e) =~= entries.update(
            k,
            e,
        ) by {}
    } else {
        lemma_find_first_match(entries.drop_first(), id, k - 1);
        assert forall|e: EntryView| #[trigger] replace_first(entries, id, e) =~= entries.update(
            k,
            e,
        ) by {
            assert(replace_first(entries.drop_first(), id, e) =~= entries.drop_first().update(
                k - 1,
                e,
            ));
        }
    }
}

/// If no entry of `entries` carries `id`, the scan finds nothing and a
/// replacement changes nothing.
pub proof fn lemma_find_no_match(entries: Seq<EntryView>, id: usize)
    requires
        forall|j: int| 0 <= j < entries.len() ==> #[trigger] entries[j].id != id,
    ensures
        find_entry(entries, id) is None,
        forall|e: EntryView| #[trigger] replace_first(entries, id, e) =~= entries,
    decreases entries.len(),
{
    if entries.len() > 0 {
        lemma_find_no_match(entries.drop_first(), id);
        assert forall|e: EntryView| #[trigger] replace_first(entries, id, e) =~= entries by {
            assert(replace_first(entries.drop_first(), id, e) =~= entries.drop_first());
        }
    }
}

} // verus!
