//! What an editor offers to write.

use crate::text::same;
use vstd::prelude::*;

verus! {

/// What kind of thing is offered.
#[derive(Clone, Copy, Debug, PartialEq, Eq, Structural)]
pub enum ItemKind {
    Class,
    Function,
    Method,
    Field,
    Variable,
    Module,
    Keyword,
    TypeParameter,
}

/// Something an editor offers to write.
#[derive(Debug)]
pub struct CompletionItem {
    pub label: String,
    pub kind: ItemKind,
    pub detail: Option<String>,
    pub documentation: Option<String>,
}

/// The model of a [`CompletionItem`].
pub struct ItemV {
    pub label: Seq<char>,
    pub kind: ItemKind,
    pub detail: Option<Seq<char>>,
    pub documentation: Option<Seq<char>>,
}

impl View for CompletionItem {
    type V = ItemV;

    open spec fn view(&self) -> ItemV {
        ItemV {
            label: self.label@,
            kind: self.kind,
            detail: match self.detail {
                Some(detail) => Some(detail@),
                None => None,
            },
            documentation: match self.documentation {
                Some(text) => Some(text@),
                None => None,
            },
        }
    }
}

pub open spec fn items_v(s: Seq<CompletionItem>) -> Seq<ItemV> {
    Seq::new(s.len(), |i: int| s[i]@)
}

/// An item with a detail.
pub open spec fn item(label: Seq<char>, kind: ItemKind, detail: Seq<char>) -> ItemV {
    ItemV { label, kind, detail: Some(detail), documentation: None }
}

/// Whether items offer a label already.
pub open spec fn offers(items: Seq<ItemV>, label: Seq<char>) -> bool {
    exists|i: int| 0 <= i < items.len() && (#[trigger] items[i]).label == label
}

/// Items with one more, unless its label is offered already.
pub open spec fn offering(items: Seq<ItemV>, one: ItemV) -> Seq<ItemV> {
    if offers(items, one.label) {
        items
    } else {
        items.push(one)
    }
}

/// Whether no two items have one label.
pub open spec fn unrepeated(items: Seq<ItemV>) -> bool {
    forall|i: int, j: int| 0 <= i < j < items.len() ==> (#[trigger] items[i]).label != (#[trigger] items[j]).label
}

/// Adds an item.
pub(crate) fn push(items: &mut Vec<CompletionItem>, label: &str, kind: ItemKind, detail: String)
    ensures
        items_v(final(items)@) == items_v(old(items)@).push(item(label@, kind, detail@)),
{
    let ghost before = items_v(items@);
    items.push(CompletionItem { label: label.to_owned(), kind, detail: Some(detail), documentation: None });
    assert(items_v(items@) =~= before.push(item(label@, kind, detail@)));
}

/// Whether items offer a label.
pub fn is_offered(items: &Vec<CompletionItem>, label: &str) -> (r: bool)
    ensures
        r == offers(items_v(items@), label@),
{
    let mut i: usize = 0;
    while i < items.len()
        invariant
            i <= items@.len(),
            forall|j: int| 0 <= j < i ==> (#[trigger] items_v(items@)[j]).label != label@,
        decreases items@.len() - i,
    {
        assert(items_v(items@)[i as int] == items@[i as int]@);
        if same(items[i].label.as_str(), label) {
            return true;
        }
        i += 1;
    }
    false
}

/// Adds an item, unless its label is offered already.
pub(crate) fn offer(items: &mut Vec<CompletionItem>, label: &str, kind: ItemKind, detail: String)
    ensures
        items_v(final(items)@) == offering(items_v(old(items)@), item(label@, kind, detail@)),
{
    if !is_offered(items, label) {
        push(items, label, kind, detail);
    }
}

/// A label is offered once it has been added, and stays offered.
pub proof fn law_what_was_offered_stays_offered(items: Seq<ItemV>, one: ItemV, label: Seq<char>)
    ensures
        offers(offering(items, one), one.label),
        offers(items, label) ==> offers(offering(items, one), label),
{
    let r = offering(items, one);
    if !offers(items, one.label) {
        assert(r[items.len() as int].label == one.label);
    }
    if offers(items, label) {
        let i = choose|i: int| 0 <= i < items.len() && (#[trigger] items[i]).label == label;
        assert(r[i].label == label);
    }
}

/// No label is offered twice by items to which only unoffered ones were added.
pub proof fn law_no_label_is_offered_twice(items: Seq<ItemV>, one: ItemV)
    requires
        unrepeated(items),
    ensures
        unrepeated(offering(items, one)),
{
    let r = offering(items, one);
    assert forall|i: int, j: int| 0 <= i < j < r.len() implies (#[trigger] r[i]).label != (#[trigger] r[j]).label by {
        if j < items.len() {
            assert(items[i].label != items[j].label);
        } else {
            assert(r[i] == items[i]);
        }
    }
}

} // verus!
