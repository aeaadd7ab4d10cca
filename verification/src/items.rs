//! The items a plugin exposes and the local search over a cached item list.

use vstd::prelude::*;
use crate::text::{contains_text, is_substring, lowercase, lowercase_of};

verus! {

/// The mathematical value of an item.
pub struct ItemView {
    pub name: Seq<char>,
    pub description: Seq<char>,
    pub icon: Seq<char>,
}

/// A unit of content that a plugin exposes.
#[derive(Debug, PartialEq, Eq)]
pub struct PluginItem {
    pub name: String,
    pub description: String,
    pub icon: String,
}

impl View for PluginItem {
    type V = ItemView;

    open spec fn view(&self) -> ItemView {
        ItemView { name: self.name@, description: self.description@, icon: self.icon@ }
    }
}

impl DeepView for PluginItem {
    type V = ItemView;

    open spec fn deep_view(&self) -> ItemView {
        self@
    }
}

impl Clone for PluginItem {
    fn clone(&self) -> (copy: Self)
        ensures
            copy@ == self@,
    {
        PluginItem {
            name: self.name.clone(),
            description: self.description.clone(),
            icon: self.icon.clone(),
        }
    }
}

/// A copy of an item list.
pub fn copy_items(items: &Vec<PluginItem>) -> (out: Vec<PluginItem>)
    ensures
        out.deep_view() == items.deep_view(),
{
    let mut out: Vec<PluginItem> = Vec::new();
    let mut i: usize = 0;
    while i < items.len()
        invariant
            i <= items.len(),
            out.deep_view() == items.deep_view().take(i as int),
        decreases items.len() - i,
    {
        let ghost before = out.deep_view();
        out.push(items[i].clone());
        proof {
            assert(out.deep_view() =~= before.push(items.deep_view()[i as int]));
            assert(items.deep_view().take(i as int).push(items.deep_view()[i as int])
                =~= items.deep_view().take(i + 1));
        }
        i = i + 1;
    }
    proof {
        assert(items.deep_view().take(items.len() as int) =~= items.deep_view());
    }
    out
}

/// Whether a lowercased query occurs in a lowercased name or description.
pub open spec fn lowered_match(name: Seq<char>, description: Seq<char>, query: Seq<char>) -> bool {
    is_substring(query, name) || is_substring(query, description)
}

/// An item matches a query when the query occurs in its name or in its
/// description, letter case ignored.
pub open spec fn item_matches(item: ItemView, query: Seq<char>) -> bool {
    lowered_match(lowercase_of(item.name), lowercase_of(item.description), lowercase_of(query))
}

/// The items of `items` that match `query`, in their order.
pub open spec fn matching_items(items: Seq<ItemView>, query: Seq<char>) -> Seq<ItemView> {
    items.filter(|item: ItemView| item_matches(item, query))
}

/// Decides a match on texts that are already in lowercase.
pub fn matches_lowered(name: &str, description: &str, query: &str) -> (b: bool)
    ensures
        b == lowered_match(name@, description@, query@),
{
    contains_text(name, query) || contains_text(description, query)
}

/// Decides whether an item matches a query, letter case ignored.
pub fn matches_query(item: &PluginItem, query: &str) -> (b: bool)
    ensures
        b == item_matches(item@, query@),
{
    let name = lowercase(item.name.as_str());
    let description = lowercase(item.description.as_str());
    let wanted = lowercase(query);
    matches_lowered(name.as_str(), description.as_str(), wanted.as_str())
}

/// Copies of the items that match `query`, in the order of `items`.
pub fn filter_items(items: &Vec<PluginItem>, query: &str) -> (out: Vec<PluginItem>)
    ensures
        out.deep_view() == matching_items(items.deep_view(), query@),
{
    let ghost keep = |item: ItemView| item_matches(item, query@);
    let mut out: Vec<PluginItem> = Vec::new();
    let mut i: usize = 0;
    proof {
        assert(items.deep_view().take(0) =~= Seq::<ItemView>::empty());
        reveal(Seq::filter);
        assert(out.deep_view() =~= Seq::<ItemView>::empty());
    }
    while i < items.len()
        invariant
            i <= items.len(),
            keep == |item: ItemView| item_matches(item, query@),
            out.deep_view() == items.deep_view().take(i as int).filter(keep),
        decreases items.len() - i,
    {
        let ghost before = out.deep_view();
        proof {
            items.deep_view().take(i as int).lemma_filter_push(items.deep_view()[i as int], keep);
            assert(items.deep_view().take(i as int).push(items.deep_view()[i as int])
                =~= items.deep_view().take(i + 1));
        }
        if matches_query(&items[i], query) {
            out.push(items[i].clone());
            proof {
                assert(out.deep_view() =~= before.push(items.deep_view()[i as int]));
            }
        }
        i = i + 1;
    }
    proof {
        assert(items.deep_view().take(items.len() as int) =~= items.deep_view());
    }
    out
}

} // verus!
