//! Recorded changes to a document, and how a mirror applies them.

use vstd::prelude::*;
use crate::document::{lemma_find_id_sound, KeyView, UpdateView};
use crate::element::{lemma_view_children, UiElement};
use crate::path::UiPath;

verus! {

/// How a recorded change names the element that it is about.
#[derive(Debug, PartialEq, Eq)]
pub enum UiElementKey {
    /// By the stable id that the element declares.
    Id(String),
    /// By the element's structural path.
    Path(UiPath),
}

impl View for UiElementKey {
    type V = KeyView;

    open spec fn view(&self) -> KeyView {
        match *self {
            UiElementKey::Id(id) => KeyView::Id(id@),
            UiElementKey::Path(path) => KeyView::Path(path@),
        }
    }
}

impl Clone for UiElementKey {
    fn clone(&self) -> (copy: UiElementKey)
        ensures
            copy@ == self@,
    {
        match self {
            UiElementKey::Id(id) => UiElementKey::Id(id.clone()),
            UiElementKey::Path(path) => UiElementKey::Path(path.clone()),
        }
    }
}

/// A recorded change: the element that `key` names now has the content
/// `element`.
#[derive(Debug, PartialEq, Eq)]
pub struct UiElementUpdate {
    pub key: UiElementKey,
    pub element: UiElement,
}

impl View for UiElementUpdate {
    type V = UpdateView;

    open spec fn view(&self) -> UpdateView {
        UpdateView { key: self.key@, element: self.element@ }
    }
}

impl Clone for UiElementUpdate {
    fn clone(&self) -> (copy: UiElementUpdate)
        ensures
            copy@ == self@,
    {
        UiElementUpdate { key: self.key.clone(), element: self.element.clone() }
    }
}

/// The views of a sequence of recorded changes, one for one.
pub open spec fn updates_view(updates: Seq<UiElementUpdate>) -> Seq<UpdateView> {
    Seq::new(updates.len(), |i: int| updates[i]@)
}

impl UiElement {
    /// Puts `new` in the place of the element that `path` leads to from
    /// `depth` steps into it, and says whether there is such an element.
    fn replace_below(&mut self, path: &UiPath, depth: usize, new: UiElement) -> (done: bool)
        requires
            depth <= path@.len(),
        ensures
            done == (old(self)@.node_at(path@.skip(depth as int)) is Some),
            final(self)@ == old(self)@.replace_at(path@.skip(depth as int), new@),
        decreases path@.len() - depth,
    {
        let ghost rest = path@.skip(depth as int);
        if depth == path.indices.len() {
            *self = new;
            true
        } else {
            let index: usize = path.indices[depth];
            proof {
                lemma_view_children(*old(self));
                assert(rest.skip(1) =~= path@.skip(depth as int + 1));
            }
            if index < self.children.len() {
                let child = &mut self.children[index];
                let done = child.replace_below(path, depth + 1, new);
                proof {
                    lemma_view_children(*self);
                    let before = old(self)@;
                    let below = before.children[index as int];
                    assert(rest[0] == index);
                    assert(self@.children =~= before.children.update(
                        index as int,
                        below.replace_at(rest.skip(1), new@),
                    ));
                }
                done
            } else {
                false
            }
        }
    }

    /// Puts `new` in the place of the element that `path` leads to, and
    /// says whether there is such an element. Without one, nothing changes.
    pub fn replace_at(&mut self, path: &UiPath, new: UiElement) -> (done: bool)
        ensures
            done == (old(self)@.node_at(path@) is Some),
            final(self)@ == old(self)@.replace_at(path@, new@),
    {
        assert(path@.skip(0) =~= path@);
        self.replace_below(path, 0, new)
    }

    /// The path of the element that `key` names, if it names one.
    pub fn locate(&self, key: &UiElementKey) -> (path: Option<UiPath>)
        ensures
            path is Some <==> self@.locate(key@) is Some,
            path matches Some(p) ==> self@.locate(key@) == Some(p@),
    {
        match key {
            UiElementKey::Id(id) => self.find_id(id.as_str()),
            UiElementKey::Path(path) => {
                if self.get(path).is_some() {
                    Some(path.clone())
                } else {
                    None
                }
            },
        }
    }

    /// Applies one recorded change: the element that the update's key names
    /// gets the update's content. Says whether the key named an element;
    /// where it did not, nothing changes.
    pub fn apply_update(&mut self, update: &UiElementUpdate) -> (applied: bool)
        ensures
            applied == (old(self)@.locate(update@.key) is Some),
            final(self)@ == old(self)@.updated(update@),
    {
        match self.locate(&update.key) {
            Some(path) => {
                proof {
                    if let KeyView::Id(id) = update@.key {
                        lemma_find_id_sound(self@, id);
                    }
                }
                self.replace_at(&path, update.element.clone())
            },
            None => false,
        }
    }

    /// Applies recorded changes in order. One whose key names no element,
    /// at the time it is applied, changes nothing.
    pub fn apply_updates(&mut self, updates: &Vec<UiElementUpdate>)
        ensures
            final(self)@ == old(self)@.updated_all(updates_view(updates@)),
    {
        let mut i: usize = 0;
        assert(updates_view(updates@).take(0) =~= Seq::empty());
        while i < updates.len()
            invariant
                i <= updates.len(),
                self@ == old(self)@.updated_all(updates_view(updates@).take(i as int)),
            decreases updates.len() - i,
        {
            proof {
                let all = updates_view(updates@);
                assert(all.take(i as int + 1).drop_last() =~= all.take(i as int));
                assert(all.take(i as int + 1).last() == updates@[i as int]@);
            }
            self.apply_update(&updates[i]);
            i += 1;
        }
        assert(updates_view(updates@).take(i as int) =~= updates_view(updates@));
    }
}

} // verus!
