//! A page, and the manager through which every change to it goes, so that
//! every change is recorded.

use vstd::prelude::*;
use crate::document::{
    lemma_edit_keeps_ids_unambiguous, lemma_edit_keeps_target, lemma_find_id_none,
    lemma_find_id_sound, lemma_ids_stay_put, lemma_node_at_replaced, EditView, ElementView, UiElementKind, UpdateView,
};
use crate::element::{UiEdit, UiElement};
use crate::path::UiPath;
use crate::update::{updates_view, UiElementKey, UiElementUpdate};

verus! {

/// A page as a mathematical value.
pub struct PageView {
    pub owner: Seq<u8>,
    pub name: Seq<char>,
    pub root: ElementView,
}

/// The top-level UI document of a node: a root element, the identity of the
/// node that owns the page, and the page's name.
#[derive(Debug, PartialEq, Eq)]
pub struct UiPage {
    pub owner: Vec<u8>,
    pub name: String,
    pub root: UiElement,
}

impl View for UiPage {
    type V = PageView;

    open spec fn view(&self) -> PageView {
        PageView { owner: self.owner@, name: self.name@, root: self.root@ }
    }
}

impl Clone for UiPage {
    fn clone(&self) -> (copy: UiPage)
        ensures
            copy@ == self@,
    {
        UiPage { owner: self.owner.clone(), name: self.name.clone(), root: self.root.clone() }
    }
}

impl UiPage {
    /// A page of the given owner and name whose root is an empty element.
    pub fn new(owner: Vec<u8>, name: &str) -> (page: UiPage)
        ensures
            page@ == (PageView {
                owner: owner@,
                name: name@,
                root: ElementView {
                    kind: UiElementKind::Empty,
                    id: None,
                    text: None,
                    children: Seq::empty(),
                },
            }),
    {
        UiPage { owner, name: name.to_owned(), root: UiElement::new(UiElementKind::Empty) }
    }
}

/// Why a change to a page was not made.
#[derive(Clone, Copy, Debug, PartialEq, Eq, Structural)]
pub enum UiError {
    /// The path or id leads to no element of the page.
    Lookup,
    /// The element to add declares an id twice, or one that the page
    /// already declares.
    DuplicateId,
}

/// A page manager as a mathematical value: the page, and the changes
/// recorded since the ledger was last drained, oldest first.
pub struct ManagerView {
    pub page: PageView,
    pub changes: Seq<UpdateView>,
}

impl ManagerView {
    /// Whether lookups by id in the page are unambiguous.
    pub open spec fn wf(self) -> bool {
        self.page.root.ids_unambiguous()
    }

    /// Whether the change `edit` to the element at `at` is one that the
    /// manager makes: there is such an element, and a child to add is one
    /// that the page accepts.
    pub open spec fn permits(self, at: Seq<nat>, edit: EditView) -> bool {
        &&& self.page.root.node_at(at) is Some
        &&& edit matches EditView::AppendChild(child) ==> self.page.root.accepts(child)
    }

    /// The manager after it was asked for the change `edit` to the element
    /// at `at`. A change that it permits is made and recorded, once, under
    /// the element's id if it has one and else under `at`, with the
    /// element's new content. One that it does not permit changes nothing.
    pub open spec fn edited(self, at: Seq<nat>, edit: EditView) -> ManagerView {
        if self.permits(at, edit) {
            let target = self.page.root.node_at(at).unwrap();
            ManagerView {
                page: PageView { root: self.page.root.edit_at(at, edit), ..self.page },
                changes: self.changes.push(
                    UpdateView { key: target.key_at(at), element: target.edited(edit) },
                ),
            }
        } else {
            self
        }
    }

    /// What draining the ledger returns: the changes recorded since it was
    /// last drained, oldest first.
    pub open spec fn drained(self) -> Seq<UpdateView> {
        self.changes
    }

    /// The manager after its ledger was drained.
    pub open spec fn flushed(self) -> ManagerView {
        ManagerView { changes: Seq::empty(), ..self }
    }
}

/// No change takes away an element's id. An element that declares an id is
/// found by that id, at the same path, after the manager was asked for any
/// change to any element, whether or not it made the change. It has kept
/// its kind, id and text, unless it is itself the element whose kind or
/// text was changed: adding an element, as a sibling or anywhere else,
/// leaves every other element's own content as it was.
pub proof fn lemma_edits_keep_ids(
    manager: ManagerView,
    holder: Seq<nat>,
    id: Seq<char>,
    at: Seq<nat>,
    edit: EditView,
)
    requires
        manager.wf(),
        manager.page.root.has_id_at(holder, id),
    ensures
        manager.edited(at, edit).wf(),
        manager.edited(at, edit).page.root.declares(id),
        manager.edited(at, edit).page.root.find_id(id) == Some(holder),
        manager.page.root.find_id(id) == Some(holder),
        holder != at || edit is AppendChild ==> manager.edited(at, edit).page.root.node_at(
            holder,
        ).unwrap().shell() == manager.page.root.node_at(holder).unwrap().shell(),
{
    if manager.permits(at, edit) {
        lemma_ids_stay_put(manager.page.root, holder, id, at, edit);
        lemma_edit_keeps_ids_unambiguous(manager.page.root, at, edit);
    }
}

/// Owns one page and the ledger of the changes made to it. Every change to
/// the page goes through a handle that the manager gives out, and is
/// recorded in the ledger.
pub struct UiPageManager {
    page: UiPage,
    changes: Vec<UiElementUpdate>,
}

impl View for UiPageManager {
    type V = ManagerView;

    closed spec fn view(&self) -> ManagerView {
        ManagerView { page: self.page@, changes: updates_view(self.changes@) }
    }
}

/// Exclusive access to one element of a managed page, for changing it.
/// While a handle lives, the page can be reached through it alone.
pub struct ElementHandle<'a> {
    pub manager: &'a mut UiPageManager,
    pub path: UiPath,
}

impl UiPageManager {
    /// Whether lookups by id in the managed page are unambiguous. A new
    /// manager is so, and every operation keeps it so.
    pub open spec fn wf(&self) -> bool {
        self@.wf()
    }

    /// A manager of a new page of the given owner and name, with an empty
    /// root and an empty ledger.
    pub fn new(owner: Vec<u8>, name: &str) -> (manager: UiPageManager)
        ensures
            manager.wf(),
            manager@ == (ManagerView {
                page: PageView {
                    owner: owner@,
                    name: name@,
                    root: ElementView {
                        kind: UiElementKind::Empty,
                        id: None,
                        text: None,
                        children: Seq::empty(),
                    },
                },
                changes: Seq::empty(),
            }),
    {
        let manager = UiPageManager { page: UiPage::new(owner, name), changes: Vec::new() };
        proof {
            assert(manager@.changes =~= Seq::empty());
            let root = manager@.page.root;
            assert forall|path: Seq<nat>, id: Seq<char>| #[trigger]
                root.has_id_at(path, id) implies root.find_id(id) == Some(path) by {
                if path.len() > 0 {
                    assert(root.node_at(path) is None);
                }
            }
        }
        manager
    }

    /// The page as it is now.
    pub fn get_page(&self) -> (page: &UiPage)
        ensures
            page@ == self@.page,
    {
        &self.page
    }

    /// Makes and records the change `edit` to the element at `path`, if the
    /// manager permits it.
    fn edit(&mut self, path: &UiPath, edit: UiEdit) -> (result: Result<(), UiError>)
        ensures
            old(self).wf() ==> final(self).wf(),
            final(self)@ == old(self)@.edited(path@, edit@),
            result is Ok <==> old(self)@.permits(path@, edit@),
            result == Err::<(), UiError>(UiError::Lookup) <==> old(self)@.page.root.node_at(path@)
                is None,
            result == Err::<(), UiError>(UiError::DuplicateId) <==> old(self)@.page.root.node_at(
                path@,
            ) is Some && !old(self)@.permits(path@, edit@),
    {
        let ghost root = self@.page.root;
        let key = match self.page.root.get(path) {
            Some(target) => match &target.id {
                Some(id) => UiElementKey::Id(id.clone()),
                None => UiElementKey::Path(path.clone()),
            },
            None => {
                return Err(UiError::Lookup);
            },
        };
        if let UiEdit::AppendChild(child) = &edit {
            if !self.page.root.accepts(child) {
                return Err(UiError::DuplicateId);
            }
        }
        let ghost target = root.node_at(path@).unwrap();
        proof {
            if root.ids_unambiguous() {
                lemma_edit_keeps_ids_unambiguous(root, path@, edit@);
            }
            lemma_node_at_replaced(root, path@, target.edited(edit@), path@);
            assert(path@.skip(path@.len() as int) =~= Seq::empty());
        }
        self.page.root.edit_at(path, edit);
        let element = self.page.root.get(path).unwrap().clone();
        self.changes.push(UiElementUpdate { key, element });
        proof {
            assert(self@.changes =~= old(self)@.changes.push(
                UpdateView { key: target.key_at(path@), element: target.edited(edit@) },
            ));
        }
        Ok(())
    }

    /// A handle on the element that `path` leads to; none if an index along
    /// the path is out of range. The manager is what the handle left it as
    /// once the handle is gone.
    pub fn get_element_mut(&mut self, path: &UiPath) -> (handle: Option<ElementHandle<'_>>)
        ensures
            handle is Some <==> old(self)@.page.root.node_at(path@) is Some,
            handle matches Some(h) ==> {
                &&& *h.manager == *old(self)
                &&& h.path@ == path@
                &&& *final(self) == *final(h.manager)
            },
            handle is None ==> *final(self) == *old(self),
    {
        if self.page.root.get(path).is_some() {
            Some(ElementHandle { manager: self, path: path.clone() })
        } else {
            None
        }
    }

    /// A handle on the element that declares the id `id`; none if no element
    /// of the page does. The manager is what the handle left it as once the
    /// handle is gone.
    pub fn get_by_id_mut(&mut self, id: &str) -> (handle: Option<ElementHandle<'_>>)
        ensures
            handle is Some <==> old(self)@.page.root.declares(id@),
            handle matches Some(h) ==> {
                &&& *h.manager == *old(self)
                &&& old(self)@.page.root.find_id(id@) == Some(h.path@)
                &&& old(self)@.page.root.has_id_at(h.path@, id@)
                &&& *final(self) == *final(h.manager)
            },
            handle is None ==> *final(self) == *old(self),
    {
        proof {
            lemma_find_id_none(self@.page.root, id@);
            lemma_find_id_sound(self@.page.root, id@);
        }
        match self.page.root.find_id(id) {
            Some(path) => Some(ElementHandle { manager: self, path }),
            None => None,
        }
    }

    /// Drains the ledger: returns the changes recorded since it was last
    /// drained, oldest first, and leaves it empty. The page is not changed.
    pub fn get_changes(&mut self) -> (changes: Vec<UiElementUpdate>)
        ensures
            updates_view(changes@) == old(self)@.drained(),
            final(self)@ == old(self)@.flushed(),
    {
        let mut changes: Vec<UiElementUpdate> = Vec::new();
        core::mem::swap(&mut changes, &mut self.changes);
        proof {
            assert(self@.changes =~= Seq::empty());
        }
        changes
    }
}

impl<'a> ElementHandle<'a> {
    /// Whether the handle's path leads to an element of the page.
    pub open spec fn resolves(&self) -> bool {
        self.manager@.page.root.node_at(self.path@) is Some
    }

    /// Changes the element's kind, and records the change.
    pub fn set_kind(&mut self, kind: UiElementKind) -> (result: Result<(), UiError>)
        ensures
            old(self).manager.wf() ==> final(self).manager.wf(),
            final(self).manager@ == old(self).manager@.edited(
                old(self).path@,
                EditView::SetKind(kind),
            ),
            final(self).path == old(self).path,
            *final(final(self).manager) == *final(old(self).manager),
            final(self).resolves() == old(self).resolves(),
            result is Ok <==> old(self).resolves(),
            result is Err <==> result == Err::<(), UiError>(UiError::Lookup),
    {
        proof {
            lemma_edit_keeps_target(self.manager@.page.root, self.path@, EditView::SetKind(kind));
        }
        self.manager.edit(&self.path, UiEdit::SetKind(kind))
    }

    /// Changes the element's text, and records the change.
    pub fn set_text(&mut self, text: String) -> (result: Result<(), UiError>)
        ensures
            old(self).manager.wf() ==> final(self).manager.wf(),
            final(self).manager@ == old(self).manager@.edited(
                old(self).path@,
                EditView::SetText(text@),
            ),
            final(self).path == old(self).path,
            *final(final(self).manager) == *final(old(self).manager),
            final(self).resolves() == old(self).resolves(),
            result is Ok <==> old(self).resolves(),
            result is Err <==> result == Err::<(), UiError>(UiError::Lookup),
    {
        proof {
            lemma_edit_keeps_target(self.manager@.page.root, self.path@, EditView::SetText(text@));
        }
        self.manager.edit(&self.path, UiEdit::SetText(text))
    }

    /// Adds `child` after the element's last child, and records the change
    /// to the element. The child gets no id that it did not have. A child
    /// that the page does not accept is not added.
    pub fn append_child(&mut self, child: UiElement) -> (result: Result<(), UiError>)
        ensures
            old(self).manager.wf() ==> final(self).manager.wf(),
            final(self).manager@ == old(self).manager@.edited(
                old(self).path@,
                EditView::AppendChild(child@),
            ),
            final(self).path == old(self).path,
            *final(final(self).manager) == *final(old(self).manager),
            final(self).resolves() == old(self).resolves(),
            result is Ok <==> old(self).manager@.permits(
                old(self).path@,
                EditView::AppendChild(child@),
            ),
            result == Err::<(), UiError>(UiError::Lookup) <==> !old(self).resolves(),
            result == Err::<(), UiError>(UiError::DuplicateId) <==> old(self).resolves()
                && !old(self).manager@.page.root.accepts(child@),
    {
        proof {
            lemma_edit_keeps_target(
                self.manager@.page.root,
                self.path@,
                EditView::AppendChild(child@),
            );
        }
        self.manager.edit(&self.path, UiEdit::AppendChild(child))
    }
}

} // verus!
