//! The elements of a document as owned, executable values.

use vstd::prelude::*;
use crate::document::{
    all_below, find_id_among, fits, lemma_accepts, EditView, ElementView, UiElementKind,
};
use crate::path::{steps, UiPath};

verus! {

/// A node of the UI tree. It owns its children; there are no references back
/// to a parent.
#[derive(Debug, PartialEq, Eq)]
pub struct UiElement {
    pub kind: UiElementKind,
    pub id: Option<String>,
    pub text: Option<String>,
    pub children: Vec<UiElement>,
}

/// An optional string as an optional sequence of characters.
pub open spec fn opt_chars(s: Option<String>) -> Option<Seq<char>> {
    match s {
        Some(s) => Some(s@),
        None => None,
    }
}

/// The mathematical value of an element and of all that is below it.
pub open spec fn element_view(e: UiElement) -> ElementView
    decreases e,
{
    ElementView {
        kind: e.kind,
        id: opt_chars(e.id),
        text: opt_chars(e.text),
        children: Seq::new(
            e.children@.len(),
            |i: int|
                if 0 <= i < e.children@.len() {
                    element_view(e.children@[i])
                } else {
                    arbitrary()
                },
        ),
    }
}

impl View for UiElement {
    type V = ElementView;

    open spec fn view(&self) -> ElementView {
        element_view(*self)
    }
}

/// The views of a sequence of elements, one for one.
pub open spec fn elements_view(s: Seq<UiElement>) -> Seq<ElementView> {
    Seq::new(s.len(), |i: int| s[i]@)
}

/// The view of an element has the views of its children as its children.
pub proof fn lemma_view_children(e: UiElement)
    ensures
        e@.children == elements_view(e.children@),
        e@.kind == e.kind,
        e@.id == opt_chars(e.id),
        e@.text == opt_chars(e.text),
{
    assert(e@.children =~= elements_view(e.children@));
}

/// One change to one element.
#[derive(Debug, PartialEq, Eq)]
pub enum UiEdit {
    SetKind(UiElementKind),
    SetText(String),
    AppendChild(UiElement),
}

impl View for UiEdit {
    type V = EditView;

    open spec fn view(&self) -> EditView {
        match *self {
            UiEdit::SetKind(kind) => EditView::SetKind(kind),
            UiEdit::SetText(text) => EditView::SetText(text@),
            UiEdit::AppendChild(child) => EditView::AppendChild(child@),
        }
    }
}

fn clone_text(text: &Option<String>) -> (copy: Option<String>)
    ensures
        opt_chars(copy) == opt_chars(*text),
{
    match text {
        Some(s) => Some(s.clone()),
        None => None,
    }
}

impl Clone for UiElement {
    /// A copy of the element and of all that is below it.
    fn clone(&self) -> (copy: UiElement)
        ensures
            copy@ == self@,
        decreases self,
    {
        let mut children: Vec<UiElement> = Vec::new();
        let mut i: usize = 0;
        while i < self.children.len()
            invariant
                i <= self.children.len(),
                children@.len() == i,
                forall|j: int| 0 <= j < i ==> (#[trigger] children@[j])@ == self.children@[j]@,
            decreases self.children.len() - i,
        {
            let child = self.children[i].clone();
            children.push(child);
            i += 1;
        }
        let copy = UiElement {
            kind: self.kind,
            id: clone_text(&self.id),
            text: clone_text(&self.text),
            children,
        };
        proof {
            lemma_view_children(*self);
            lemma_view_children(copy);
            assert(copy@.children =~= self@.children);
        }
        copy
    }
}

impl UiElement {
    /// An element of the given kind, without id, text or children.
    pub fn new(kind: UiElementKind) -> (e: UiElement)
        ensures
            e@ == (ElementView { kind, id: None, text: None, children: Seq::empty() }),
    {
        let e = UiElement { kind, id: None, text: None, children: Vec::new() };
        proof {
            lemma_view_children(e);
            assert(e@.children =~= Seq::empty());
        }
        e
    }

    /// A text element that shows `text`, without id or children.
    pub fn from_string(text: &str) -> (e: UiElement)
        ensures
            e@ == (ElementView {
                kind: UiElementKind::Text,
                id: None,
                text: Some(text@),
                children: Seq::empty(),
            }),
    {
        let e = UiElement {
            kind: UiElementKind::Text,
            id: None,
            text: Some(text.to_owned()),
            children: Vec::new(),
        };
        proof {
            lemma_view_children(e);
            assert(e@.children =~= Seq::empty());
        }
        e
    }

    /// Gives the element the stable id `id`, in place of any it had.
    pub fn set_id(&mut self, id: &str)
        ensures
            final(self)@ == (ElementView { id: Some(id@), ..old(self)@ }),
    {
        self.id = Some(id.to_owned());
        proof {
            lemma_view_children(*old(self));
            lemma_view_children(*self);
        }
    }

    /// Changes the element's kind.
    pub fn set_kind(&mut self, kind: UiElementKind)
        ensures
            final(self)@ == (ElementView { kind, ..old(self)@ }),
    {
        self.kind = kind;
        proof {
            lemma_view_children(*old(self));
            lemma_view_children(*self);
        }
    }

    /// Changes the element's text.
    pub fn set_text(&mut self, text: String)
        ensures
            final(self)@ == (ElementView { text: Some(text@), ..old(self)@ }),
    {
        self.text = Some(text);
        proof {
            lemma_view_children(*old(self));
            lemma_view_children(*self);
        }
    }

    /// Adds `child` after the element's last child. The child's id, if it
    /// has one, is kept as it is; none is made up for it.
    pub fn append_child(&mut self, child: UiElement)
        ensures
            final(self)@ == (ElementView {
                children: old(self)@.children.push(child@),
                ..old(self)@
            }),
    {
        self.children.push(child);
        proof {
            lemma_view_children(*old(self));
            lemma_view_children(*self);
            assert(self@.children =~= old(self)@.children.push(child@));
        }
    }

    /// Makes the change `edit` to this element.
    pub fn apply_edit(&mut self, edit: UiEdit)
        ensures
            final(self)@ == old(self)@.edited(edit@),
    {
        match edit {
            UiEdit::SetKind(kind) => self.set_kind(kind),
            UiEdit::SetText(text) => self.set_text(text),
            UiEdit::AppendChild(child) => self.append_child(child),
        }
    }

    /// The element that `path` leads to, if every index along it is in
    /// range.
    pub fn get(&self, path: &UiPath) -> (found: Option<&UiElement>)
        ensures
            found is Some <==> self@.node_at(path@) is Some,
            found matches Some(e) ==> self@.node_at(path@) == Some(e@),
    {
        let mut current: &UiElement = self;
        let mut depth: usize = 0;
        assert(path@.skip(0) =~= path@);
        while depth < path.indices.len()
            invariant
                depth <= path.indices.len(),
                self@.node_at(path@) == current@.node_at(path@.skip(depth as int)),
            decreases path.indices.len() - depth,
        {
            let index: usize = path.indices[depth];
            proof {
                lemma_view_children(*current);
                assert(path@.skip(depth as int).skip(1) =~= path@.skip(depth as int + 1));
            }
            if index < current.children.len() {
                current = &current.children[index];
                depth += 1;
            } else {
                return None;
            }
        }
        Some(current)
    }

    /// Makes the change `edit` to the element that `path` leads to from
    /// `depth` steps into it, and says whether there is such an element.
    fn edit_below(&mut self, path: &UiPath, depth: usize, edit: UiEdit) -> (done: bool)
        requires
            depth <= path@.len(),
        ensures
            done == (old(self)@.node_at(path@.skip(depth as int)) is Some),
            final(self)@ == old(self)@.edit_at(path@.skip(depth as int), edit@),
        decreases path@.len() - depth,
    {
        let ghost rest = path@.skip(depth as int);
        if depth == path.indices.len() {
            self.apply_edit(edit);
            true
        } else {
            let index: usize = path.indices[depth];
            proof {
                lemma_view_children(*old(self));
                assert(rest.skip(1) =~= path@.skip(depth as int + 1));
            }
            if index < self.children.len() {
                let child = &mut self.children[index];
                let done = child.edit_below(path, depth + 1, edit);
                proof {
                    lemma_view_children(*self);
                    let before = old(self)@;
                    let below = before.children[index as int];
                    assert(rest[0] == index);
                    assert(before.node_at(rest) == below.node_at(rest.skip(1)));
                    assert(self@.children =~= before.children.update(
                        index as int,
                        below.edit_at(rest.skip(1), edit@),
                    ));
                    if below.node_at(rest.skip(1)) is None {
                        assert(self@.children =~= before.children);
                    }
                }
                done
            } else {
                false
            }
        }
    }

    /// Makes the change `edit` to the element that `path` leads to, and says
    /// whether there is such an element. Without one, nothing changes.
    pub fn edit_at(&mut self, path: &UiPath, edit: UiEdit) -> (done: bool)
        ensures
            done == (old(self)@.node_at(path@) is Some),
            final(self)@ == old(self)@.edit_at(path@, edit@),
    {
        assert(path@.skip(0) =~= path@);
        self.edit_below(path, 0, edit)
    }

    /// Looks for the first element at or below `self`, in document order,
    /// that declares `id`. If there is one, the steps that lead to it from
    /// `self` are added to `prefix`; if not, `prefix` is left as it was.
    fn find_below(&self, id: &String, prefix: &mut Vec<usize>) -> (found: bool)
        ensures
            found == (self@.find_id(id@) is Some),
            found ==> steps(final(prefix)@) == steps(old(prefix)@) + self@.find_id(id@).unwrap(),
            !found ==> final(prefix)@ == old(prefix)@,
        decreases self,
    {
        proof {
            lemma_view_children(*self);
        }
        let declared = match &self.id {
            Some(own) => *own == *id,
            None => false,
        };
        if declared {
            assert(steps(prefix@) + Seq::<nat>::empty() =~= steps(prefix@));
            return true;
        }
        let mut i: usize = 0;
        while i < self.children.len()
            invariant
                i <= self.children.len(),
                self@.children == elements_view(self.children@),
                self@.id != Some(id@),
                prefix@ == old(prefix)@,
                find_id_among(self@.children, id@, i as nat) == find_id_among(
                    self@.children,
                    id@,
                    0,
                ),
            decreases self.children.len() - i,
        {
            prefix.push(i);
            let found = self.children[i].find_below(id, prefix);
            if found {
                proof {
                    let below = self.children@[i as int]@.find_id(id@).unwrap();
                    assert(steps(old(prefix)@.push(i)) =~= steps(old(prefix)@) + seq![i as nat]);
                    assert(steps(prefix@) =~= steps(old(prefix)@) + (seq![i as nat] + below));
                    assert(self@.find_id(id@) == Some(seq![i as nat] + below));
                }
                return true;
            }
            prefix.pop();
            assert(prefix@ =~= old(prefix)@);
            i += 1;
        }
        false
    }

    /// The path of the first element, in document order, that declares the
    /// id `id`, if any element does.
    pub fn find_id(&self, id: &str) -> (path: Option<UiPath>)
        ensures
            path is Some <==> self@.find_id(id@) is Some,
            path matches Some(p) ==> self@.find_id(id@) == Some(p@),
    {
        let wanted = id.to_owned();
        let mut indices: Vec<usize> = Vec::new();
        if self.find_below(&wanted, &mut indices) {
            assert(Seq::<nat>::empty() + self@.find_id(id@).unwrap() =~= self@.find_id(
                id@,
            ).unwrap());
            Some(UiPath::new(indices))
        } else {
            None
        }
    }

    /// Whether this element, found at `prefix` in `child`, and every element
    /// below it fits: each id is found at its own place by a lookup in
    /// `child`, and by none in `root`.
    fn fits_below(&self, root: &UiElement, child: &UiElement, prefix: &mut Vec<usize>) -> (ok:
        bool)
        ensures
            final(prefix)@ == old(prefix)@,
            ok == all_below(self@, steps(old(prefix)@), fits(root@, child@)),
        decreases self,
    {
        proof {
            lemma_view_children(*self);
        }
        match &self.id {
            Some(id) => {
                if root.find_id(id.as_str()).is_some() {
                    return false;
                }
                match child.find_id(id.as_str()) {
                    Some(found) => {
                        if !same_steps(&found.indices, prefix) {
                            return false;
                        }
                    },
                    None => {
                        return false;
                    },
                }
            },
            None => {},
        }
        let mut i: usize = 0;
        while i < self.children.len()
            invariant
                i <= self.children.len(),
                self@.children == elements_view(self.children@),
                prefix@ == old(prefix)@,
                fits(root@, child@)(steps(old(prefix)@), self@),
                forall|j: int|
                    0 <= j < i ==> all_below(
                        #[trigger] self@.children[j],
                        steps(old(prefix)@).push(j as nat),
                        fits(root@, child@),
                    ),
            decreases self.children.len() - i,
        {
            prefix.push(i);
            assert(steps(prefix@) =~= steps(old(prefix)@).push(i as nat));
            let ok = self.children[i].fits_below(root, child, prefix);
            prefix.pop();
            assert(prefix@ =~= old(prefix)@);
            if !ok {
                assert(!all_below(
                    self@.children[i as int],
                    steps(old(prefix)@).push(i as nat),
                    fits(root@, child@),
                ));
                return false;
            }
            i += 1;
        }
        true
    }

    /// Whether `child` can become part of this document without making a
    /// lookup by id ambiguous: it declares no id twice, and none that this
    /// document declares.
    pub fn accepts(&self, child: &UiElement) -> (ok: bool)
        ensures
            ok == self@.accepts(child@),
    {
        let mut prefix: Vec<usize> = Vec::new();
        proof {
            lemma_accepts(self@, child@);
            assert(steps(prefix@) =~= Seq::empty());
        }
        child.fits_below(self, child, &mut prefix)
    }
}

/// Whether two lists of child indices are the same path.
fn same_steps(a: &Vec<usize>, b: &Vec<usize>) -> (same: bool)
    ensures
        same == (steps(a@) == steps(b@)),
{
    if a.len() != b.len() {
        assert(steps(a@).len() != steps(b@).len());
        return false;
    }
    let mut i: usize = 0;
    while i < a.len()
        invariant
            i <= a.len(),
            a.len() == b.len(),
            forall|j: int| 0 <= j < i ==> a@[j] == b@[j],
        decreases a.len() - i,
    {
        if a[i] != b[i] {
            assert(steps(a@)[i as int] != steps(b@)[i as int]);
            return false;
        }
        i += 1;
    }
    assert(a@ =~= b@);
    true
}

} // verus!
