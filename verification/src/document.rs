//! The mathematical model of a UI document: a tree of elements addressed by
//! structural paths and by stable ids.

use vstd::prelude::*;

verus! {

/// How an element lays out or shows its content.
#[derive(Clone, Copy, Debug, PartialEq, Eq, Structural)]
pub enum UiElementKind {
    /// Shows nothing of its own.
    Empty,
    /// Lays its children out one below the other.
    Rows,
    /// Lays its children out side by side.
    Columns,
    /// Shows its text.
    Text,
}

/// An element of the document as a mathematical value.
pub struct ElementView {
    pub kind: UiElementKind,
    pub id: Option<Seq<char>>,
    pub text: Option<Seq<char>>,
    pub children: Seq<ElementView>,
}

impl ElementView {
    /// The element that `path` leads to from `self`, if every index along
    /// the path is in range. The empty path leads to `self`.
    pub open spec fn node_at(self, path: Seq<nat>) -> Option<ElementView>
        decreases path.len(),
    {
        if path.len() == 0 {
            Some(self)
        } else if path[0] < self.children.len() {
            self.children[path[0] as int].node_at(path.skip(1))
        } else {
            None
        }
    }

    /// `self` with the element at `path` replaced by `new`; `self` itself
    /// where `path` leads nowhere.
    pub open spec fn replace_at(self, path: Seq<nat>, new: ElementView) -> ElementView
        decreases path.len(),
    {
        if path.len() == 0 {
            new
        } else if path[0] < self.children.len() {
            ElementView {
                children: self.children.update(
                    path[0] as int,
                    self.children[path[0] as int].replace_at(path.skip(1), new),
                ),
                ..self
            }
        } else {
            self
        }
    }

    /// The path of the first element, in document order, that declares `id`.
    pub open spec fn find_id(self, id: Seq<char>) -> Option<Seq<nat>>
        decreases self, 0nat,
    {
        if self.id == Some(id) {
            Some(Seq::empty())
        } else {
            find_id_among(self.children, id, 0)
        }
    }
}

/// The path, from the parent of `children`, of the first element at or below
/// `children[from..]` that declares `id`.
pub open spec fn find_id_among(children: Seq<ElementView>, id: Seq<char>, from: nat) -> Option<
    Seq<nat>,
>
    decreases children, children.len() - from,
{
    if from >= children.len() {
        None
    } else {
        match children[from as int].find_id(id) {
            Some(p) => Some(seq![from] + p),
            None => find_id_among(children, id, from + 1),
        }
    }
}

/// One change to one element.
pub enum EditView {
    SetKind(UiElementKind),
    SetText(Seq<char>),
    AppendChild(ElementView),
}

impl ElementView {
    /// `self` after the change `edit`.
    pub open spec fn edited(self, edit: EditView) -> ElementView {
        match edit {
            EditView::SetKind(kind) => ElementView { kind, ..self },
            EditView::SetText(text) => ElementView { text: Some(text), ..self },
            EditView::AppendChild(child) => ElementView {
                children: self.children.push(child),
                ..self
            },
        }
    }

    /// `self` after the change `edit` to the element at `path`; `self`
    /// itself where `path` leads nowhere.
    pub open spec fn edit_at(self, path: Seq<nat>, edit: EditView) -> ElementView {
        match self.node_at(path) {
            Some(target) => self.replace_at(path, target.edited(edit)),
            None => self,
        }
    }
}

/// How a recorded change names the element that it is about.
pub enum KeyView {
    /// By the stable id that the element declares.
    Id(Seq<char>),
    /// By the element's structural path.
    Path(Seq<nat>),
}

/// A recorded change: the element that `key` names now has the content
/// `element`.
pub struct UpdateView {
    pub key: KeyView,
    pub element: ElementView,
}

impl ElementView {
    /// How a change to `self`, found at `path`, is keyed: by the id of
    /// `self` if it has one, else by `path`.
    pub open spec fn key_at(self, path: Seq<nat>) -> KeyView {
        match self.id {
            Some(id) => KeyView::Id(id),
            None => KeyView::Path(path),
        }
    }

    /// The path of the element that `key` names, if it names one.
    pub open spec fn locate(self, key: KeyView) -> Option<Seq<nat>> {
        match key {
            KeyView::Id(id) => self.find_id(id),
            KeyView::Path(path) => if self.node_at(path) is Some {
                Some(path)
            } else {
                None
            },
        }
    }

    /// `self` after the recorded change `update` was applied to it; `self`
    /// itself where the update's key names no element.
    pub open spec fn updated(self, update: UpdateView) -> ElementView {
        match self.locate(update.key) {
            Some(path) => self.replace_at(path, update.element),
            None => self,
        }
    }

    /// `self` after the recorded changes `updates` were applied to it, in
    /// order.
    pub open spec fn updated_all(self, updates: Seq<UpdateView>) -> ElementView
        decreases updates.len(),
    {
        if updates.len() == 0 {
            self
        } else {
            self.updated_all(updates.drop_last()).updated(updates.last())
        }
    }
}

/// Whether `path` begins with all of `prefix`.
pub open spec fn starts_with(path: Seq<nat>, prefix: Seq<nat>) -> bool {
    &&& prefix.len() <= path.len()
    &&& forall|k: int| 0 <= k < prefix.len() ==> path[k] == prefix[k]
}

impl ElementView {
    /// The element without its children: its kind, id and text.
    pub open spec fn shell(self) -> ElementView {
        ElementView { children: Seq::empty(), ..self }
    }

    /// Whether `path` leads to an element that declares `id`.
    pub open spec fn has_id_at(self, path: Seq<nat>, id: Seq<char>) -> bool {
        self.node_at(path) matches Some(e) && e.id == Some(id)
    }

    /// Whether some element at or below `self` declares `id`.
    pub open spec fn declares(self, id: Seq<char>) -> bool {
        exists|path: Seq<nat>| self.has_id_at(path, id)
    }

    /// Whether lookups by id are unambiguous: every element that declares
    /// an id is the one that a lookup of that id finds.
    pub open spec fn ids_unambiguous(self) -> bool {
        forall|path: Seq<nat>, id: Seq<char>| #[trigger]
            self.has_id_at(path, id) ==> self.find_id(id) == Some(path)
    }

    /// Whether no id is declared by two elements.
    pub open spec fn ids_distinct(self) -> bool {
        forall|p: Seq<nat>, q: Seq<nat>, id: Seq<char>|
            #[trigger] self.has_id_at(p, id) && #[trigger] self.has_id_at(q, id) ==> p == q
    }

    /// Whether `child` can become part of the document `self` without making
    /// a lookup by id ambiguous: it declares no id twice, and none that
    /// `self` declares.
    pub open spec fn accepts(self, child: ElementView) -> bool {
        &&& child.ids_unambiguous()
        &&& forall|id: Seq<char>| child.declares(id) ==> !self.declares(id)
    }
}

/// Dropping the first step of a path and of a prefix of it keeps the one a
/// prefix of the other.
pub proof fn lemma_starts_with_step(path: Seq<nat>, prefix: Seq<nat>)
    requires
        path.len() > 0,
        prefix.len() > 0,
    ensures
        starts_with(path, prefix) <==> path[0] == prefix[0] && starts_with(
            path.skip(1),
            prefix.skip(1),
        ),
{
    let path1 = path.skip(1);
    let prefix1 = prefix.skip(1);
    if starts_with(path, prefix) {
        assert forall|k: int| 0 <= k < prefix1.len() implies path1[k] == prefix1[k] by {
            assert(path[k + 1] == prefix[k + 1]);
        }
    }
    if path[0] == prefix[0] && starts_with(path1, prefix1) {
        assert forall|k: int| 0 <= k < prefix.len() implies path[k] == prefix[k] by {
            if k > 0 {
                assert(path1[k - 1] == prefix1[k - 1]);
            }
        }
    }
}

/// What a path leads to after the element at `at` was replaced by `new`.
/// At and below `at` it leads into `new`. Anywhere else it leads to an
/// element if and only if it did before, and that element has kept its kind,
/// id and text.
pub proof fn lemma_node_at_replaced(
    root: ElementView,
    at: Seq<nat>,
    new: ElementView,
    path: Seq<nat>,
)
    requires
        root.node_at(at) is Some,
    ensures
        starts_with(path, at) ==> root.replace_at(at, new).node_at(path) == new.node_at(
            path.skip(at.len() as int),
        ),
        starts_with(path, at) ==> root.node_at(path) == root.node_at(at).unwrap().node_at(
            path.skip(at.len() as int),
        ),
        !starts_with(path, at) ==> (root.replace_at(at, new).node_at(path) is Some
            <==> root.node_at(path) is Some),
        !starts_with(path, at) && root.node_at(path) is Some ==> root.replace_at(
            at,
            new,
        ).node_at(path).unwrap().shell() == root.node_at(path).unwrap().shell(),
    decreases at.len(),
{
    let after = root.replace_at(at, new);
    if at.len() == 0 {
        assert(path.skip(0) =~= path);
    } else {
        let i = at[0] as int;
        let below = root.children[i];
        if path.len() == 0 {
        } else if path[0] == at[0] {
            lemma_starts_with_step(path, at);
            lemma_node_at_replaced(below, at.skip(1), new, path.skip(1));
            if starts_with(path, at) {
                assert(path.skip(1).skip(at.skip(1).len() as int) =~= path.skip(at.len() as int));
            }
            assert(after.node_at(path) == below.replace_at(at.skip(1), new).node_at(path.skip(1)));
        } else {
            lemma_starts_with_step(path, at);
            if path[0] < root.children.len() {
                assert(after.children[path[0] as int] == root.children[path[0] as int]);
            }
        }
    }
}

/// A lookup by id finds an element that declares the id.
pub proof fn lemma_find_id_sound(root: ElementView, id: Seq<char>)
    ensures
        root.find_id(id) matches Some(path) ==> root.has_id_at(path, id),
    decreases root, 0nat,
{
    if root.id != Some(id) {
        lemma_find_id_among_sound(root.children, id, 0);
    }
}

/// A lookup by id among children finds a child, not before `from`, and below
/// it an element that declares the id.
pub proof fn lemma_find_id_among_sound(children: Seq<ElementView>, id: Seq<char>, from: nat)
    ensures
        find_id_among(children, id, from) matches Some(path) ==> {
            &&& path.len() > 0
            &&& from <= path[0] < children.len()
            &&& children[path[0] as int].has_id_at(path.skip(1), id)
        },
    decreases children, children.len() - from,
{
    if from < children.len() {
        match children[from as int].find_id(id) {
            Some(below) => {
                lemma_find_id_sound(children[from as int], id);
                assert((seq![from] + below).skip(1) =~= below);
            },
            None => {
                lemma_find_id_among_sound(children, id, from + 1);
            },
        }
    }
}

/// A lookup by id finds something whenever some element declares the id.
pub proof fn lemma_find_id_complete(root: ElementView, path: Seq<nat>, id: Seq<char>)
    requires
        root.has_id_at(path, id),
    ensures
        root.find_id(id) is Some,
    decreases path.len(),
{
    if root.id != Some(id) {
        let i = path[0];
        lemma_find_id_complete(root.children[i as int], path.skip(1), id);
        lemma_find_id_among_complete(root.children, id, 0, i);
    }
}

/// A lookup by id among children finds something whenever a lookup in one
/// of the children that it covers does.
pub proof fn lemma_find_id_among_complete(
    children: Seq<ElementView>,
    id: Seq<char>,
    from: nat,
    holder: nat,
)
    requires
        from <= holder < children.len(),
        children[holder as int].find_id(id) is Some,
    ensures
        find_id_among(children, id, from) is Some,
    decreases holder - from,
{
    if from < holder && children[from as int].find_id(id) is None {
        lemma_find_id_among_complete(children, id, from + 1, holder);
    }
}

/// Lookups by id are unambiguous exactly where no id is declared twice.
pub proof fn lemma_unambiguous_iff_distinct(root: ElementView)
    ensures
        root.ids_unambiguous() <==> root.ids_distinct(),
{
    if root.ids_distinct() {
        assert forall|path: Seq<nat>, id: Seq<char>| #[trigger]
            root.has_id_at(path, id) implies root.find_id(id) == Some(path) by {
            lemma_find_id_complete(root, path, id);
            lemma_find_id_sound(root, id);
        }
    }
}

/// A lookup by id finds nothing exactly where no element declares the id.
pub proof fn lemma_find_id_none(root: ElementView, id: Seq<char>)
    ensures
        root.find_id(id) is None <==> !root.declares(id),
{
    lemma_find_id_sound(root, id);
    if root.declares(id) {
        let path = choose|path: Seq<nat>| root.has_id_at(path, id);
        lemma_find_id_complete(root, path, id);
    }
}

/// A path that begins with `prefix` is `prefix` followed by the rest of it.
pub proof fn lemma_starts_with_split(path: Seq<nat>, prefix: Seq<nat>)
    requires
        starts_with(path, prefix),
    ensures
        path == prefix + path.skip(prefix.len() as int),
{
    assert(path =~= prefix + path.skip(prefix.len() as int));
}

/// Which elements declare which ids after one change to the element at
/// `at`: those that did before and, where the change added a child, those
/// of the new child, at their places below it.
pub proof fn lemma_has_id_at_edited(
    root: ElementView,
    at: Seq<nat>,
    edit: EditView,
    path: Seq<nat>,
    id: Seq<char>,
)
    requires
        root.node_at(at) is Some,
    ensures
        root.edit_at(at, edit).has_id_at(path, id) <==> {
            ||| root.has_id_at(path, id)
            ||| {
                &&& edit matches EditView::AppendChild(child)
                &&& starts_with(path, at.push(root.node_at(at).unwrap().children.len()))
                &&& child.has_id_at(path.skip(at.len() as int + 1), id)
            }
        },
{
    let target = root.node_at(at).unwrap();
    let changed = target.edited(edit);
    let slot = target.children.len();
    lemma_node_at_replaced(root, at, changed, path);
    if starts_with(path, at.push(slot)) {
        assert forall|k: int| 0 <= k < at.len() implies path[k] == at[k] by {
            assert(at.push(slot)[k] == at[k]);
        }
        assert(path[at.len() as int] == at.push(slot)[at.len() as int]);
    }
    if starts_with(path, at) {
        let rest = path.skip(at.len() as int);
        if rest.len() > 0 {
            assert(rest[0] == path[at.len() as int]);
            assert(rest.skip(1) =~= path.skip(at.len() as int + 1));
            if rest[0] == slot {
                assert forall|k: int| 0 <= k < at.push(slot).len() implies path[k] == at.push(
                    slot,
                )[k] by {
                    if k < at.len() {
                        assert(at.push(slot)[k] == at[k]);
                    }
                }
            }
        }
    }
}

/// One change to an element of a document in which lookups by id are
/// unambiguous leaves them so, where a child that it adds is one that the
/// document accepts.
pub proof fn lemma_edit_keeps_ids_unambiguous(root: ElementView, at: Seq<nat>, edit: EditView)
    requires
        root.ids_unambiguous(),
        root.node_at(at) is Some,
        edit matches EditView::AppendChild(child) ==> root.accepts(child),
    ensures
        root.edit_at(at, edit).ids_unambiguous(),
{
    let after = root.edit_at(at, edit);
    let slot = at.push(root.node_at(at).unwrap().children.len());
    lemma_unambiguous_iff_distinct(root);
    lemma_unambiguous_iff_distinct(after);
    assert forall|p: Seq<nat>, q: Seq<nat>, id: Seq<char>|
        #[trigger] after.has_id_at(p, id) && #[trigger] after.has_id_at(q, id) implies p == q by {
        lemma_has_id_at_edited(root, at, edit, p, id);
        lemma_has_id_at_edited(root, at, edit, q, id);
        if !root.has_id_at(p, id) || !root.has_id_at(q, id) {
            let child = edit->AppendChild_0;
            lemma_unambiguous_iff_distinct(child);
            if root.has_id_at(p, id) || root.has_id_at(q, id) {
                let below = if root.has_id_at(p, id) { q } else { p };
                assert(child.has_id_at(below.skip(at.len() as int + 1), id));
                assert(child.declares(id));
                assert(root.declares(id));
            } else {
                assert(child.has_id_at(p.skip(at.len() as int + 1), id));
                assert(child.has_id_at(q.skip(at.len() as int + 1), id));
                lemma_starts_with_split(p, slot);
                lemma_starts_with_split(q, slot);
            }
        }
    }
}

/// Whether `holds` is true of `node`, found at `path`, and of every element
/// below it, each with its own path.
pub open spec fn all_below(
    node: ElementView,
    path: Seq<nat>,
    holds: spec_fn(Seq<nat>, ElementView) -> bool,
) -> bool
    decreases node,
{
    &&& holds(path, node)
    &&& forall|i: int|
        0 <= i < node.children.len() ==> all_below(
            #[trigger] node.children[i],
            path.push(i as nat),
            holds,
        )
}

/// `all_below` speaks of exactly the elements that paths from `node` lead
/// to.
pub proof fn lemma_all_below(
    node: ElementView,
    path: Seq<nat>,
    holds: spec_fn(Seq<nat>, ElementView) -> bool,
)
    ensures
        all_below(node, path, holds) <==> forall|rest: Seq<nat>|
            (#[trigger] node.node_at(rest)) matches Some(e) ==> holds(path + rest, e),
    decreases node,
{
    let everywhere = forall|rest: Seq<nat>|
        (#[trigger] node.node_at(rest)) matches Some(e) ==> holds(path + rest, e);
    if all_below(node, path, holds) {
        assert forall|rest: Seq<nat>| (#[trigger] node.node_at(rest)) is Some implies holds(
            path + rest,
            node.node_at(rest).unwrap(),
        ) by {
            if rest.len() == 0 {
                assert(path + rest =~= path);
            } else {
                let i = rest[0] as int;
                lemma_all_below(node.children[i], path.push(i as nat), holds);
                assert(node.children[i].node_at(rest.skip(1)) is Some);
                assert(path.push(i as nat) + rest.skip(1) =~= path + rest);
            }
        }
    }
    if everywhere {
        assert(node.node_at(Seq::empty()) == Some(node));
        assert(path + Seq::<nat>::empty() =~= path);
        assert forall|i: int| 0 <= i < node.children.len() implies all_below(
            #[trigger] node.children[i],
            path.push(i as nat),
            holds,
        ) by {
            lemma_all_below(node.children[i], path.push(i as nat), holds);
            assert forall|rest: Seq<nat>|
                (#[trigger] node.children[i].node_at(rest)) is Some implies holds(
                path.push(i as nat) + rest,
                node.children[i].node_at(rest).unwrap(),
            ) by {
                let longer = seq![i as nat] + rest;
                assert(longer.skip(1) =~= rest);
                assert(node.node_at(longer) == node.children[i].node_at(rest));
                assert(path + longer =~= path.push(i as nat) + rest);
            }
        }
    }
}

/// What `accepts` asks of one element of a child, found at `path` in it:
/// that its id, if it has one, is found at `path` by a lookup in the child
/// and by none in the document.
pub open spec fn fits(root: ElementView, child: ElementView) -> spec_fn(
    Seq<nat>,
    ElementView,
) -> bool {
    |path: Seq<nat>, e: ElementView|
        e.id matches Some(id) ==> child.find_id(id) == Some(path) && root.find_id(id) is None
}

/// A document accepts a child exactly where every element of the child
/// fits.
pub proof fn lemma_accepts(root: ElementView, child: ElementView)
    ensures
        root.accepts(child) <==> all_below(child, Seq::empty(), fits(root, child)),
{
    let holds = fits(root, child);
    lemma_all_below(child, Seq::empty(), holds);
    if root.accepts(child) {
        assert forall|rest: Seq<nat>| (#[trigger] child.node_at(rest)) is Some implies holds(
            Seq::empty() + rest,
            child.node_at(rest).unwrap(),
        ) by {
            assert(Seq::<nat>::empty() + rest =~= rest);
            let e = child.node_at(rest).unwrap();
            if e.id is Some {
                let id = e.id.unwrap();
                assert(child.has_id_at(rest, id));
                assert(child.declares(id));
                lemma_find_id_none(root, id);
            }
        }
    }
    if all_below(child, Seq::empty(), holds) {
        assert forall|path: Seq<nat>, id: Seq<char>| #[trigger]
            child.has_id_at(path, id) implies child.find_id(id) == Some(path)
            && !root.declares(id) by {
            assert(Seq::<nat>::empty() + path =~= path);
            assert(holds(Seq::empty() + path, child.node_at(path).unwrap()));
            lemma_find_id_none(root, id);
        }
        assert forall|id: Seq<char>| child.declares(id) implies !root.declares(id) by {
            let path = choose|path: Seq<nat>| child.has_id_at(path, id);
            assert(child.has_id_at(path, id));
        }
    }
}

/// After a change to the element at `at`, `at` leads to the changed
/// element.
pub proof fn lemma_edit_keeps_target(root: ElementView, at: Seq<nat>, edit: EditView)
    ensures
        root.edit_at(at, edit).node_at(at) == match root.node_at(at) {
            Some(target) => Some(target.edited(edit)),
            None => None,
        },
{
    if root.node_at(at) is Some {
        let target = root.node_at(at).unwrap();
        lemma_node_at_replaced(root, at, target.edited(edit), at);
        assert(at.skip(at.len() as int) =~= Seq::empty());
    }
}

/// A document accepts an element without children exactly where it does not
/// declare the element's id, if the element has one.
pub proof fn lemma_accepts_leaf(root: ElementView, leaf: ElementView)
    requires
        leaf.children.len() == 0,
    ensures
        root.accepts(leaf) <==> (leaf.id matches Some(id) ==> !root.declares(id)),
{
    lemma_accepts(root, leaf);
    if leaf.id is Some {
        lemma_find_id_none(root, leaf.id.unwrap());
    }
}

/// Ids are stable under every change. An element that declares an id is
/// found by that id, at the same path, after any one change to any element
/// of a document in which lookups by id are unambiguous. It has kept its
/// kind, id and text, unless it is itself the element whose kind or text
/// was changed.
pub proof fn lemma_ids_stay_put(
    root: ElementView,
    holder: Seq<nat>,
    id: Seq<char>,
    at: Seq<nat>,
    edit: EditView,
)
    requires
        root.ids_unambiguous(),
        root.has_id_at(holder, id),
        edit matches EditView::AppendChild(child) ==> root.accepts(child),
    ensures
        root.find_id(id) == Some(holder),
        root.edit_at(at, edit).find_id(id) == Some(holder),
        root.edit_at(at, edit).has_id_at(holder, id),
        holder != at || edit is AppendChild ==> root.edit_at(at, edit).node_at(
            holder,
        ).unwrap().shell() == root.node_at(holder).unwrap().shell(),
{
    if root.node_at(at) is Some {
        let target = root.node_at(at).unwrap();
        let changed = target.edited(edit);
        lemma_has_id_at_edited(root, at, edit, holder, id);
        lemma_edit_keeps_ids_unambiguous(root, at, edit);
        lemma_node_at_replaced(root, at, changed, holder);
        if holder == at {
            assert(holder.skip(at.len() as int) =~= Seq::empty());
        }
        if starts_with(holder, at) && holder != at {
            let rest = holder.skip(at.len() as int);
            lemma_starts_with_split(holder, at);
            if rest.len() == 0 {
                assert(holder =~= at);
            }
            assert(target.node_at(rest) is Some);
            assert(changed.children[rest[0] as int] == target.children[rest[0] as int]);
        }
    }
}

} // verus!
