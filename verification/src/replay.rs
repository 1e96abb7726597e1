//! What a mirror of the page sees: that the recorded changes, applied in
//! order to a copy of the page, rebuild the page as it is.

use vstd::prelude::*;
use crate::document::{
    lemma_edit_keeps_ids_unambiguous, EditView, ElementView, KeyView, UpdateView,
};
use crate::page::ManagerView;

verus! {

/// One request to a page manager.
pub enum Request {
    /// Make the change `edit` to the element at `at`.
    Edit { at: Seq<nat>, edit: EditView },
    /// Drain the ledger.
    Flush,
}

impl ManagerView {
    /// The manager after one request.
    pub open spec fn served(self, request: Request) -> ManagerView {
        match request {
            Request::Edit { at, edit } => self.edited(at, edit),
            Request::Flush => self.flushed(),
        }
    }

    /// The manager after the requests `requests`, in order.
    pub open spec fn after(self, requests: Seq<Request>) -> ManagerView
        decreases requests.len(),
    {
        if requests.len() == 0 {
            self
        } else {
            self.after(requests.drop_last()).served(requests.last())
        }
    }

    /// What the requests to drain the ledger among `requests` returned, in
    /// order.
    pub open spec fn batches(self, requests: Seq<Request>) -> Seq<Seq<UpdateView>>
        decreases requests.len(),
    {
        if requests.len() == 0 {
            Seq::empty()
        } else {
            let earlier = self.batches(requests.drop_last());
            match requests.last() {
                Request::Edit { .. } => earlier,
                Request::Flush => earlier.push(self.after(requests.drop_last()).drained()),
            }
        }
    }
}

/// A mirror after it applied the batches of recorded changes `batches`, in
/// order.
pub open spec fn replayed(mirror: ElementView, batches: Seq<Seq<UpdateView>>) -> ElementView
    decreases batches.len(),
{
    if batches.len() == 0 {
        mirror
    } else {
        replayed(mirror, batches.drop_last()).updated_all(batches.last())
    }
}

/// The record of a change, applied to the document as it was before the
/// change, gives the document as it is after the change.
pub proof fn lemma_update_repeats_edit(root: ElementView, at: Seq<nat>, edit: EditView)
    requires
        root.ids_unambiguous(),
        root.node_at(at) is Some,
    ensures
        root.updated(
            UpdateView {
                key: root.node_at(at).unwrap().key_at(at),
                element: root.node_at(at).unwrap().edited(edit),
            },
        ) == root.edit_at(at, edit),
{
    let target = root.node_at(at).unwrap();
    if target.id is Some {
        assert(root.has_id_at(at, target.id.unwrap()));
    }
}

/// Draining an empty ledger returns nothing. One change to one element,
/// made while the ledger is empty, is returned by the next draining as
/// exactly one update: under the element's id if it has one, else under its
/// path, with the element's new content.
pub proof fn lemma_one_change_one_update(manager: ManagerView, at: Seq<nat>, edit: EditView)
    requires
        manager.permits(at, edit),
    ensures
        manager.flushed().drained() == Seq::<UpdateView>::empty(),
        manager.flushed().edited(at, edit).drained() == seq![
            UpdateView {
                key: manager.page.root.node_at(at).unwrap().key_at(at),
                element: manager.page.root.node_at(at).unwrap().edited(edit),
            },
        ],
        manager.page.root.node_at(at).unwrap().id matches Some(id) ==> manager.flushed().edited(
            at,
            edit,
        ).drained()[0].key == KeyView::Id(id),
{
    assert(manager.flushed().permits(at, edit));
    assert(manager.flushed().edited(at, edit).drained() =~= seq![
        UpdateView {
            key: manager.page.root.node_at(at).unwrap().key_at(at),
            element: manager.page.root.node_at(at).unwrap().edited(edit),
        },
    ]);
}

/// Draining the ledger twice in a row returns what was recorded the first
/// time and nothing the second time, and the second draining changes
/// nothing.
pub proof fn lemma_drained_once(manager: ManagerView)
    requires
        manager.changes.len() > 0,
    ensures
        manager.drained().len() > 0,
        manager.flushed().drained().len() == 0,
        manager.flushed().flushed() == manager.flushed(),
{
}

/// Requests leave lookups by id unambiguous.
pub proof fn lemma_requests_keep_wf(manager: ManagerView, requests: Seq<Request>)
    requires
        manager.wf(),
    ensures
        manager.after(requests).wf(),
    decreases requests.len(),
{
    if requests.len() > 0 {
        lemma_requests_keep_wf(manager, requests.drop_last());
        let before = manager.after(requests.drop_last());
        if let Request::Edit { at, edit } = requests.last() {
            if before.permits(at, edit) {
                lemma_edit_keeps_ids_unambiguous(before.page.root, at, edit);
            }
        }
    }
}

/// A mirror keeps up with the page. Let a mirror hold `mirror`, and let
/// applying the manager's ledger to it give the page. Then, after any
/// requests to the manager, applying to the mirror every batch that was
/// drained meanwhile, in order, and then what the ledger still holds, gives
/// the page as it is.
pub proof fn lemma_mirror_keeps_up(
    manager: ManagerView,
    mirror: ElementView,
    requests: Seq<Request>,
)
    requires
        manager.wf(),
        mirror.updated_all(manager.changes) == manager.page.root,
    ensures
        replayed(mirror, manager.batches(requests)).updated_all(manager.after(requests).changes)
            == manager.after(requests).page.root,
    decreases requests.len(),
{
    if requests.len() > 0 {
        let earlier = requests.drop_last();
        let before = manager.after(earlier);
        let seen = replayed(mirror, manager.batches(earlier));
        lemma_mirror_keeps_up(manager, mirror, earlier);
        lemma_requests_keep_wf(manager, earlier);
        match requests.last() {
            Request::Edit { at, edit } => {
                if before.permits(at, edit) {
                    let target = before.page.root.node_at(at).unwrap();
                    let update = UpdateView { key: target.key_at(at), element: target.edited(edit) };
                    lemma_update_repeats_edit(before.page.root, at, edit);
                    assert(before.changes.push(update).drop_last() =~= before.changes);
                }
            },
            Request::Flush => {
                let batches = manager.batches(requests);
                assert(batches.drop_last() =~= manager.batches(earlier));
            },
        }
    }
}

/// Round trip. A mirror that starts from a copy of the page, taken when
/// the ledger was empty, and applies every batch that is drained from then
/// on, in order, holds the page as it is after each draining.
pub proof fn lemma_round_trip(manager: ManagerView, requests: Seq<Request>)
    requires
        manager.wf(),
        manager.changes.len() == 0,
        requests.len() > 0,
        requests.last() is Flush,
    ensures
        replayed(manager.page.root, manager.batches(requests)) == manager.after(
            requests,
        ).page.root,
{
    lemma_mirror_keeps_up(manager, manager.page.root, requests);
}

} // verus!
