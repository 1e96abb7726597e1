//! The node's business logic: the page that it shows, and what it does on
//! each wake of its event loop.

use vstd::prelude::*;
use vstd::string::StringExecFns;
use crate::document::{
    find_id_among, lemma_accepts_leaf, lemma_find_id_none, EditView, ElementView, KeyView,
    UiElementKind, UpdateView,
};
use crate::element::UiElement;
use crate::page::{ManagerView, PageView, UiPage, UiPageManager};
use crate::path::UiPath;
use crate::update::{updates_view, UiElementUpdate};

verus! {

/// A message about the UI, as a mathematical value.
pub enum UiMessageView {
    SetPage(PageView),
    UpdateElements(Seq<UpdateView>),
    Other,
}

/// A message of the session, as a mathematical value.
pub enum MessageView {
    Peripheral,
    Ui(UiMessageView),
    Dataset,
    Event,
}

/// A message about the UI.
#[derive(Debug, PartialEq, Eq)]
pub enum UiMessage {
    /// A whole page, as it is now.
    SetPage(UiPage),
    /// The changes to a page since the last message about it, oldest first.
    UpdateElements(Vec<UiElementUpdate>),
    /// Any other message about the UI. This node sends none and reads
    /// nothing of one that it gets.
    Other,
}

/// A message of the session with the host, as far as this node looks into
/// it: of the kinds other than `Ui` it reads nothing but the kind.
#[derive(Debug, PartialEq, Eq)]
pub enum Message {
    Peripheral,
    Ui(UiMessage),
    Dataset,
    Event,
}

impl View for UiMessage {
    type V = UiMessageView;

    open spec fn view(&self) -> UiMessageView {
        match *self {
            UiMessage::SetPage(page) => UiMessageView::SetPage(page@),
            UiMessage::UpdateElements(updates) => UiMessageView::UpdateElements(
                updates_view(updates@),
            ),
            UiMessage::Other => UiMessageView::Other,
        }
    }
}

impl View for Message {
    type V = MessageView;

    open spec fn view(&self) -> MessageView {
        match *self {
            Message::Peripheral => MessageView::Peripheral,
            Message::Ui(message) => MessageView::Ui(message@),
            Message::Dataset => MessageView::Dataset,
            Message::Event => MessageView::Event,
        }
    }
}

/// The text element that names what the page shows.
pub open spec fn label() -> ElementView {
    ElementView {
        kind: UiElementKind::Text,
        id: None,
        text: Some("Temp is: "@),
        children: Seq::empty(),
    }
}

/// The text element that shows the latest reading, `text`. It declares a
/// stable id, by which every later change finds it.
pub open spec fn readout(text: Seq<char>) -> ElementView {
    ElementView {
        kind: UiElementKind::Text,
        id: Some("temp"@),
        text: Some(text),
        children: Seq::empty(),
    }
}

/// The page of the node of identity `owner` while it shows the reading
/// `reading`: two rows, the label and the readout.
pub open spec fn probe_page(owner: Seq<u8>, reading: Seq<char>) -> PageView {
    PageView {
        owner,
        name: "Probe"@,
        root: ElementView {
            kind: UiElementKind::Rows,
            id: None,
            text: None,
            children: seq![label(), readout(reading)],
        },
    }
}

/// The text that the readout shows for the measured value `value`.
pub open spec fn readout_text(value: Seq<char>) -> Seq<char> {
    value + "C"@
}

/// The message that tells the host that the readout now shows `text`.
pub open spec fn readout_update(text: Seq<char>) -> MessageView {
    MessageView::Ui(
        UiMessageView::UpdateElements(
            seq![UpdateView { key: KeyView::Id("temp"@), element: readout(text) }],
        ),
    )
}

/// The node's state as a mathematical value: its identity, and the reading
/// that its page shows.
pub struct StateView {
    pub owner: Seq<u8>,
    pub reading: Seq<char>,
}

/// What the node keeps between the turns of its event loop.
pub struct State {
    test_page: UiPageManager,
}

impl View for State {
    type V = StateView;

    closed spec fn view(&self) -> StateView {
        StateView {
            owner: self.test_page@.page.owner,
            reading: self.test_page@.page.root.children[1].text.unwrap(),
        }
    }
}

/// The path of the readout in the node's page.
pub open spec fn readout_path() -> Seq<nat> {
    seq![1nat]
}

/// In the node's page the readout is found where it stands, and lookups by
/// id are unambiguous.
proof fn lemma_probe_page(owner: Seq<u8>, reading: Seq<char>)
    ensures
        probe_page(owner, reading).root.node_at(readout_path()) == Some(readout(reading)),
        probe_page(owner, reading).root.has_id_at(readout_path(), "temp"@),
        probe_page(owner, reading).root.ids_unambiguous(),
{
    let root = probe_page(owner, reading).root;
    assert(readout_path().skip(1) =~= Seq::empty());
    assert(root.node_at(readout_path()) == root.children[1].node_at(readout_path().skip(1)));
    assert(label().find_id("temp"@) is None);
    assert(root.children[1].find_id("temp"@) == Some(Seq::<nat>::empty()));
    assert(find_id_among(root.children, "temp"@, 1) == Some(seq![1nat] + Seq::empty()));
    assert(seq![1nat] + Seq::<nat>::empty() =~= readout_path());
    assert forall|path: Seq<nat>, id: Seq<char>| #[trigger]
        root.has_id_at(path, id) implies root.find_id(id) == Some(path) by {
        let below = root.children[path[0] as int];
        if path.skip(1).len() > 0 {
            assert(below.node_at(path.skip(1)) is None);
        }
        assert(path =~= readout_path());
    }
}

impl State {
    /// The manager of the node's page.
    pub closed spec fn manager(&self) -> UiPageManager {
        self.test_page
    }

    /// Whether the state is one that the node's own operations leave: the
    /// page is the node's page, and its ledger is empty.
    pub open spec fn wf(&self) -> bool {
        &&& self.manager().wf()
        &&& self.manager()@ == (ManagerView {
            page: probe_page(self@.owner, self@.reading),
            changes: Seq::empty(),
        })
    }

    /// Starts the node of identity `owner`: builds its page, with a
    /// placeholder for the reading, and drains the ledger, since the first
    /// message carries the whole page. Returns the state and that message.
    pub fn init(owner: Vec<u8>) -> (started: (State, Message))
        ensures
            started.0.wf(),
            started.0@ == (StateView { owner: owner@, reading: "-"@ }),
            started.1@ == MessageView::Ui(UiMessageView::SetPage(probe_page(owner@, "-"@))),
    {
        let mut test_page = UiPageManager::new(owner, "Probe");
        let mut root = test_page.get_element_mut(&UiPath::root()).expect("all pages have a root");
        root.set_kind(UiElementKind::Rows).unwrap();
        let ghost rows = root.manager@;
        proof {
            assert(rows.page.root.children =~= Seq::empty());
            lemma_accepts_leaf(rows.page.root, label());
            lemma_find_id_none(rows.page.root, "temp"@);
            lemma_accepts_leaf(rows.page.root, readout("-"@));
        }
        root.append_child(UiElement::from_string("Temp is: ")).unwrap();
        let ghost labelled = root.manager@;
        let mut element = UiElement::from_string("-");
        element.set_id("temp");
        proof {
            assert(labelled.page.root.children =~= seq![label()]);
            assert(label().find_id("temp"@) is None);
            assert(find_id_among(labelled.page.root.children, "temp"@, 1) is None);
            lemma_find_id_none(labelled.page.root, "temp"@);
            lemma_accepts_leaf(labelled.page.root, readout("-"@));
        }
        root.append_child(element).unwrap();
        proof {
            assert(root.manager@.page.root.children =~= seq![label(), readout("-"@)]);
        }
        test_page.get_changes();
        let msg = Message::Ui(UiMessage::SetPage(test_page.get_page().clone()));
        (State { test_page }, msg)
    }

    /// The manager of the node's page.
    pub fn test_page(&self) -> (manager: &UiPageManager)
        ensures
            *manager == self.manager(),
    {
        &self.test_page
    }

    /// Shows the measured value `value`, with its unit, in the readout, and
    /// returns the message that tells the host of the change. The change is
    /// made and the ledger drained in one turn.
    pub fn publish_reading(&mut self, value: &str) -> (message: Message)
        requires
            old(self).wf(),
        ensures
            final(self).wf(),
            final(self)@ == (StateView { reading: readout_text(value@), ..old(self)@ }),
            message@ == readout_update(readout_text(value@)),
    {
        let mut text = String::from_str(value);
        text.append("C");
        proof {
            lemma_probe_page(self@.owner, self@.reading);
            lemma_probe_page(self@.owner, text@);
        }
        let ghost before = self.test_page@.page.root;
        let mut element = self.test_page.get_by_id_mut("temp").expect(
            "Page should have temp element",
        );
        proof {
            assert(before.find_id("temp"@) == Some(readout_path()));
            assert(readout_path().skip(1) =~= Seq::empty());
            let shown = before.children[1];
            let changed = shown.edited(EditView::SetText(text@));
            assert(shown.replace_at(readout_path().skip(1), changed) == changed);
            assert(before.replace_at(readout_path(), changed).children =~= seq![
                label(),
                readout(text@),
            ]);
        }
        element.set_text(text).unwrap();
        let changes = self.test_page.get_changes();
        proof {
            assert(updates_view(changes@) =~= seq![
                UpdateView { key: KeyView::Id("temp"@), element: readout(readout_text(value@)) },
            ]);
        }
        Message::Ui(UiMessage::UpdateElements(changes))
    }
}

/// Handles a message from the host. This probe only sends: whatever the
/// message's kind, the state is left as it is.
pub fn msg_handler(state: &mut State, msg: Message)
    ensures
        *final(state) == *old(state),
{
    match msg {
        Message::Peripheral => {},
        Message::Ui(_) => {},
        Message::Dataset => {},
        Message::Event => {},
    }
}

/// What woke the event loop. Each wake is handled to the end before the
/// loop waits again, so one handler at a time touches the page.
#[derive(Debug, PartialEq, Eq)]
pub enum Wake {
    /// The session delivered a message, or ended.
    Inbound(Option<Message>),
    /// The sampling timer fired and the probe was read: the measured value,
    /// as text.
    Sampled(String),
    /// The sampling timer fired and the bus transaction failed.
    SampleFailed,
}

/// What the event loop does after a wake was handled.
#[derive(Debug, PartialEq, Eq)]
pub enum Action {
    /// Wait for the next wake.
    Wait,
    /// Send the message to the host, then wait for the next wake.
    Send(Message),
    /// Leave the loop.
    Stop,
}

/// Handles one wake of the event loop. A message from the host is handed to
/// `msg_handler` and the loop goes on; the end of the session ends the loop.
/// A sample is shown and published. A failed sample is skipped: what the
/// page shows stays, and nothing is sent.
pub fn dispatch(state: &mut State, wake: Wake) -> (action: Action)
    requires
        old(state).wf(),
    ensures
        final(state).wf(),
        match wake {
            Wake::Inbound(Some(_)) => action is Wait && *final(state) == *old(state),
            Wake::Inbound(None) => action is Stop && *final(state) == *old(state),
            Wake::Sampled(value) => {
                &&& final(state)@ == (StateView {
                    reading: readout_text(value@),
                    ..old(state)@
                })
                &&& action matches Action::Send(message)
                &&& message@ == readout_update(readout_text(value@))
            },
            Wake::SampleFailed => action is Wait && *final(state) == *old(state),
        },
{
    match wake {
        Wake::Inbound(Some(msg)) => {
            msg_handler(state, msg);
            Action::Wait
        },
        Wake::Inbound(None) => Action::Stop,
        Wake::Sampled(value) => Action::Send(state.publish_reading(value.as_str())),
        Wake::SampleFailed => Action::Wait,
    }
}

} // verus!
