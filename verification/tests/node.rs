use probe_node::document::UiElementKind;
use probe_node::element::UiElement;
use probe_node::node::{dispatch, msg_handler, Action, Message, State, UiMessage, Wake};
use probe_node::page::UiPage;
use probe_node::sensor::Channel;
use probe_node::update::{UiElementKey, UiElementUpdate};

const TEMP_SCALE: f32 = 0.00001525878;

fn readout(content: &str) -> UiElement {
    let mut e = UiElement::from_string(content);
    e.set_id("temp");
    e
}

fn probe_page(owner: Vec<u8>, reading: &str) -> UiPage {
    let mut root = UiElement::new(UiElementKind::Rows);
    root.append_child(UiElement::from_string("Temp is: "));
    root.append_child(readout(reading));
    UiPage { owner, name: String::from("Probe"), root }
}

fn readout_update(content: &str) -> Message {
    Message::Ui(UiMessage::UpdateElements(vec![UiElementUpdate {
        key: UiElementKey::Id(String::from("temp")),
        element: readout(content),
    }]))
}

#[test]
fn startup_sends_the_whole_page_once() {
    let (state, first) = State::init(vec![1, 2, 3]);
    assert_eq!(first, Message::Ui(UiMessage::SetPage(probe_page(vec![1, 2, 3], "-"))));
    assert_eq!(state.test_page().get_page(), &probe_page(vec![1, 2, 3], "-"));
}

#[test]
fn startup_page_has_a_label_and_an_id_tagged_placeholder() {
    let (_, first) = State::init(Vec::new());
    let page = match first {
        Message::Ui(UiMessage::SetPage(page)) => page,
        other => panic!("expected a page, got {:?}", other),
    };
    assert_eq!(page.name, "Probe");
    assert_eq!(page.root.kind, UiElementKind::Rows);
    assert_eq!(page.root.children.len(), 2);
    assert_eq!(page.root.children[0].text, Some(String::from("Temp is: ")));
    assert_eq!(page.root.children[0].id, None);
    assert_eq!(page.root.children[1].text, Some(String::from("-")));
    assert_eq!(page.root.children[1].id, Some(String::from("temp")));
}

#[test]
fn first_tick_sends_one_update_of_the_placeholder() {
    let (mut state, _) = State::init(vec![5]);
    let counts = Channel::Temperature.decode(&[0, 0, 0, 100]).expect("four bytes");
    let degrees = counts as f32 * TEMP_SCALE;
    let value = format!("{}", degrees);
    assert_eq!(value, "0.001525878");
    let action = dispatch(&mut state, Wake::Sampled(value));
    assert_eq!(action, Action::Send(readout_update("0.001525878C")));
    assert_eq!(state.test_page().get_page(), &probe_page(vec![5], "0.001525878C"));
}

#[test]
fn every_tick_sends_exactly_the_new_reading() {
    let (mut state, _) = State::init(Vec::new());
    assert_eq!(
        dispatch(&mut state, Wake::Sampled(String::from("20.5"))),
        Action::Send(readout_update("20.5C"))
    );
    assert_eq!(
        dispatch(&mut state, Wake::Sampled(String::from("21"))),
        Action::Send(readout_update("21C"))
    );
    assert_eq!(
        dispatch(&mut state, Wake::Sampled(String::new())),
        Action::Send(readout_update("C"))
    );
}

#[test]
fn publish_reading_appends_the_unit() {
    let (mut state, _) = State::init(vec![1]);
    assert_eq!(state.publish_reading("-3.25"), readout_update("-3.25C"));
    assert_eq!(state.test_page().get_page(), &probe_page(vec![1], "-3.25C"));
}

#[test]
fn a_mirror_of_the_node_follows_every_tick() {
    let (mut state, first) = State::init(vec![4]);
    let mut mirror = match first {
        Message::Ui(UiMessage::SetPage(page)) => page.root,
        other => panic!("expected a page, got {:?}", other),
    };
    for value in ["1", "2.5", "-7"] {
        match dispatch(&mut state, Wake::Sampled(String::from(value))) {
            Action::Send(Message::Ui(UiMessage::UpdateElements(updates))) => {
                assert_eq!(updates.len(), 1);
                mirror.apply_updates(&updates);
            }
            other => panic!("expected an update, got {:?}", other),
        }
        assert_eq!(&mirror, &state.test_page().get_page().root);
    }
}

#[test]
fn a_dataset_message_changes_nothing_and_sends_nothing() {
    let (mut state, _) = State::init(vec![8]);
    let action = dispatch(&mut state, Wake::Inbound(Some(Message::Dataset)));
    assert_eq!(action, Action::Wait);
    assert_eq!(state.test_page().get_page(), &probe_page(vec![8], "-"));
    assert_eq!(
        dispatch(&mut state, Wake::Sampled(String::from("1"))),
        Action::Send(readout_update("1C"))
    );
}

#[test]
fn every_kind_of_inbound_message_is_ignored() {
    let (mut state, _) = State::init(vec![8]);
    let inbound = vec![
        Message::Peripheral,
        Message::Ui(UiMessage::SetPage(probe_page(vec![9], "other"))),
        Message::Ui(UiMessage::UpdateElements(Vec::new())),
        Message::Ui(UiMessage::Other),
        Message::Dataset,
        Message::Event,
    ];
    for message in inbound {
        assert_eq!(dispatch(&mut state, Wake::Inbound(Some(message))), Action::Wait);
        assert_eq!(state.test_page().get_page(), &probe_page(vec![8], "-"));
    }
}

#[test]
fn msg_handler_leaves_the_state_alone() {
    let (mut state, _) = State::init(vec![2]);
    msg_handler(&mut state, Message::Event);
    msg_handler(&mut state, readout_update("99C"));
    assert_eq!(state.test_page().get_page(), &probe_page(vec![2], "-"));
}

#[test]
fn the_end_of_the_session_ends_the_loop() {
    let (mut state, _) = State::init(Vec::new());
    assert_eq!(dispatch(&mut state, Wake::Inbound(None)), Action::Stop);
    assert_eq!(state.test_page().get_page(), &probe_page(Vec::new(), "-"));
}

#[test]
fn a_failed_sample_is_skipped() {
    let (mut state, _) = State::init(vec![3]);
    dispatch(&mut state, Wake::Sampled(String::from("20")));
    assert_eq!(dispatch(&mut state, Wake::SampleFailed), Action::Wait);
    assert_eq!(state.test_page().get_page(), &probe_page(vec![3], "20C"));
    assert_eq!(
        dispatch(&mut state, Wake::Sampled(String::from("21"))),
        Action::Send(readout_update("21C"))
    );
}
