use wikicorpus::dispatch::{advance, usable, Action, Event, Lanes, Worker, WORKERS};
use wikicorpus::page::RawPage;

fn raw() -> RawPage {
    RawPage {
        page_id: 45,
        revision_id: 550,
        timestamp: 980043141000,
        title: "'''Title'''".to_string(),
        body: "Body text".to_string(),
    }
}

#[test]
fn lanes_take_pages_in_turn() {
    let mut lanes = Lanes::new(3).unwrap();
    let taken: Vec<usize> = (0..7).map(|_| lanes.assign()).collect();
    assert_eq!(taken, vec![0, 1, 2, 0, 1, 2, 0]);
    assert!(Lanes::new(0).is_none());
    let mut one = Lanes::new(1).unwrap();
    assert_eq!((one.assign(), one.assign()), (0, 0));
}

#[test]
fn twenty_workers_by_default() {
    assert_eq!(WORKERS, 20);
    let mut lanes = Lanes::new(WORKERS).unwrap();
    for k in 0..45 {
        assert_eq!(lanes.assign(), k % 20);
    }
}

#[test]
fn a_page_is_rendered_in_two_stages_and_appended() {
    let (worker, action) = advance(Worker::Idle, Event::Page(raw()), false);
    assert!(matches!(&action, Action::Render(markup) if markup == "'''Title'''"));
    assert!(matches!(&worker, Worker::Title(_)));
    let (worker, action) = advance(worker, Event::Rendered(Some("<p><b>Title</b></p>".to_string())), false);
    assert!(matches!(&action, Action::Render(markup) if markup == "Body text"));
    assert!(matches!(&worker, Worker::Body(_, title) if title == "Title"));
    let (worker, action) = advance(worker, Event::Rendered(Some("<p>Body  text</p>".to_string())), false);
    assert!(matches!(&worker, Worker::Idle));
    match action {
        Action::Append(page) => {
            assert_eq!(page.page_id, 45);
            assert_eq!(page.revision_id, 550);
            assert_eq!(page.timestamp, 980043141000);
            assert_eq!(page.title, "Title");
            assert_eq!(page.content, "Body text");
        }
        other => panic!("not appended: {:?}", other),
    }
}

#[test]
fn a_failed_rendering_drops_the_page() {
    let (worker, _) = advance(Worker::Idle, Event::Page(raw()), false);
    let (worker, action) = advance(worker, Event::Rendered(None), false);
    assert!(matches!(action, Action::Drop));
    assert!(matches!(worker, Worker::Idle));
    let (worker, _) = advance(Worker::Idle, Event::Page(raw()), false);
    let (worker, _) = advance(worker, Event::Rendered(Some("<p>T</p>".to_string())), false);
    let (worker, action) = advance(worker, Event::Rendered(None), false);
    assert!(matches!(action, Action::Drop));
    assert!(matches!(worker, Worker::Idle));
}

#[test]
fn empty_or_malformed_text_drops_the_page() {
    let (worker, _) = advance(Worker::Idle, Event::Page(raw()), false);
    let (_, action) = advance(worker, Event::Rendered(Some("<div>no paragraph</div>".to_string())), false);
    assert!(matches!(action, Action::Drop));
    let (worker, _) = advance(Worker::Idle, Event::Page(raw()), false);
    let (worker, _) = advance(worker, Event::Rendered(Some("<p>T</p>".to_string())), false);
    let (_, action) = advance(worker, Event::Rendered(Some("<p>broken</q>".to_string())), false);
    assert!(matches!(action, Action::Drop));
}

#[test]
fn the_strict_filter_applies_to_the_body_only() {
    let (worker, _) = advance(Worker::Idle, Event::Page(raw()), true);
    let (worker, action) = advance(worker, Event::Rendered(Some("<p>短</p>".to_string())), true);
    assert!(matches!(action, Action::Render(_)));
    let (_, action) = advance(worker, Event::Rendered(Some("<p>短</p>".to_string())), true);
    assert!(matches!(action, Action::Drop));
}

#[test]
fn an_answer_without_a_page_changes_nothing() {
    let (worker, action) = advance(Worker::Idle, Event::Rendered(Some("<p>x</p>".to_string())), false);
    assert!(matches!(action, Action::Wait));
    assert!(matches!(worker, Worker::Idle));
}

#[test]
fn usable_text_is_normalized_and_not_empty() {
    assert_eq!(usable(Some("<p>a  b</p>".to_string()), false), Some("a b".to_string()));
    assert_eq!(usable(Some("".to_string()), false), None);
    assert_eq!(usable(None, false), None);
}
