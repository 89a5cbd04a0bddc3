//! The queue of pending work.

use simbad_resolver::{PendingRow, PendingState, QueueError, QueueTables};

fn ids(queue: &QueueTables, n: usize) -> Vec<String> {
    queue.claim_pending(n).unwrap().into_iter().map(|item| item.id).collect()
}

#[test]
fn items_are_handed_out_in_the_order_of_arrival() {
    let mut queue = QueueTables::new();
    queue.enqueue("z", "M 1");
    queue.enqueue("a", "M 2");
    queue.enqueue("m", "M 3");
    assert_eq!(ids(&queue, 10), vec!["z", "a", "m"]);
    assert_eq!(ids(&queue, 2), vec!["z", "a"]);
    assert!(ids(&queue, 0).is_empty());
    assert_eq!(queue.pending_count(), 3, "claiming takes nothing out");
}

#[test]
fn enqueueing_twice_keeps_the_first() {
    let mut queue = QueueTables::new();
    queue.enqueue("a", "M 1");
    queue.enqueue("a", "M 2");
    let item = queue.get("a").unwrap().unwrap();
    assert_eq!(item.query, "M 1");
    assert_eq!(item.state, PendingState::Pending);
    assert_eq!(item.attempts, 0);
    assert_eq!(item.target_id, None);
    assert_eq!(queue.next_seq(), Some(1));
}

#[test]
fn outcomes_change_one_item() {
    let mut queue = QueueTables::new();
    for id in ["a", "b", "c"] {
        queue.enqueue(id, "M 1");
    }
    queue.mark_resolved("a", 0x0123_4567_89ab_cdef_0123_4567_89ab_cdef);
    queue.mark_unresolved("b");
    queue.mark_unresolved("b");
    let a = queue.get("a").unwrap().unwrap();
    assert_eq!(a.state, PendingState::Resolved);
    assert_eq!(a.target_id, Some(0x0123_4567_89ab_cdef_0123_4567_89ab_cdef));
    assert_eq!(a.attempts, 0);
    let b = queue.get("b").unwrap().unwrap();
    assert_eq!(b.state, PendingState::Unresolved);
    assert_eq!(b.attempts, 2);
    assert_eq!(ids(&queue, 5), vec!["c"]);
    queue.release("b");
    let b = queue.get("b").unwrap().unwrap();
    assert_eq!(b.state, PendingState::Pending);
    assert_eq!(b.attempts, 2, "putting an item back keeps its attempts");
    assert_eq!(ids(&queue, 5), vec!["b", "c"], "and its place");
    assert_eq!(queue.pending_count(), 2);
}

#[test]
fn items_tell_their_history() {
    let mut queue = QueueTables::new();
    queue.mark_unresolved("a");
    assert!(queue.get("a").unwrap().is_none());
    queue.enqueue("a", "M 1");
    queue.mark_unresolved("a");
    queue.release("a");
    queue.mark_resolved("a", 1);
    queue.enqueue("a", "M 2");
    queue.mark_unresolved("a");
    queue.mark_unresolved("b");
    queue.claim_pending(5).unwrap();
    queue.mark_resolved("a", 2);
    queue.release("a");
    let item = queue.get("a").unwrap().unwrap();
    assert_eq!(item.query, "M 1", "the first query");
    assert_eq!(item.attempts, 2, "one for each miss");
    assert_eq!(item.state, PendingState::Pending, "the last outcome");
    assert_eq!(item.target_id, Some(2), "the last target");
    assert!(queue.get("b").unwrap().is_none());
}

#[test]
fn unknown_ids_change_nothing() {
    let mut queue = QueueTables::new();
    queue.mark_resolved("a", 1);
    queue.mark_unresolved("a");
    queue.release("a");
    assert!(queue.get("a").unwrap().is_none());
    assert!(queue.row("a").is_none());
    assert_eq!(queue.pending_count(), 0);
}

#[test]
fn rows_survive_a_reload() {
    let mut queue = QueueTables::new();
    queue.enqueue("a", "M 1");
    queue.enqueue("b", "M 2");
    queue.mark_resolved("a", 7);
    let rows: Vec<PendingRow> =
        ["a", "b"].iter().map(|id| queue.row(id).unwrap()).collect();
    assert_eq!(rows[0].target_id.as_deref(), Some("00000000-0000-0000-0000-000000000007"));
    let mut reloaded = QueueTables::load(rows, queue.next_seq());
    assert_eq!(reloaded.get("a").unwrap(), queue.get("a").unwrap());
    reloaded.enqueue("c", "M 3");
    assert_eq!(ids(&reloaded, 5), vec!["b", "c"]);
}

#[test]
fn unreadable_rows_are_reported() {
    let row = |state: &str, target: Option<&str>| PendingRow {
        id: "a".to_owned(),
        query: "M 1".to_owned(),
        state: state.to_owned(),
        attempts: 0,
        target_id: target.map(str::to_owned),
        seq: 0,
    };
    let bogus = QueueTables::load(vec![row("bogus", None)], Some(1));
    assert!(matches!(bogus.get("a"), Err(QueueError::InvalidState(s)) if s == "bogus"));
    assert!(ids(&bogus, 5).is_empty(), "it does not wait");
    let bad = QueueTables::load(vec![row("pending", Some("nope"))], Some(1));
    assert!(matches!(bad.get("a"), Err(QueueError::InvalidUuid(s, _)) if s == "nope"));
    assert!(matches!(bad.claim_pending(1), Err(QueueError::InvalidUuid(_, _))));
}

#[test]
fn ids_are_read_in_every_form() {
    let texts = [
        "67e55044-10b1-426f-9247-bb680e5fe0c8",
        "67E55044-10B1-426F-9247-BB680E5FE0C8",
        "67e5504410b1426f9247bb680e5fe0c8",
        "{67e55044-10b1-426f-9247-bb680e5fe0c8}",
        "urn:uuid:67e55044-10b1-426f-9247-bb680e5fe0c8",
        "URN:UUID:67e55044-10b1-426f-9247-bb680e5fe0c8",
        "{67e5504410b1426f9247bb680e5fe0c8}",
        "67e55044-10b1-426f-9247-bb680e5fe0cg",
        "67e5504410b1-426f-9247-bb680e5fe0c8-",
        "67e55044-10b1-426f-9247-bb680e5fe0c\u{e9}",
        "urn:uuix:67e55044-10b1-426f-9247-bb680e5fe0c8",
        "",
        "{}",
    ];
    for text in texts {
        let row = PendingRow {
            id: "a".to_owned(),
            query: "M 1".to_owned(),
            state: "resolved".to_owned(),
            attempts: 0,
            target_id: Some(text.to_owned()),
            seq: 0,
        };
        let queue = QueueTables::load(vec![row], Some(1));
        match (queue.get("a"), uuid::Uuid::parse_str(text)) {
            (Ok(item), Ok(id)) => {
                assert_eq!(item.unwrap().target_id, Some(id.as_u128()), "{text}");
            }
            (Err(QueueError::InvalidUuid(shown, e)), Err(expected)) => {
                assert_eq!(shown, text);
                assert_eq!(e, expected);
            }
            (got, expected) => panic!("{text}: {got:?} {expected:?}"),
        }
    }
}
