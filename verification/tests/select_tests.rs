use ledger_tui::select::{SelectableList, W};

fn list_of(n: usize) -> SelectableList<i32> {
    let items: Vec<i32> = (0..n as i32).collect();
    SelectableList::new(items)
}

#[test]
fn next_full_cycle_returns_to_start() {
    for n in 1..6usize {
        for start in 0..n {
            let mut list = list_of(n).index(start);
            for _ in 0..n {
                list = list.next(n);
            }
            assert_eq!(list.cursor(), Some(start));
        }
    }
}

#[test]
fn prev_full_cycle_returns_to_start() {
    for n in 1..6usize {
        for start in 0..n {
            let mut list = list_of(n).index(start);
            for _ in 0..n {
                list = list.prev(n);
            }
            assert_eq!(list.cursor(), Some(start));
        }
    }
}

#[test]
fn next_then_prev_is_identity_on_selection() {
    for n in 1..6usize {
        for start in 0..n {
            let list = list_of(n).index(start);
            let after = list.next(n).prev(n);
            assert_eq!(after.cursor(), Some(start));
            let list = list_of(n).index(start);
            let after = list.prev(n).next(n);
            assert_eq!(after.cursor(), Some(start));
        }
    }
}

#[test]
fn unset_cursor_moves_to_first_item() {
    let list = list_of(4);
    assert_eq!(list.cursor(), None);
    let list = list.next(4);
    assert_eq!(list.cursor(), Some(0));
    let list = list_of(4).prev(4);
    assert_eq!(list.cursor(), Some(0));
}

#[test]
fn empty_list_keeps_cursor_unset() {
    let list = list_of(0);
    let list = list.next(0);
    assert_eq!(list.cursor(), None);
    let list = list.prev(0);
    assert_eq!(list.cursor(), None);
    assert_eq!(list.len(), 0);
}

#[test]
fn next_wraps_at_the_end() {
    let list = list_of(3).index(2).next(3);
    assert_eq!(list.cursor(), Some(0));
}

#[test]
fn prev_wraps_at_the_start() {
    let list = list_of(3).index(0).prev(3);
    assert_eq!(list.cursor(), Some(2));
}

#[test]
fn wrapped_cursor_next_and_prev() {
    let mut w = W(Some(1usize));
    assert_eq!(w.next(3), Some(2));
    assert_eq!(w.prev(3), Some(0));
    let mut w = W(None);
    assert_eq!(w.next(3), Some(0));
    let mut w = W(None);
    assert_eq!(w.prev(3), Some(0));
    let mut w = W(None);
    assert_eq!(w.next(0), None);
    let mut w = W(None);
    assert_eq!(w.prev(0), None);
}

#[test]
fn title_and_items_are_kept() {
    let list = list_of(2).title("Things");
    assert_eq!(list.title_str().map(|s| s.as_str()), Some("Things"));
    assert_eq!(list.items(), &vec![0, 1]);
    assert_eq!(list.len(), 2);
}
