use csv_pager::pager::{is_quit_token, page_height_for, simulate_session, Page, PageCursor, ViewError};
use csv_pager::termsize::{size_from_query, Size};

fn probed_height(rows: u16) -> usize {
    page_height_for(size_from_query(true, 0, rows, 80)).unwrap()
}

#[test]
fn pages_of_twenty_five_rows_in_a_ten_row_window() {
    let h = probed_height(10);
    assert_eq!(h, 9);
    let mut cur = PageCursor::new(h);
    assert_eq!(cur.next_page(25), Some(Page { start: 0, end: 9, prompt: true }));
    cur.respond("\n");
    assert_eq!(cur.next_page(25), Some(Page { start: 9, end: 18, prompt: true }));
    cur.respond("");
    assert_eq!(cur.next_page(25), Some(Page { start: 18, end: 25, prompt: false }));
    assert!(cur.finished);
    assert_eq!(cur.next_page(25), None);
}

#[test]
fn simulated_session_of_twenty_five_rows() {
    let (rows, prompts) = simulate_session(25, 9, &vec![false, false]);
    assert_eq!(rows, (0..25).collect::<Vec<usize>>());
    assert_eq!(prompts, 2);
}

#[test]
fn quit_at_first_prompt_prints_first_page_only() {
    let (rows, prompts) = simulate_session(25, 9, &vec![true]);
    assert_eq!(rows, (0..9).collect::<Vec<usize>>());
    assert_eq!(prompts, 1);

    let mut cur = PageCursor::new(9);
    assert_eq!(cur.next_page(25), Some(Page { start: 0, end: 9, prompt: true }));
    cur.respond("q\n");
    assert!(cur.finished);
    assert_eq!(cur.next_page(25), None);
    assert_eq!(cur.position, 9);
}

#[test]
fn empty_source_prints_nothing_and_never_prompts() {
    let (rows, prompts) = simulate_session(0, 9, &vec![]);
    assert!(rows.is_empty());
    assert_eq!(prompts, 0);
    let mut cur = PageCursor::new(9);
    assert_eq!(cur.next_page(0), None);
    assert!(cur.finished);
}

#[test]
fn quit_free_sessions_print_every_row_once_in_order() {
    for n in 0..40usize {
        for h in 1..12usize {
            let (rows, _) = simulate_session(n, h, &vec![]);
            assert_eq!(rows, (0..n).collect::<Vec<usize>>());
        }
    }
}

#[test]
fn quit_at_a_later_prompt_stops_after_that_page() {
    let (rows, prompts) = simulate_session(25, 4, &vec![false, false, true, false]);
    assert_eq!(rows, (0..12).collect::<Vec<usize>>());
    assert_eq!(prompts, 3);
    let (rows, prompts) = simulate_session(10, 4, &vec![false, false, true]);
    assert_eq!(rows, (0..10).collect::<Vec<usize>>());
    assert_eq!(prompts, 2);
}

#[test]
fn exact_multiple_of_the_page_height_has_no_trailing_prompt() {
    let (rows, prompts) = simulate_session(18, 9, &vec![]);
    assert_eq!(rows.len(), 18);
    assert_eq!(prompts, 1);
}

#[test]
fn page_height_of_one_row() {
    let (rows, prompts) = simulate_session(3, 1, &vec![]);
    assert_eq!(rows, vec![0, 1, 2]);
    assert_eq!(prompts, 2);
}

#[test]
fn replies_around_the_quit_token() {
    let mut cur = PageCursor::new(3);
    cur.respond("Q");
    assert!(!cur.finished);
    cur.respond("quit");
    assert!(!cur.finished);
    cur.respond("  q \t\n");
    assert!(cur.finished);
    assert!(is_quit_token("q"));
    assert!(!is_quit_token(" q"));
    assert!(!is_quit_token(""));
    assert!(!is_quit_token("qq"));
}

#[test]
fn read_failure_ends_the_session() {
    let mut cur = PageCursor::new(2);
    assert_eq!(cur.next_page(5), Some(Page { start: 0, end: 2, prompt: true }));
    cur.quit();
    assert_eq!(cur.next_page(5), None);
}

#[test]
fn probe_outcomes() {
    assert_eq!(size_from_query(false, 0, 24, 80), None);
    assert_eq!(size_from_query(true, -1, 24, 80), None);
    assert_eq!(size_from_query(true, 0, 0, 80), None);
    assert_eq!(size_from_query(true, 0, 24, 0), None);
    assert_eq!(size_from_query(true, 0, 24, 80), Some(Size { rows: 24, cols: 80 }));
}

#[test]
fn page_height_errors() {
    assert_eq!(page_height_for(None), Err(ViewError::TerminalUnavailable));
    assert_eq!(page_height_for(Some(Size { rows: 1, cols: 80 })), Err(ViewError::TerminalTooSmall));
    assert_eq!(page_height_for(Some(Size { rows: 2, cols: 80 })), Ok(1));
    assert_eq!(page_height_for(Some(Size { rows: 65535, cols: 80 })), Ok(65534));
}
