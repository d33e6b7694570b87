use rollup_events::window::{END_BLOCK_OFFSET, next_block_range};

#[test]
fn no_new_blocks_when_cursor_at_safe_head() {
    let head = END_BLOCK_OFFSET + 100;
    assert_eq!(next_block_range(100, head, 10), None);
}

#[test]
fn range_capped_by_step() {
    let head = END_BLOCK_OFFSET + 1000;
    // safe head is 1000; the step keeps the window small
    assert_eq!(next_block_range(100, head, 10), Some((101, 111)));
}

#[test]
fn range_capped_by_safe_head() {
    let head = END_BLOCK_OFFSET + 50;
    // safe head is 50, below the step-sized cap
    assert_eq!(next_block_range(0, head, 100), Some((1, 50)));
}

#[test]
fn range_starts_right_after_cursor() {
    let head = END_BLOCK_OFFSET + 7;
    assert_eq!(next_block_range(5, head, 1), Some((6, 7)));
}
