use oxtub::buffer::bpm::{BufferPoolError, BufferPoolState, FrameMeta};
use oxtub::buffer::page::{Page, DEFAULT_PAGE_SIZE};

/// Loads `page_id` the way the buffer pool does: a pinned frame if it is
/// loaded, else a free or evicted frame. Returns the frame and the page to
/// write back first, if any.
fn fetch(state: &mut BufferPoolState, page_id: usize) -> Result<(usize, Option<usize>), BufferPoolError> {
    if let Some(frame) = state.pin_loaded_page(page_id) {
        return Ok((frame, None));
    }
    let (frame, write_back) = state.acquire_frame()?;
    state.publish_loaded_page(page_id, frame);
    Ok((frame, write_back))
}

#[test]
fn new_pool_hands_out_frames_from_zero_and_page_ids_from_one() {
    let mut state = BufferPoolState::new(3);
    assert_eq!(state.size(), 3);
    assert_eq!(state.free_list, vec![2, 1, 0]);
    assert_eq!(state.new_page(), 1);
    assert_eq!(state.new_page(), 2);
    let (frame, write_back) = state.acquire_frame().unwrap();
    assert_eq!((frame, write_back), (0, None));
}

#[test]
fn page_pin_easy() {
    let mut state = BufferPoolState::new(2);
    let page0 = state.new_page();
    let page1 = state.new_page();

    let (f0, _) = fetch(&mut state, page0).unwrap();
    let (f1, _) = fetch(&mut state, page1).unwrap();
    assert_eq!(state.pin_count(page0), Some(1));
    assert_eq!(state.pin_count(page1), Some(1));

    // Both frames are pinned: nothing can be loaded.
    let temp = state.new_page();
    assert_eq!(fetch(&mut state, temp), Err(BufferPoolError::NoAvailableFrame));
    assert_eq!(state.pin_count(temp), None);

    // Writers leave their pages dirty when they let go.
    state.unpin(f0, true);
    assert_eq!(state.pin_count(page0), Some(0));
    state.unpin(f1, true);
    assert_eq!(state.pin_count(page1), Some(0));

    // Now the least recently used page goes, and must be written back.
    let temp = state.new_page();
    let (frame, write_back) = fetch(&mut state, temp).unwrap();
    assert_eq!(frame, f0);
    assert_eq!(write_back, Some(page0));
    assert_eq!(state.pin_count(page0), None);
    assert_eq!(state.pin_count(temp), Some(1));
}

#[test]
fn pinning_a_loaded_page_counts_users() {
    let mut state = BufferPoolState::new(1);
    let page = state.new_page();
    let (frame, _) = fetch(&mut state, page).unwrap();
    let (again, write_back) = fetch(&mut state, page).unwrap();
    assert_eq!(again, frame);
    assert_eq!(write_back, None);
    assert_eq!(state.pin_count(page), Some(2));
    state.unpin(frame, false);
    assert_eq!(state.pin_count(page), Some(1));
    state.unpin(frame, false);
    assert_eq!(state.pin_count(page), Some(0));
    assert_eq!(state.frame_metas[frame], FrameMeta { page_id: Some(page), pin_count: 0, is_dirty: false });
}

#[test]
fn clean_victims_need_no_write_back() {
    let mut state = BufferPoolState::new(1);
    let page0 = state.new_page();
    let page1 = state.new_page();
    let (frame, _) = fetch(&mut state, page0).unwrap();
    state.unpin(frame, false);
    let (frame1, write_back) = fetch(&mut state, page1).unwrap();
    assert_eq!(frame1, frame);
    assert_eq!(write_back, None);
}

#[test]
fn delete_page_refuses_pinned_pages_and_frees_unpinned_ones() {
    let mut state = BufferPoolState::new(2);
    let page = state.new_page();
    let (frame, _) = fetch(&mut state, page).unwrap();
    assert_eq!(state.delete_page(page), Err(BufferPoolError::PagePinned(page)));
    assert_eq!(state.pin_count(page), Some(1));
    state.unpin(frame, true);
    assert_eq!(state.delete_page(page), Ok(()));
    assert_eq!(state.pin_count(page), None);
    assert_eq!(state.free_list, vec![1, frame]);
    assert_eq!(state.frame_metas[frame], FrameMeta { page_id: None, pin_count: 0, is_dirty: false });
    // Deleting a page that is not loaded changes nothing.
    assert_eq!(state.delete_page(page), Ok(()));
    assert_eq!(state.free_list, vec![1, frame]);
}

#[test]
fn failed_write_back_restores_the_victim() {
    let mut state = BufferPoolState::new(1);
    let page0 = state.new_page();
    let (frame, _) = fetch(&mut state, page0).unwrap();
    state.unpin(frame, true);
    let (victim_frame, write_back) = state.acquire_frame().unwrap();
    assert_eq!(write_back, Some(page0));
    assert_eq!(state.pin_count(page0), None);
    state.restore_victim(victim_frame, page0);
    assert_eq!(state.pin_count(page0), Some(0));
    assert_eq!(state.frame_metas[frame], FrameMeta { page_id: Some(page0), pin_count: 0, is_dirty: true });
    // The restored page can be evicted again.
    let (again, write_back) = state.acquire_frame().unwrap();
    assert_eq!((again, write_back), (frame, Some(page0)));
}

#[test]
fn page_starts_zeroed_without_id() {
    let mut page = Page::new();
    assert_eq!(page.page_id(), None);
    assert_eq!(page.data().len(), DEFAULT_PAGE_SIZE);
    assert!(page.data().iter().all(|b| *b == 0));
    page.data_mut()[0] = 7;
    page.set_page_id(Some(3));
    assert_eq!(page.data()[0], 7);
    assert_eq!(page.page_id(), Some(3));
}

#[test]
fn frame_meta_reset_clears_everything() {
    let mut meta = FrameMeta { page_id: Some(4), pin_count: 2, is_dirty: true };
    meta.reset();
    assert_eq!(meta, FrameMeta { page_id: None, pin_count: 0, is_dirty: false });
}

#[test]
fn frames_stay_and_page_ids_grow_across_a_run() {
    let mut state = BufferPoolState::new(2);
    let p1 = state.new_page();
    let (f1, _) = fetch(&mut state, p1).unwrap();
    let p2 = state.new_page();
    let (f2, _) = fetch(&mut state, p2).unwrap();
    assert_eq!(fetch(&mut state, 99), Err(BufferPoolError::NoAvailableFrame));
    state.unpin(f1, true);
    let p3 = state.new_page();
    let (_, write_back) = fetch(&mut state, p3).unwrap();
    assert_eq!(write_back, Some(p1));
    state.unpin(f2, false);
    assert!(state.delete_page(p2).is_ok());
    let p4 = state.new_page();
    assert_eq!((p1, p2, p3, p4), (1, 2, 3, 4));
    assert_eq!(state.size(), 2);
}
