use monadeck_overlay::photos::{
    clamp_idx, free_slot, fresh_count, is_link, truncate, Pager, WristQueue, WristRequests, MAX_PENDING,
};

fn req(open: bool, dismiss: bool, older: bool, newer: bool) -> WristRequests {
    WristRequests { open, dismiss, older, newer }
}

#[test]
fn the_wrist_queue_keeps_the_newest_shots() {
    let mut q: WristQueue<u32> = WristQueue::new();
    for i in 0..10u32 {
        q.push_front(format!("/p/{i}.png"), i);
    }
    assert_eq!(q.items.len(), MAX_PENDING);
    assert_eq!(q.items[0].1, 9);
    assert_eq!(q.items[MAX_PENDING - 1].1, 2);
    q.apply(req(false, false, true, false));
    q.apply(req(false, false, true, false));
    assert_eq!(q.idx, 2);
    let opened = q.apply(req(true, false, false, true));
    assert_eq!(opened.map(|o| o.1), Some(8));
    assert_eq!(q.idx, 1);
    assert_eq!(q.items.len(), MAX_PENDING - 1);
    q.apply(req(false, true, false, false));
    assert_eq!(q.items.iter().map(|x| x.1).collect::<Vec<_>>(), vec![9, 6, 5, 4, 3, 2]);
    assert_eq!(WristRequests::default(), req(false, false, false, false));
}

#[test]
fn gallery_pages_hold_twelve() {
    let mut p = Pager::new();
    assert_eq!(p.pages(), 1);
    p.rescan(30);
    assert_eq!(p.pages(), 3);
    assert!(p.step(false, true));
    assert!(p.step(false, true));
    assert!(!p.step(false, true));
    assert_eq!(p.page, 2);
    assert_eq!(p.range(), (24, 30));
    assert_eq!(p.index_of(5), Some(29));
    assert_eq!(p.index_of(6), None);
    p.rescan(13);
    assert_eq!(p.page, 1);
    assert_eq!(p.range(), (12, 13));
    p.rescan(0);
    assert_eq!((p.page, p.range()), (0, (0, 0)));
}

#[test]
fn windows_links_and_labels() {
    assert_eq!(free_slot(&vec![true, false, false]), 1);
    assert_eq!(free_slot(&vec![true, true, true]), 0);
    assert!(is_link("https://example.org") && is_link("http://x") && !is_link("ftp://x") && !is_link("hello"));
    assert_eq!(truncate("abcdef", 4), "abcd…");
    assert_eq!(truncate("abcd", 4), "abcd");
    assert_eq!(clamp_idx(5, 3), 2);
    assert_eq!(clamp_idx(0, 0), 0);
    assert_eq!(fresh_count(&vec![30, 20, 10], Some(15)), 2);
    assert_eq!(fresh_count(&vec![30, 20, 10], None), 3);
    assert_eq!(fresh_count(&vec![30, 20, 10], Some(30)), 0);
}

#[test]
fn dropping_a_path_removes_every_copy_and_keeps_the_index_in_range() {
    let mut q: WristQueue<u32> = WristQueue::new();
    q.push_front("/p/a.png".to_string(), 1);
    q.push_front("/p/b.png".to_string(), 2);
    q.push_front("/p/a.png".to_string(), 3);
    q.push_front("/p/c.png".to_string(), 4);
    q.apply(req(false, false, true, false));
    q.apply(req(false, false, true, false));
    q.apply(req(false, false, true, false));
    assert_eq!(q.idx, 3);
    q.drop_path("/p/a.png");
    assert_eq!(q.items, vec![("/p/c.png".to_string(), 4), ("/p/b.png".to_string(), 2)]);
    assert_eq!(q.idx, 1);
    q.drop_path("/p/missing.png");
    assert_eq!(q.items.len(), 2);
}
