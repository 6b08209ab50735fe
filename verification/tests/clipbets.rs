use clipbet::clipbets::{DispatchError, Event, Pallet};

#[test]
fn clipbets_post_clip_stores_latest() {
    let mut p = Pallet::new();
    assert_eq!(p.info(1), None);
    assert_eq!(p.post_clip(1, b"first".to_vec()), Event::ClipStored { user: 1 });
    assert_eq!(p.info(1), Some(b"first".to_vec()));
    assert_eq!(p.post_clip(1, b"second".to_vec()), Event::ClipStored { user: 1 });
    assert_eq!(p.info(1), Some(b"second".to_vec()));
    assert_eq!(p.info(2), None);
}

#[test]
fn join_all_members_once() {
    let mut p = Pallet::new();
    assert!(!p.is_member(&4));
    assert_eq!(p.join_all_members(4), Ok(Event::NewMember(4)));
    assert!(p.is_member(&4));
    assert_eq!(
        p.join_all_members(4),
        Err(DispatchError::Other("already a member, can't join"))
    );
    assert_eq!(p.all_members(), vec![4]);
}

#[test]
fn members_keep_join_order() {
    let mut p = Pallet::new();
    for who in [3u64, 1, 2] {
        p.join_all_members(who).unwrap();
    }
    assert!(p.join_all_members(1).is_err());
    assert_eq!(p.all_members(), vec![3, 1, 2]);
    assert!(p.is_member(&2));
    assert!(!p.is_member(&5));
}
