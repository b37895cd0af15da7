use n2t::channel_range::ChannelRange;

#[test]
fn new_range() {
    let r = ChannelRange::new(0, 5);
    assert_eq!((r.start(), r.end()), (0, 5));
    let s = ChannelRange::new(5, 5);
    assert_eq!((s.start(), s.end()), (5, 5));
    assert_eq!(ChannelRange::new(0, 5), ChannelRange::new(0, 5));
}

#[test]
fn range_size() {
    assert_eq!(ChannelRange::new(0, 5).size(), 6);
    assert_eq!(ChannelRange::new(5, 5).size(), 1);
}

#[test]
fn access_range_bounds() {
    let mut range = ChannelRange::new(0, 5);
    assert_eq!(range.start(), 0);
    assert_eq!(range.end(), 5);
    range.set_start(4);
    range.set_end(6);
    assert_eq!(range, ChannelRange::new(4, 6));
    assert_eq!(range.start(), 4);
    assert_eq!(range, ChannelRange::new(4, 6));
    assert_eq!(range.end(), 6);
}

#[test]
fn as_usize_range() {
    assert_eq!(ChannelRange::new(0, 5).as_range(), 0..=5);
    assert_eq!(ChannelRange::new(5, 5).as_range(), 5..=5);
}

#[test]
fn full_width_range() {
    assert_eq!(ChannelRange::new(0, u16::MAX).size(), 65536);
}

#[test]
fn from_bounds_checks() {
    assert_eq!(ChannelRange::from_bounds(2, 7), Some(ChannelRange::new(2, 7)));
    assert_eq!(ChannelRange::from_bounds(7, 2), None);
    assert_eq!(ChannelRange::from_bounds(0, 70000), None);
}
