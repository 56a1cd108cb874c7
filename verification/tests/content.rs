use gpu_layout::content::{ContentAdapter, OwnedBuffer};

fn adapter() -> ContentAdapter {
    ContentAdapter::new(4, 4).unwrap()
}

#[test]
fn size_law() {
    let a = adapter();
    assert_eq!(a.element_count(4), Some(0));
    assert_eq!(a.element_count(20), Some(4));
    assert_eq!(a.is_size_suitable(18), false);
    assert_eq!(a.element_count(18), None);
    assert_eq!(a.is_size_suitable(3), false);
}

#[test]
fn suitable_sizes_hold_at_least_one_element() {
    let a = adapter();
    assert!(!a.is_size_suitable(0));
    assert!(!a.is_size_suitable(4));
    assert!(a.is_size_suitable(8));
    assert!(a.is_size_suitable(20));
    assert!(!a.is_size_suitable(21));
    assert_eq!(a.element_count(3), None);
    assert_eq!(a.element_count(0), None);
    assert_eq!(a.element_count(8), Some(1));
}

#[test]
fn element_count_with_uneven_sizes() {
    let a = ContentAdapter::new(10, 3).unwrap();
    assert_eq!(a.get_fixed_size(), 10);
    assert_eq!(a.get_stride(), 3);
    assert_eq!(a.element_count(10), Some(0));
    assert_eq!(a.element_count(11), None);
    assert_eq!(a.element_count(12), None);
    assert_eq!(a.element_count(13), Some(1));
    assert_eq!(a.element_count(40), Some(10));
    assert_eq!(a.element_count(usize::MAX), None);
    assert_eq!(a.element_count(usize::MAX - 2), Some((usize::MAX - 12) / 3));
}

#[test]
fn headless_type() {
    let a = ContentAdapter::new(0, 4).unwrap();
    assert_eq!(a.element_count(0), Some(0));
    assert!(!a.is_size_suitable(0));
    assert!(a.is_size_suitable(4));
    assert_eq!(a.element_count(12), Some(3));
}

#[test]
fn no_adapter_for_a_zero_stride() {
    assert_eq!(ContentAdapter::new(4, 0), None);
    assert!(ContentAdapter::new(0, 1).is_some());
}

#[test]
fn read_hands_init_a_zeroed_view() {
    let a = adapter();
    assert!(a.is_size_suitable(12));
    let result: Result<OwnedBuffer, String> = a.read(12, |buffer| {
        assert_eq!(buffer.size(), 12);
        assert_eq!(buffer.element_count(), 2);
        assert_eq!(buffer.as_bytes(), &[0u8; 12][..]);
        Ok(buffer)
    });
    let buffer = result.unwrap();
    assert_eq!(buffer.into_bytes(), vec![0u8; 12]);
}

#[test]
fn read_returns_what_init_wrote() {
    let a = adapter();
    let result: Result<OwnedBuffer, String> = a.read(12, |buffer| {
        let (buffer, ok) = buffer.write(0, &[1, 2, 3, 4]);
        assert!(ok);
        let at = buffer.element_offset(1).unwrap();
        let (buffer, ok) = buffer.write(at, &[9, 9, 9, 9]);
        assert!(ok);
        Ok(buffer)
    });
    let buffer = result.unwrap();
    assert_eq!(buffer.head(), &[1, 2, 3, 4][..]);
    assert_eq!(buffer.element(0), Some(&[0u8, 0, 0, 0][..]));
    assert_eq!(buffer.element(1), Some(&[9u8, 9, 9, 9][..]));
    assert_eq!(buffer.element(2), None);
    assert_eq!(buffer.as_bytes(), &[1, 2, 3, 4, 0, 0, 0, 0, 9, 9, 9, 9][..]);
}

#[test]
fn read_propagates_the_error_of_init() {
    let a = adapter();
    let result: Result<OwnedBuffer, String> = a.read(8, |_| Err("device lost".to_string()));
    assert_eq!(result, Err("device lost".to_string()));
}

#[test]
fn from_bytes_accepts_head_plus_whole_elements() {
    let a = ContentAdapter::new(2, 3).unwrap();
    let buffer = a.from_bytes(vec![1, 2, 3, 4, 5, 6, 7, 8]).unwrap();
    assert_eq!(buffer.element_count(), 2);
    assert_eq!(buffer.size(), 8);
    assert_eq!(buffer.head(), &[1, 2][..]);
    assert_eq!(buffer.element(0), Some(&[3u8, 4, 5][..]));
    assert_eq!(buffer.element(1), Some(&[6u8, 7, 8][..]));
    assert_eq!(buffer.element_offset(0), Some(2));
    assert_eq!(buffer.element_offset(1), Some(5));
    assert_eq!(buffer.element_offset(2), None);

    assert!(a.from_bytes(vec![1, 2, 3, 4]).is_none());
    assert!(a.from_bytes(vec![1]).is_none());
}

#[test]
fn from_bytes_accepts_a_bare_head() {
    let a = adapter();
    let buffer = a.from_bytes(vec![7, 7, 7, 7]).unwrap();
    assert_eq!(buffer.element_count(), 0);
    assert_eq!(buffer.head(), &[7, 7, 7, 7][..]);
    assert_eq!(buffer.element(0), None);
}

#[test]
fn write_out_of_range_changes_nothing() {
    let a = adapter();
    let buffer = a.from_bytes(vec![1, 2, 3, 4, 5, 6, 7, 8]).unwrap();
    let (buffer, ok) = buffer.write(6, &[0, 0, 0]);
    assert!(!ok);
    assert_eq!(buffer.as_bytes(), &[1, 2, 3, 4, 5, 6, 7, 8][..]);
    let (buffer, ok) = buffer.write(9, &[]);
    assert!(!ok);
    let (buffer, ok) = buffer.write(8, &[]);
    assert!(ok);
    let (buffer, ok) = buffer.write(usize::MAX, &[1]);
    assert!(!ok);
    let (buffer, ok) = buffer.write(6, &[0, 0]);
    assert!(ok);
    assert_eq!(buffer.into_bytes(), vec![1, 2, 3, 4, 5, 6, 0, 0]);
}
