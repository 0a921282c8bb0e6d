use flash_lso::amf3::element_cache::ElementCache;
use flash_lso::amf3::length::Length;

#[test]
fn store_then_found() {
    let mut c: ElementCache<Vec<u8>> = ElementCache::new();
    assert!(!c.has(&vec![1, 2]));
    c.store(vec![1, 2]);
    assert!(c.has(&vec![1, 2]));
    assert_eq!(c.get_index(vec![1, 2]), Some(0));
    c.store(vec![3]);
    c.store(vec![1, 2]);
    assert_eq!(c.get_index(vec![3]), Some(1));
    assert_eq!(c.get_element(1), Some(vec![3]));
    assert_eq!(c.get_element(2), None);
}

#[test]
fn to_length_store_gives_size_then_reference() {
    let mut c: ElementCache<Vec<u8>> = ElementCache::default();
    c.store_slice(&[9]);
    assert_eq!(c.to_length_store(vec![5, 5], 7), Length::Size(7));
    assert_eq!(c.to_length_store(vec![5, 5], 7), Length::Reference(1));
    assert_eq!(c.to_length(vec![9], 1), Length::Reference(0));
    assert_eq!(c.get_slice_index(&[5, 5]), Some(1));
    assert_eq!(c.get_slice_index(&[6]), None);
}

#[test]
fn occupy_always_adds() {
    let mut c: ElementCache<Vec<u8>> = ElementCache::new();
    assert_eq!(c.occupy(vec![1]), 0);
    assert_eq!(c.occupy(vec![1]), 1);
    assert_eq!(c.get_index(vec![1]), Some(0));
    assert_eq!(c.get_element(1), Some(vec![1]));
}
