use konster::kmap::KMap;
use konster::kset::KSet;
use konster::kstr::KStr;
use konster::kvec::KVec;

#[test]
fn kvec_push_and_read() {
    let v: KVec<u8, 10> = KVec::new();
    assert!(v.is_empty());
    assert_eq!(v.len(), 0);
    assert!(v.get(0).is_none());
    assert!(v.last().is_none());

    let v = v.push(4).push(5).push(6);
    assert_eq!(v.len(), 3);
    assert!(!v.is_empty());
    assert_eq!(*v.get(0).unwrap(), 4);
    assert_eq!(*v.get(2).unwrap(), 6);
    assert!(v.get(3).is_none());
    assert_eq!(*v.get_unchecked(1), 5);
    assert_eq!(*v.last().unwrap(), 6);
}

#[test]
fn kvec_set_last_and_clear() {
    let v: KVec<u8, 4> = KVec::new().push(1).push(2);
    let v = v.set_last(9);
    assert_eq!(*v.last().unwrap(), 9);
    assert_eq!(*v.get_unchecked(0), 1);

    let v = v.clear();
    assert!(v.is_empty());
    assert!(v.last().is_none());
}

#[test]
fn kstr_push_and_pop() {
    let s: KStr<20> = KStr::new();
    assert!(s.is_empty());
    let s = s.push(4);
    let s = s.push(5);
    assert_eq!(s.len(), 2);
    match s.pop() {
        Some((rest, val)) => {
            assert_eq!(val, 5);
            assert_eq!(*rest.last().unwrap(), 4);
            match rest.pop() {
                Some((rest, val)) => {
                    assert_eq!(val, 4);
                    assert!(rest.pop().is_none());
                }
                None => unreachable!(),
            }
        }
        None => unreachable!(),
    }
}

#[test]
fn kstr_from_str_and_back() {
    let s: KStr<16> = KStr::from_str("abc");
    assert_eq!(s.len(), 3);
    assert_eq!(*s.get(0).unwrap(), b'a');
    assert_eq!(*s.get_unchecked(2), b'c');
    assert!(s.get(3).is_none());
    assert_eq!(*s.last().unwrap(), b'c');
    assert_eq!(s.as_str(), "abc");
}

#[test]
fn kstr_push_str_concatenates() {
    let a: KStr<16> = KStr::from_str("foo");
    let b: KStr<16> = KStr::from_str("bar");
    let joined = a.push_str(&b);
    assert_eq!(joined.as_str(), "foobar");
    assert_eq!(joined.len(), 6);
}

#[test]
fn kstr_parse_usize() {
    let s: KStr<8> = KStr::from_str("7");
    assert_eq!(s.parse_usize(), 7);
    let s: KStr<8> = KStr::from_str("042");
    assert_eq!(s.parse_usize(), 42);
    let s: KStr<8> = KStr::from_str("65536");
    assert_eq!(s.parse_usize(), 65536);
}

#[test]
fn kstr_clear_empties() {
    let s: KStr<8> = KStr::from_str("xyz");
    let s = s.clear();
    assert!(s.is_empty());
    assert_eq!(s.len(), 0);
    assert!(s.last().is_none());
}

#[test]
fn kmap_reads_by_index() {
    let m: KMap<u8, u64, 8> = KMap { vec: KVec::new().push((1, 10)).push((2, 20)) };
    assert_eq!(m.len(), 2);
    assert!(!m.is_empty());
    assert_eq!(*m.get_by_idx(0).unwrap(), 10);
    assert_eq!(*m.get_by_idx(1).unwrap(), 20);
    assert!(m.get_by_idx(2).is_none());
    assert_eq!(*m.get_by_idx_unchecked(1), 20);

    let empty: KMap<u8, u64, 8> = KMap { vec: KVec::new() };
    assert!(empty.is_empty());
    assert!(empty.get_by_idx(0).is_none());
}

#[test]
fn kset_reads_by_index() {
    let s: KSet<u16, 8> = KSet { vec: KVec::new().push(7).push(9) };
    assert_eq!(s.len(), 2);
    assert!(!s.is_empty());
    assert_eq!(*s.get_by_idx(0).unwrap(), 7);
    assert_eq!(*s.get_by_idx(1).unwrap(), 9);
    assert!(s.get_by_idx(2).is_none());
    assert_eq!(*s.get_by_idx_unchecked(0), 7);

    let empty: KSet<u16, 8> = KSet { vec: KVec::new() };
    assert!(empty.is_empty());
}
