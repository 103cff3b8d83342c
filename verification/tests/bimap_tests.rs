use gitfs::bimap::Bimap;
use gitfs::oid::ObjectId;

fn id(bytes: &[u8]) -> ObjectId {
    ObjectId::new(bytes.to_vec())
}

#[test]
fn intern_is_idempotent() {
    let mut b = Bimap::new();
    let a = id(&[1, 2, 3]);
    let first = b.get_reverse_or_alloc(&a);
    let second = b.get_reverse_or_alloc(&a);
    assert_eq!(first, 1);
    assert_eq!(second, first);
    assert_eq!(b.len(), 1);
}

#[test]
fn intern_is_idempotent_among_others() {
    let mut b = Bimap::new();
    let x = id(&[9]);
    let y = id(&[8, 8]);
    let z = id(&[7, 7, 7]);
    let kx = b.get_reverse_or_alloc(&x);
    let ky = b.get_reverse_or_alloc(&y);
    let kz = b.get_reverse_or_alloc(&z);
    assert_eq!((kx, ky, kz), (1, 2, 3));
    assert_eq!(b.get_reverse_or_alloc(&y), ky);
    assert_eq!(b.get_reverse_or_alloc(&x), kx);
    assert_eq!(b.get_reverse_or_alloc(&z), kz);
    assert_eq!(b.len(), 3);
}

#[test]
fn resolve_then_intern_roundtrips() {
    let mut b = Bimap::new();
    b.get_reverse_or_alloc(&id(&[10]));
    b.get_reverse_or_alloc(&id(&[20, 21]));
    b.get_reverse_or_alloc(&id(&[30, 31, 32]));
    for ino in 1u64..=3 {
        let o = b.get_forward(ino).expect("inode should be bound");
        let back = b.get_reverse_or_alloc(&o);
        assert_eq!(back, ino);
    }
    assert_eq!(b.len(), 3);
}

#[test]
fn root_binding_is_stable() {
    let mut b = Bimap::new();
    let root = id(&[0xaa; 20]);
    assert_eq!(b.get_reverse_or_alloc(&root), 1);
    for i in 0u8..40 {
        b.get_reverse_or_alloc(&id(&[i, i + 1]));
    }
    let bound = b.get_forward(1).expect("root should stay bound");
    assert_eq!(bound.bytes, vec![0xaa; 20]);
}

#[test]
fn unknown_inodes_resolve_to_nothing() {
    let mut b = Bimap::new();
    assert!(b.get_forward(0).is_none());
    assert!(b.get_forward(1).is_none());
    b.get_reverse_or_alloc(&id(&[5]));
    assert!(b.get_forward(1).is_some());
    assert!(b.get_forward(2).is_none());
    assert!(b.get_forward(9999).is_none());
}

#[test]
fn unknown_identifier_has_no_reverse_binding() {
    let mut b = Bimap::new();
    b.get_reverse_or_alloc(&id(&[1]));
    assert_eq!(b.get_reverse(&id(&[1])), Some(1));
    assert_eq!(b.get_reverse(&id(&[2])), None);
    assert_eq!(b.get_reverse(&id(&[])), None);
}

#[test]
fn identifier_equality_is_byte_for_byte() {
    assert!(id(&[1, 2]).is_same(&id(&[1, 2])));
    assert!(!id(&[1, 2]).is_same(&id(&[1, 3])));
    assert!(!id(&[1, 2]).is_same(&id(&[1, 2, 0])));
    assert!(id(&[]).is_same(&id(&[])));
}
