use shiroa::interner::{InternId, InternQuery, SpanInternerImpl};

#[test]
fn intern_then_resolve_found() {
    let mut it = SpanInternerImpl::new();
    let id = it.intern(42);
    assert!(matches!(it.span(id), InternQuery::Found(42)));
}

#[test]
fn intern_dedup_same_generation() {
    let mut it = SpanInternerImpl::new();
    let a = it.intern(7);
    let b = it.intern(7);
    assert_eq!(a.to_u64(), b.to_u64());
    let c = it.intern(8);
    assert_ne!(a.to_u64(), c.to_u64());
}

#[test]
fn generational_safety_window() {
    // An id stays resolvable for 29 further collections and answers
    // UseAfterFree from the 30th on, never a wrong location.
    let mut it = SpanInternerImpl::new();
    let id = it.intern(99);
    for _ in 0..29 {
        it.reset();
        assert!(matches!(it.span(id), InternQuery::Found(99)));
    }
    it.reset();
    assert!(matches!(it.span(id), InternQuery::UseAfterFree));
}

#[test]
fn resolve_out_of_range_is_not_found() {
    let it = SpanInternerImpl::new();
    let id = InternId::new(1, 5);
    assert!(matches!(it.span(id), InternQuery::NotFound));
}

#[test]
fn freed_slot_is_not_found() {
    let mut it = SpanInternerImpl::new();
    let id = it.intern(1);
    for _ in 0..30 {
        it.reset();
    }
    // A forged id pointing a young generation at the freed slot answers
    // NotFound rather than a stale location.
    let forged = InternId::new(31, id.to_u64() as usize & 0xffff_ffff);
    assert!(matches!(it.span(forged), InternQuery::NotFound));
}

#[test]
fn hex_round_trip() {
    let id = InternId::new(3, 7);
    let hex = id.to_hex();
    assert_eq!(hex, "300000007");
    let back = InternId::from_hex(&hex);
    assert_eq!(back.to_u64(), id.to_u64());
}

#[test]
fn hex_of_small_id() {
    let id = InternId::from_u64(255);
    assert_eq!(id.to_hex(), "ff");
    assert_eq!(InternId::from_u64(0).to_hex(), "0");
}

#[test]
fn from_hex_uppercase() {
    let id = InternId::from_hex("FF");
    assert_eq!(id.to_u64(), 255);
}

#[test]
fn span_by_str_round_trip() {
    let mut it = SpanInternerImpl::new();
    let id = it.intern(1234);
    let hex = id.to_hex();
    assert!(matches!(it.span_by_str(&hex), InternQuery::Found(1234)));
}

#[test]
fn u64_round_trip() {
    let id = InternId::new(11, 22);
    let packed = id.to_u64();
    let back = InternId::from_u64(packed);
    assert_eq!(back.to_u64(), packed);
    assert_eq!(packed, (11u64 << 32) | 22);
}
