use markview::fonts::{usable_face, CANDIDATES};

#[test]
fn garbage_is_not_a_font() {
    assert_eq!(usable_face(b"hello, not a font"), None);
    assert_eq!(usable_face(b""), None);
}

#[test]
fn a_broken_collection_has_no_usable_face() {
    let mut data = b"ttcf".to_vec();
    data.extend_from_slice(&[0u8; 64]);
    assert_eq!(usable_face(&data), None);
}

#[test]
fn candidates_cover_three_systems() {
    assert!(CANDIDATES.iter().any(|p| p.starts_with("/System/")));
    assert!(CANDIDATES.iter().any(|p| p.starts_with("/usr/share/")));
    assert!(CANDIDATES.iter().any(|p| p.starts_with("C:/")));
}
