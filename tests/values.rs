use sqlite_rs::date::skip_spaces;
use sqlite_rs::errors::SQLiteErr;
use sqlite_rs::global::{is_space, StdType, SQLITE_AFF};

#[test]
fn std_type_numbers() {
    assert_eq!(StdType::from_u8(0), None);
    assert_eq!(StdType::from_u8(1), Some(StdType::Any));
    assert_eq!(StdType::from_u8(4), Some(StdType::Integer));
    assert_eq!(StdType::from_u8(6), Some(StdType::Text));
    assert_eq!(StdType::from_u8(7), None);
    assert_eq!(StdType::from_u8(255), None);
}

#[test]
fn std_type_names() {
    let all = [
        (StdType::Any, "ANY"),
        (StdType::Blob, "BLOB"),
        (StdType::Int, "INT"),
        (StdType::Integer, "INTEGER"),
        (StdType::Real, "REAL"),
        (StdType::Text, "TEXT"),
    ];
    for (t, name) in all {
        assert_eq!(t.name(), name);
        assert_eq!(t.name_len(), name.len());
    }
}

#[test]
fn std_type_affinities() {
    assert_eq!(StdType::Any.affinity(), SQLITE_AFF::NUMERIC);
    assert_eq!(StdType::Blob.affinity(), SQLITE_AFF::BLOB);
    assert_eq!(StdType::Int.affinity(), SQLITE_AFF::INTEGER);
    assert_eq!(StdType::Integer.affinity(), SQLITE_AFF::INTEGER);
    assert_eq!(StdType::Real.affinity(), SQLITE_AFF::REAL);
    assert_eq!(StdType::Text.affinity(), SQLITE_AFF::TEXT);
}

#[test]
fn affinity_codes() {
    assert_eq!(i8::from(SQLITE_AFF::NONE), 0x40);
    assert_eq!(i8::from(SQLITE_AFF::BLOB), b'A' as i8);
    let numeric: i8 = SQLITE_AFF::NUMERIC.into();
    assert_eq!(numeric, b'C' as i8);
    assert_eq!(i8::from(SQLITE_AFF::FLEXNUM), 0x46);
}

#[test]
fn error_codes() {
    assert_eq!(SQLiteErr::Error.code(), 1);
    assert_eq!(SQLiteErr::NoMem.code(), 7);
    assert_eq!(SQLiteErr::Corrupt.code(), 11);
    assert_eq!(SQLiteErr::Warning.code(), 28);
}

#[test]
fn white_space_class() {
    for c in [b' ', b'\t', b'\n', 0x0b, 0x0c, b'\r'] {
        assert!(is_space(c));
    }
    for c in [0u8, 0x08, 0x0e, b'a', b'0', 0xa0, 0xff] {
        assert!(!is_space(c));
    }
}

#[test]
fn skip_spaces_drops_leading_white_space() {
    assert_eq!(skip_spaces(b"  \t12:30"), b"12:30");
    assert_eq!(skip_spaces(b"now "), b"now ");
    assert_eq!(skip_spaces(b"\r\n x"), b"x");
    assert_eq!(skip_spaces(b"   "), b"");
    assert_eq!(skip_spaces(b""), b"");
}
