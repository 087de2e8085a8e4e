use git_branchless_submit::oid::{parse_oid, write_oid};

#[test]
fn ids_are_read() {
    assert_eq!(
        parse_oid("0123456789abcdef0123456789ABCDEF00000010"),
        Some((0x0123456789abcdef0123456789abcdef, 16))
    );
    assert_eq!(
        parse_oid("ffffffffffffffffffffffffffffffffffffffff"),
        Some((u128::MAX, u32::MAX))
    );
    assert_eq!(parse_oid("0000000000000000000000000000000000000001"), Some((0, 1)));
}

#[test]
fn what_is_no_id_is_not_read() {
    assert_eq!(parse_oid(""), None);
    assert_eq!(parse_oid("0123"), None);
    assert_eq!(parse_oid("0000000000000000000000000000000000000000"), None);
    assert_eq!(parse_oid("000000000000000000000000000000000000000g"), None);
    assert_eq!(parse_oid("g000000000000000000000000000000000000001"), None);
    assert_eq!(parse_oid("00000000000000000000000000000000000000001"), None);
    assert_eq!(parse_oid("é000000000000000000000000000000000000001"), None);
}

#[test]
fn ids_are_written_and_read_back() {
    assert_eq!(write_oid((0, 0x1f)), "000000000000000000000000000000000000001f");
    for oid in [(1, 0), (0, 1), (u128::MAX, 0), (0x1234 << 100, 0xdeadbeef)] {
        assert_eq!(parse_oid(&write_oid(oid)), Some(oid));
    }
}
