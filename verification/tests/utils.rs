use lvmt_state::utils::{AccessMode, Read, WrappedCreateFrom, Write};

struct Doubled;

impl WrappedCreateFrom<u32, u64> for Doubled {
    fn take(x: u32) -> u64 {
        x as u64 * 2
    }
}

#[test]
fn reading_is_read_only() {
    assert!(Read::READ_ONLY);
    assert!(!Write::READ_ONLY);
}

#[test]
fn take_from_replaces_the_value() {
    let mut dest = 7;
    Doubled::take_from(&mut dest, 21);
    assert_eq!(dest, 42);
}
