use stream_cipher::context::{CipherContext, Step};
use stream_cipher::engine::{Direction, KEY_LEN};
use stream_cipher::error::CipherError;
use stream_cipher::table::{ContextTable, MAX_SLOTS, NO_HANDLE, RADIX};

#[test]
fn create_gives_a_nonzero_handle_for_either_direction() {
    let mut table = ContextTable::new();
    let key = [7u8; 16];
    let sending = table.create(&key, Direction::Encrypt).unwrap();
    let receiving = table.create(&key, Direction::Decrypt).unwrap();
    assert_ne!(sending, NO_HANDLE);
    assert_ne!(receiving, NO_HANDLE);
    assert_ne!(sending, receiving);
    assert!(table.is_live(sending));
    assert!(table.is_live(receiving));
    assert!(table.destroy(sending));
    assert!(table.destroy(receiving));
}

#[test]
fn first_handles_are_one_and_two() {
    let mut table = ContextTable::new();
    let key = [1u8; 16];
    assert_eq!(table.create(&key, Direction::Encrypt), Ok(1));
    assert_eq!(table.create(&key, Direction::Encrypt), Ok(2));
}

#[test]
fn a_key_of_fifteen_bytes_is_an_invalid_argument() {
    let mut table = ContextTable::new();
    let key = [0u8; 15];
    assert_eq!(table.create(&key, Direction::Encrypt), Err(CipherError::InvalidArgument));
    assert!(!table.is_live(1));
}

#[test]
fn keys_of_other_lengths_are_invalid_arguments() {
    let mut table = ContextTable::new();
    for length in [0usize, 1, 8, 15, 17, 24, 32, 64] {
        let key = vec![0x5au8; length];
        assert_eq!(table.create(&key, Direction::Encrypt), Err(CipherError::InvalidArgument));
        assert_eq!(table.create(&key, Direction::Decrypt), Err(CipherError::InvalidArgument));
        assert!(matches!(
            CipherContext::new(&key, Direction::Encrypt),
            Err(CipherError::InvalidArgument)
        ));
    }
    // nothing was left behind: the first handle is still to be issued
    assert_eq!(table.create(&[0u8; 16], Direction::Encrypt), Ok(1));
}

#[test]
fn a_context_of_its_own_is_created_for_sixteen_bytes() {
    assert_eq!(KEY_LEN, 16);
    assert!(CipherContext::new(&[9u8; 16], Direction::Encrypt).is_ok());
    assert!(CipherContext::new(&[9u8; 16], Direction::Decrypt).is_ok());
}

#[test]
fn destroying_no_handle_changes_nothing() {
    let mut table = ContextTable::new();
    assert!(!table.destroy(NO_HANDLE));
    let handle = table.create(&[3u8; 16], Direction::Encrypt).unwrap();
    assert!(!table.destroy(NO_HANDLE));
    assert!(table.is_live(handle));
    assert!(!table.is_live(NO_HANDLE));
}

#[test]
fn destroying_once_retires_the_handle() {
    let mut table = ContextTable::new();
    let handle = table.create(&[3u8; 16], Direction::Encrypt).unwrap();
    assert!(table.destroy(handle));
    assert!(!table.is_live(handle));
    // a second call finds nothing to retire
    assert!(!table.destroy(handle));
}

#[test]
fn a_retired_handle_is_never_issued_again() {
    let mut table = ContextTable::new();
    let key = [4u8; 16];
    let first = table.create(&key, Direction::Encrypt).unwrap();
    assert!(table.destroy(first));
    let second = table.create(&key, Direction::Encrypt).unwrap();
    assert_ne!(second, first);
    // the slot is used again under its next generation
    assert_eq!(second, RADIX as i64 + 1);
    assert!(table.is_live(second));
    assert!(!table.is_live(first));
    let mut out = [0u8; 4];
    assert_eq!(table.process(first, &[1, 2, 3, 4], &mut out), Step::Skipped);
    assert_eq!(out, [0u8; 4]);
}

#[test]
fn handles_that_were_never_issued_are_not_live() {
    let mut table = ContextTable::new();
    let handle = table.create(&[4u8; 16], Direction::Encrypt).unwrap();
    for stranger in [-1i64, i64::MIN, i64::MAX, 2, 3, RADIX as i64, RADIX as i64 + 1, handle + 1] {
        assert!(!table.is_live(stranger));
        assert!(!table.destroy(stranger));
    }
    assert!(table.is_live(handle));
}

#[test]
fn a_new_table_has_room() {
    let table = ContextTable::new();
    assert!(table.can_create());
    assert_eq!(MAX_SLOTS, 0x7fff_ffff);
}

#[test]
fn a_made_context_is_installed_under_a_new_handle() {
    let mut table = ContextTable::new();
    let first = table.install(CipherContext::new(&[5u8; 16], Direction::Encrypt));
    assert_eq!(first, Ok(1));
    let second = table.install(CipherContext::new(&[5u8; 16], Direction::Decrypt));
    assert_eq!(second, Ok(2));
    assert!(table.is_live(1));
    assert!(table.is_live(2));
}

#[test]
fn a_failure_is_handed_on_and_nothing_is_installed() {
    let mut table = ContextTable::new();
    let refused = table.install(CipherContext::new(&[5u8; 3], Direction::Encrypt));
    assert_eq!(refused, Err(CipherError::InvalidArgument));
    assert_eq!(
        table.install(Err(CipherError::SecurityInitializationFailure)),
        Err(CipherError::SecurityInitializationFailure)
    );
    assert!(!table.is_live(1));
    assert_eq!(table.create(&[5u8; 16], Direction::Encrypt), Ok(1));
}

#[test]
fn an_installed_context_works_as_it_was_made() {
    let mut table = ContextTable::new();
    let handle = table.install(CipherContext::new(&[0u8; 16], Direction::Encrypt)).unwrap();
    let mut output = [0u8; 2];
    assert_eq!(table.process(handle, &[0x41, 0x41], &mut output), Step::Complete);
    assert_eq!(output, [0x27, 0xc0]);
}
