use stream_cipher::boundary::{direction_of, handle_given, serves, span_length};
use stream_cipher::context::{fell_short, produced, step_reported, Step};
use stream_cipher::engine::Direction;
use stream_cipher::error::CipherError;
use stream_cipher::table::NO_HANDLE;

#[test]
fn a_set_flag_asks_for_encryption() {
    assert_eq!(direction_of(1), Direction::Encrypt);
    assert_eq!(direction_of(255), Direction::Encrypt);
    assert_eq!(direction_of(0), Direction::Decrypt);
}

#[test]
fn a_request_is_served_only_when_all_is_set() {
    assert!(serves(1, 0x1000, 16, 0x2000));
    assert!(serves(-1, -1, 1, -1));
    assert!(!serves(0, 0x1000, 16, 0x2000));
    assert!(!serves(1, 0, 16, 0x2000));
    assert!(!serves(1, 0x1000, 16, 0));
    assert!(!serves(1, 0x1000, 0, 0x2000));
    assert!(!serves(1, 0x1000, -1, 0x2000));
    assert!(!serves(1, 0x1000, i32::MIN, 0x2000));
}

#[test]
fn a_span_is_as_long_as_the_request_says() {
    assert_eq!(span_length(1), 1);
    assert_eq!(span_length(16), 16);
    assert_eq!(span_length(i32::MAX), 0x7fff_ffff);
}

#[test]
fn the_host_gets_no_handle_for_a_failure() {
    assert_eq!(handle_given(&Ok(42)), 42);
    assert_eq!(handle_given(&Err(CipherError::InvalidArgument)), NO_HANDLE);
    assert_eq!(handle_given(&Err(CipherError::SecurityInitializationFailure)), 0);
}

#[test]
fn a_failed_step_produced_nothing() {
    assert_eq!(produced::<()>(&Ok(5)), 5);
    assert_eq!(produced::<()>(&Ok(0)), 0);
    assert_eq!(produced(&Err::<usize, &str>("engine")), 0);
}

#[test]
fn each_failure_names_its_host_exception() {
    assert_eq!(CipherError::InvalidArgument.host_class(), "java/lang/IllegalArgumentException");
    assert_eq!(CipherError::InvalidArgument.message(), "cipher key not 16 bytes");
    assert_eq!(
        CipherError::SecurityInitializationFailure.host_class(),
        "java/security/GeneralSecurityException"
    );
    assert_eq!(CipherError::SecurityInitializationFailure.message(), "openssl initialize cipher");
}

#[test]
fn a_step_falls_short_when_it_gives_less_than_the_span() {
    assert!(!fell_short::<()>(&Ok(16), 16));
    assert!(fell_short::<()>(&Ok(15), 16));
    assert!(fell_short::<()>(&Ok(0), 1));
    assert!(fell_short(&Err::<usize, &str>("engine"), 16));
    assert!(!fell_short::<()>(&Ok(0), 0));
    assert!(!fell_short(&Err::<usize, &str>("engine"), 0));
    assert!(!fell_short::<()>(&Ok(17), 16));
}

#[test]
fn a_whole_first_step_is_reported_complete() {
    assert_eq!(step_reported::<()>(16, &Ok(16), &None), Step::Complete);
    assert_eq!(step_reported::<()>(16, &Ok(16), &Some(Ok(3))), Step::Complete);
    assert_eq!(step_reported::<()>(1, &Ok(1), &Some(Err(()))), Step::Complete);
}

#[test]
fn a_short_first_step_is_reported_degraded_with_both_counts() {
    assert_eq!(step_reported::<()>(16, &Ok(10), &Some(Ok(6))), Step::Degraded { written: 16 });
    assert_eq!(step_reported::<()>(16, &Ok(10), &Some(Ok(2))), Step::Degraded { written: 12 });
    assert_eq!(step_reported::<()>(16, &Ok(10), &Some(Err(()))), Step::Degraded { written: 10 });
    assert_eq!(step_reported::<()>(16, &Err(()), &Some(Ok(4))), Step::Degraded { written: 4 });
    assert_eq!(step_reported::<()>(16, &Err(()), &Some(Err(()))), Step::Degraded { written: 0 });
    assert_eq!(step_reported::<()>(16, &Ok(7), &None), Step::Degraded { written: 7 });
}
