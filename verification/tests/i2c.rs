use catplay::i2c::{
    bus_path, checked_i2c_len, checked_message_count, register_write, split_selector_for, transfer_outcome,
    write_message, AccessKind, AccessPhase, I2cFault, I2cMessage, MfiI2cError, RegisterAccess,
    WriteRead, WriteReadStep, I2C_M_RD,
};
use catplay::time::Duration;

const EIO: i32 = 5;

/// Runs an exchange as a bus driver does, with the messages of each transfer at hand.
fn write_read_with(
    dev_addr: u8,
    write_len: usize,
    read_len: usize,
    split: bool,
    mut transfer: impl FnMut(&[I2cMessage]) -> Result<(), I2cFault>,
    mut sleep: impl FnMut(Duration),
) -> Result<(), I2cFault> {
    let mut exchange = WriteRead::begin(dev_addr, write_len, read_len, split)?;
    loop {
        match exchange.asked {
            WriteReadStep::TransferWrite => {
                let outcome = transfer(&[exchange.write]);
                exchange.transferred(outcome);
            }
            WriteReadStep::TransferRead => {
                let outcome = transfer(&[exchange.read]);
                exchange.transferred(outcome);
            }
            WriteReadStep::TransferBoth => {
                let outcome = transfer(&[exchange.write, exchange.read]);
                exchange.transferred(outcome);
            }
            WriteReadStep::Sleep(span) => {
                sleep(span);
                exchange.slept();
            }
            WriteReadStep::Done(result) => return result,
        }
    }
}

#[test]
fn selector_stop_delay_then_read() {
    let events = std::cell::RefCell::new(Vec::new());
    let mut read = [0; 2];
    write_read_with(
        0x10,
        1,
        2,
        true,
        |messages| {
            assert_eq!(messages.len(), 1, "each ioctl must contain exactly one message");
            let message = &messages[0];
            assert_eq!(message.addr, 0x10);
            if events.borrow().is_empty() {
                assert_eq!(message.flags, 0);
                assert_eq!(message.len, 1);
                events.borrow_mut().push("selector STOP");
            } else {
                assert_eq!(&*events.borrow(), &["selector STOP", "4 ms"]);
                assert_eq!(message.flags, I2C_M_RD);
                assert_eq!(message.len, 2);
                read.copy_from_slice(&[0x03, 0x8c]);
                events.borrow_mut().push("read");
            }
            Ok(())
        },
        |delay| {
            assert_eq!(delay, Duration::from_millis(4));
            assert_eq!(&*events.borrow(), &["selector STOP"]);
            events.borrow_mut().push("4 ms");
        },
    )
    .unwrap();
    assert_eq!(events.into_inner(), ["selector STOP", "4 ms", "read"]);
    assert_eq!(u16::from_be_bytes(read), 908);
}

#[test]
fn selector_failure_skips_sleep_and_read() {
    let mut calls = 0;
    let error = write_read_with(
        0x10,
        1,
        2,
        true,
        |messages| {
            calls += 1;
            assert_eq!(messages.len(), 1);
            assert_eq!(messages[0].flags, 0);
            Err(I2cFault::Os(EIO))
        },
        |_| panic!("must not sleep after selector failure"),
    )
    .unwrap_err();
    assert_eq!(calls, 1);
    assert_eq!(error, I2cFault::Os(EIO));
}

#[test]
fn read_failure_is_propagated() {
    let mut calls = 0;
    let mut sleeps = 0;
    let error = write_read_with(
        0x10,
        1,
        2,
        true,
        |messages| {
            calls += 1;
            assert_eq!(messages.len(), 1);
            match calls {
                1 => Ok(()),
                2 => {
                    assert_eq!(messages[0].flags, I2C_M_RD);
                    Err(I2cFault::Os(EIO))
                }
                _ => panic!("unexpected transfer"),
            }
        },
        |delay| {
            assert_eq!(delay, Duration::from_millis(4));
            sleeps += 1;
        },
    )
    .unwrap_err();
    assert_eq!((calls, sleeps), (2, 1));
    assert_eq!(error, I2cFault::Os(EIO));
}

#[test]
fn oversized_lengths_fail_before_side_effects() {
    for (write_len, read_len) in [(65536, 2), (1, 65536)] {
        let error = write_read_with(
            0x10,
            write_len,
            read_len,
            true,
            |_| panic!("must validate both lengths before transfer"),
            |_| panic!("must validate both lengths before sleep"),
        )
        .unwrap_err();
        assert_eq!(error, I2cFault::MessageTooLong);
    }
}

#[test]
fn selector_delay_is_scoped_to_ingenic_config() {
    assert!(split_selector_for(0, 0x10));
    assert!(!split_selector_for(1, 0x11));
    assert!(!split_selector_for(0, 0x11));
    assert!(!split_selector_for(1, 0x10));
}

#[test]
fn combined_transfer_keeps_upstream_behavior() {
    let mut calls = 0;
    let mut sleeps = 0;
    write_read_with(
        0x10,
        1,
        2,
        false,
        |messages| {
            calls += 1;
            assert_eq!(messages.len(), 2, "combined mode is one two-message ioctl");
            Ok(())
        },
        |_| sleeps += 1,
    )
    .unwrap();
    assert_eq!((calls, sleeps), (1, 0));
}

#[test]
fn lengths_and_outcomes() {
    assert_eq!(checked_i2c_len(65535), Ok(65535));
    assert_eq!(checked_i2c_len(65536), Err(I2cFault::MessageTooLong));
    assert_eq!(checked_message_count(2), Ok(2));
    assert_eq!(checked_message_count(1 << 32), Err(I2cFault::TooManyMessages));
    assert_eq!(transfer_outcome(-1, EIO, 2), Err(I2cFault::Os(EIO)));
    assert_eq!(transfer_outcome(2, 0, 2), Ok(()));
    let short = transfer_outcome(1, 0, 2).unwrap_err();
    assert_eq!(short, I2cFault::Incomplete { done: 1, requested: 2 });
    assert_eq!(short.text().unwrap(), "incomplete I2C transfer: 1/2 messages");
    assert_eq!(I2cFault::MessageTooLong.text().unwrap(), "I2C message exceeds 65535 bytes");
    assert_eq!(I2cFault::TooManyMessages.text().unwrap(), "too many I2C messages");
    assert_eq!(I2cFault::Os(EIO).text(), None);
    assert_eq!(
        write_message(0x11, 3),
        Ok(I2cMessage {
            addr: 0x11,
            flags: 0,
            len: 3,
        })
    );
    assert_eq!(register_write(0x21, &[1, 2]), [0x21, 1, 2]);
    assert_eq!(bus_path(0), "/dev/i2c-0");
    assert_eq!(bus_path(4_294_967_295), "/dev/i2c-4294967295");
}

#[test]
fn reads_are_retried_until_the_deadline() {
    let kind = AccessKind::Read { split: true };
    let mut access = RegisterAccess::begin(0x10, 0x30, 2, kind, Duration::from_secs(10));
    let AccessPhase::Exchanging(first) = access.phase else { panic!("{access:?}") };
    assert_eq!((first.write.len, first.read.len), (1, 2));
    let before = Duration { nanos: 11_999_999_999 };
    access.transferred(Ok(()), before);
    let AccessPhase::Exchanging(gap) = access.phase else { panic!("{access:?}") };
    assert_eq!(gap.asked, WriteReadStep::Sleep(Duration::from_millis(4)));
    access.slept(before);
    access.transferred(Err(I2cFault::Os(EIO)), before);
    assert_eq!(access.phase, AccessPhase::Pausing(Duration::from_millis(5)));
    access.slept(before);
    assert_eq!(access.tries, 2);
    assert_eq!(access.phase, AccessPhase::Exchanging(first), "a try starts over");
    let status = I2cFault::Incomplete { done: 0, requested: 1 };
    access.transferred(Err(status), Duration::from_secs(12));
    assert_eq!(
        access.phase,
        AccessPhase::Finished(Err(MfiI2cError::ReadTimeout {
            reg: 0x30,
            n: 2,
            tries: 2,
            status,
        }))
    );
}

#[test]
fn combined_reads_and_writes_take_one_transfer() {
    let now = Duration::zero();
    let mut read = RegisterAccess::begin(0x11, 0x31, 908, AccessKind::Read { split: false }, now);
    let AccessPhase::Exchanging(exchange) = read.phase else { panic!("{read:?}") };
    assert_eq!(exchange.asked, WriteReadStep::TransferBoth);
    read.transferred(Ok(()), now);
    assert_eq!(read.phase, AccessPhase::Finished(Ok(())));

    let mut write = RegisterAccess::begin(0x11, 0x21, 20, AccessKind::Write, now);
    assert_eq!(
        write.phase,
        AccessPhase::Writing(I2cMessage {
            addr: 0x11,
            flags: 0,
            len: 21,
        })
    );
    write.transferred(Err(I2cFault::Os(EIO)), now);
    write.slept(now);
    write.transferred(Ok(()), now);
    assert_eq!((write.phase, write.tries), (AccessPhase::Finished(Ok(())), 2));
}

#[test]
fn accesses_that_are_too_long_time_out() {
    for (n, kind) in [(65536, AccessKind::Read { split: true }), (65535, AccessKind::Write)] {
        let mut access = RegisterAccess::begin(0x11, 0x21, n, kind, Duration::zero());
        assert_eq!(access.phase, AccessPhase::Pausing(Duration::from_millis(5)));
        access.slept(Duration::from_secs(2));
        let (reg, tries, status) = (0x21, 2, I2cFault::MessageTooLong);
        let error = if kind == AccessKind::Write {
            MfiI2cError::WriteTimeout { reg, n, tries, status }
        } else {
            MfiI2cError::ReadTimeout { reg, n, tries, status }
        };
        assert_eq!(access.phase, AccessPhase::Finished(Err(error)));
    }
}

/// Runs an access over tries that end like this at these times.
fn run_tries(kind: AccessKind, tries: &[(Result<(), I2cFault>, Duration)]) -> RegisterAccess {
    let mut access = RegisterAccess::begin(0x11, 0x21, 4, kind, Duration::from_secs(10));
    for &(outcome, at) in tries {
        if let AccessPhase::Pausing(pause) = access.phase {
            assert_eq!(pause, Duration::from_millis(5));
            access.slept(at);
        }
        if kind == (AccessKind::Read { split: true }) {
            access.transferred(Ok(()), at);
            access.slept(at);
        }
        access.transferred(outcome, at);
    }
    access
}

#[test]
fn first_decisive_try_ends_an_access() {
    let fault = I2cFault::Os(EIO);
    let before = Duration { nanos: 11_999_999_999 };
    let at = Duration::from_secs(12);
    let kinds = [AccessKind::Read { split: true }, AccessKind::Read { split: false }, AccessKind::Write];
    for kind in kinds {
        let failures = vec![(Err(fault), before); 300];
        let open = run_tries(kind, &failures);
        assert_eq!((open.phase, open.tries), (AccessPhase::Pausing(Duration::from_millis(5)), 300));

        let mut late_success = failures.clone();
        late_success.push((Ok(()), Duration::from_secs(500)));
        let ended = run_tries(kind, &late_success);
        assert_eq!((ended.phase, ended.tries), (AccessPhase::Finished(Ok(())), 301));

        let mut late_failure = failures;
        late_failure.push((Err(fault), at));
        let ended = run_tries(kind, &late_failure);
        let (reg, n, tries, status) = (0x21, 4, 301, fault);
        let error = if kind == AccessKind::Write {
            MfiI2cError::WriteTimeout { reg, n, tries, status }
        } else {
            MfiI2cError::ReadTimeout { reg, n, tries, status }
        };
        assert_eq!((ended.phase, ended.tries), (AccessPhase::Finished(Err(error)), 301));
    }
}
