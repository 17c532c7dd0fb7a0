use catplay::i2c::{AccessKind, I2cFault, MfiI2cError, RegisterAccess};
use catplay::mfi::{MfiAction, MfiDeviceI2C, MfiPhase};
use catplay::time::Duration;

const EIO: i32 = 5;

fn error() -> MfiI2cError {
    MfiI2cError::ReadTimeout {
        reg: 0x30,
        n: 2,
        tries: 9,
        status: I2cFault::Os(EIO),
    }
}

#[test]
fn certificate_is_read_once_and_kept() {
    let mut device = MfiDeviceI2C::new(0, 0x10);
    assert!(device.split_selector);
    let size = MfiAction::Read { reg: 0x30, n: 2 };
    assert_eq!(device.i2c_read_certificate(), size);
    assert_eq!(device.read(Ok(vec![0, 63])), MfiAction::Sleep(Duration::from_millis(5)));
    assert_eq!(device.slept(), size);
    assert_eq!(device.read(Ok(vec![0x03, 0x8c])), MfiAction::Read { reg: 0x31, n: 908 });
    let certificate = vec![7; 908];
    assert_eq!(device.read(Ok(certificate.clone())), MfiAction::Done(Ok(certificate.clone())));
    assert_eq!(device.i2c_read_certificate(), MfiAction::Done(Ok(certificate)));
}

#[test]
fn garbage_certificate_sizes_are_read_a_hundred_times() {
    let mut device = MfiDeviceI2C::new(1, 0x11);
    assert!(!device.split_selector);
    let mut reads = 0;
    let mut action = device.i2c_read_certificate();
    loop {
        match action {
            MfiAction::Read { reg: 0x30, n: 2 } => {
                reads += 1;
                action = device.read(Ok(vec![0x04, 0x01]));
            }
            MfiAction::Sleep(span) => {
                assert_eq!(span, Duration::from_millis(5));
                action = device.slept();
            }
            other => {
                assert_eq!(other, MfiAction::Done(Err(MfiI2cError::UnexpectedSize(1025))));
                break;
            }
        }
    }
    assert_eq!(reads, 100);
    assert_eq!(device.i2c_read_certificate(), MfiAction::Read { reg: 0x30, n: 2 });
    assert_eq!(device.read(Err(error())), MfiAction::Done(Err(error())));
}

fn write(reg: u8, data: &[u8]) -> MfiAction {
    MfiAction::Write { reg, data: data.to_vec() }
}

fn signing(device: &mut MfiDeviceI2C) {
    let challenge = [9; 300];
    assert_eq!(device.i2c_generate_challenge_response(&challenge), write(0x20, &[0x01, 0x2c]));
    assert_eq!(device.wrote(Ok(())), write(0x21, &challenge));
    assert_eq!(device.wrote(Ok(())), write(0x10, &[0x01]));
    assert_eq!(device.wrote(Ok(())), MfiAction::Sleep(Duration::from_millis(10)));
    assert_eq!(device.slept(), MfiAction::Read { reg: 0x10, n: 1 });
}

#[test]
fn challenge_is_signed() {
    let mut device = MfiDeviceI2C::new(1, 0x11);
    signing(&mut device);
    assert_eq!(device.read(Ok(vec![0x10])), MfiAction::Read { reg: 0x11, n: 2 });
    assert_eq!(device.read(Ok(vec![0x00, 0x80])), MfiAction::Read { reg: 0x12, n: 128 });
    assert_eq!(device.read(Ok(vec![3; 128])), MfiAction::Done(Ok(vec![3; 128])));
}

#[test]
fn signing_fails_by_status_size_or_bus() {
    let mut device = MfiDeviceI2C::new(1, 0x11);
    signing(&mut device);
    assert_eq!(device.read(Ok(vec![0x80])), MfiAction::Read { reg: 0x05, n: 1 });
    assert_eq!(
        device.read(Ok(vec![0x04])),
        MfiAction::Done(Err(MfiI2cError::SigningError {
            status: 0x80,
            code: 0x04,
        }))
    );
    for (bytes, size) in [([0, 0], 0), ([0, 0x81], 129)] {
        signing(&mut device);
        device.read(Ok(vec![0x7f]));
        assert_eq!(
            device.read(Ok(bytes.to_vec())),
            MfiAction::Done(Err(MfiI2cError::UnexpectedSize(size)))
        );
    }
    device.i2c_generate_challenge_response(&[]);
    assert_eq!(device.wrote(Err(error())), MfiAction::Done(Err(error())));
    assert_eq!(device.phase, MfiPhase::Idle);
    assert!(device.challenge.is_empty());
}

/// Asks for the certificate and answers each read of its size with the next of `sizes`.
fn answer_sizes(device: &mut MfiDeviceI2C, sizes: &[u16]) -> (usize, MfiAction) {
    let mut action = device.i2c_read_certificate();
    for (i, size) in sizes.iter().enumerate() {
        if matches!(action, MfiAction::Sleep(_)) {
            action = device.slept();
        }
        if action != (MfiAction::Read { reg: 0x30, n: 2 }) {
            return (i, action);
        }
        action = device.read(Ok(size.to_be_bytes().to_vec()));
    }
    (sizes.len(), action)
}

#[test]
fn certificate_has_the_first_of_a_hundred_sizes_that_makes_sense() {
    for good in [0, 57, 99] {
        let mut device = MfiDeviceI2C::new(1, 0x11);
        let mut sizes = vec![63; 120];
        sizes[good] = 64;
        sizes[good + 1] = 1024;
        assert_eq!(answer_sizes(&mut device, &sizes), (good + 1, MfiAction::Read { reg: 0x31, n: 64 }));
        assert!(device.certificate.is_empty());
        let certificate = vec![5; 64];
        assert_eq!(device.read(Ok(certificate.clone())), MfiAction::Done(Ok(certificate.clone())));
        signing(&mut device);
        assert_eq!(device.read(Err(error())), MfiAction::Done(Err(error())));
        for _ in 0..3 {
            assert_eq!(device.i2c_read_certificate(), MfiAction::Done(Ok(certificate.clone())));
        }
    }
    let mut device = MfiDeviceI2C::new(1, 0x11);
    let mut sizes = vec![2000; 120];
    sizes[99] = 3000;
    sizes[100] = 64;
    assert_eq!(
        answer_sizes(&mut device, &sizes),
        (100, MfiAction::Done(Err(MfiI2cError::UnexpectedSize(3000))))
    );
    assert!(device.certificate.is_empty());
}

#[test]
fn actions_on_registers_begin_accesses() {
    let now = Duration::from_secs(10);
    for (bus, dev_addr, split) in [(0, 0x10, true), (1, 0x11, false)] {
        let device = MfiDeviceI2C::new(bus, dev_addr);
        let read = MfiAction::Read { reg: 0x31, n: 908 };
        let access = RegisterAccess::begin(dev_addr, 0x31, 908, AccessKind::Read { split }, now);
        assert_eq!(device.access_for(&read, now), Some((access, vec![0x31])));
        let access = RegisterAccess::begin(dev_addr, 0x20, 2, AccessKind::Write, now);
        assert_eq!(device.access_for(&write(0x20, &[0, 20]), now), Some((access, vec![0x20, 0, 20])));
        assert_eq!(device.access_for(&MfiAction::Sleep(Duration::from_millis(10)), now), None);
        assert_eq!(device.access_for(&MfiAction::Done(Ok(vec![1])), now), None);
    }
}
