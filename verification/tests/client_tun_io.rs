use csqtt::client::tun_io::{
    is_closed_tun_error, is_retryable_tun_error, read_step, PacketWrite, ReadStep, TunError,
    TunOutcome, WriteStep, EBADF, EIO, ENOBUFS, ENODEV, ENOMEM,
};

fn failed(code: i32) -> TunError {
    TunError {
        interrupted: false,
        would_block: false,
        code: Some(code),
    }
}

#[test]
fn error_numbers_are_those_of_the_system() {
    assert_eq!(EIO, libc::EIO);
    assert_eq!(EBADF, libc::EBADF);
    assert_eq!(ENOMEM, libc::ENOMEM);
    assert_eq!(ENODEV, libc::ENODEV);
    assert_eq!(ENOBUFS, libc::ENOBUFS);
}

#[test]
fn errors_close_the_device_or_are_retried() {
    for code in [EIO, EBADF, ENODEV] {
        assert!(is_closed_tun_error(&failed(code)));
        assert!(!is_retryable_tun_error(&failed(code)));
    }
    for code in [ENOBUFS, ENOMEM] {
        assert!(is_retryable_tun_error(&failed(code)));
        assert!(!is_closed_tun_error(&failed(code)));
    }
    assert!(is_retryable_tun_error(&TunError {
        interrupted: true,
        would_block: false,
        code: None,
    }));
}

#[test]
fn reads_are_dispatched_or_end_the_device() {
    assert_eq!(read_step(TunOutcome::Moved(40)), ReadStep::Dispatch(40));
    assert_eq!(read_step(TunOutcome::Moved(0)), ReadStep::Reopen);
    assert_eq!(read_step(TunOutcome::NotReady), ReadStep::Wait);
    assert_eq!(read_step(TunOutcome::Failed(failed(EIO))), ReadStep::Reopen);
    assert_eq!(
        read_step(TunOutcome::Failed(failed(ENOBUFS))),
        ReadStep::Wait
    );
    assert_eq!(read_step(TunOutcome::Failed(failed(1))), ReadStep::Fail);
}

#[test]
fn writes_go_on_until_the_packet_is_out() {
    let mut write = PacketWrite::new(100);
    assert_eq!(write.step(TunOutcome::Moved(60)), WriteStep::Continue);
    assert_eq!(
        write.step(TunOutcome::Failed(failed(ENOMEM))),
        WriteStep::Pause
    );
    assert_eq!(write.step(TunOutcome::Moved(40)), WriteStep::Done);
    assert_eq!(write.written, 100);
    let mut gone = PacketWrite::new(1);
    assert_eq!(
        gone.step(TunOutcome::Failed(failed(EBADF))),
        WriteStep::Reopen
    );
    assert_eq!(gone.step(TunOutcome::Failed(failed(1))), WriteStep::Fail);
    assert_eq!(gone.step(TunOutcome::Moved(0)), WriteStep::Fail);
}
