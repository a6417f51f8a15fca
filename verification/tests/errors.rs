use shelf_viewer::err::{io_op, io_op_call, IoFailure, SError, SResult};
use shelf_viewer::utils::{into_not_found_option_or_panic_io, into_not_found_option_or_panic_s};

fn missing() -> IoFailure {
    IoFailure { not_found: true, message: "No such file or directory".to_string() }
}

fn denied() -> IoFailure {
    IoFailure { not_found: false, message: "Permission denied".to_string() }
}

#[test]
fn failures_in_words() {
    assert_eq!(
        SError::io("/sys/x".to_string(), denied()).to_string(),
        "IoError /sys/x Permission denied"
    );
    assert_eq!(SError::NoEnclosuresFound.to_string(), "NoEnclosuresFound");
    assert_eq!(SError::MoreThanOneEnclosureFound.to_string(), "MoreThanOneEnclosureFound");
    assert_eq!(
        SError::ComponentsNaN { path: "/sys/c".to_string() }.to_string(),
        "ComponentsNaN /sys/c"
    );
    assert_eq!(SError::InvalidLayout.to_string(), "InvalidLayout");
    assert_eq!(SError::PaletteExhausted.to_string(), "PaletteExhausted");
    assert_eq!(SError::LineCountMismatch.to_string(), "LineCountMismatch");
    assert_eq!(SError::GridTooLarge.to_string(), "GridTooLarge");
    assert_eq!(SError::SizeNaN { device: "sda".to_string() }.to_string(), "SizeNaN sda");
}

#[test]
fn a_failure_carries_its_path() {
    assert_eq!(
        SError::io("/p".to_string(), missing()),
        SError::Io { path: "/p".to_string(), err: missing() }
    );
    let failed: Result<u8, IoFailure> = Err(denied());
    assert_eq!(io_op(failed, "/p"), Err(SError::Io { path: "/p".to_string(), err: denied() }));
    let read: Result<u8, IoFailure> = Ok(3);
    assert_eq!(io_op(read, "/p"), Ok(3));
}

#[test]
fn an_operation_is_made_on_its_path() {
    let length = |path: &str| -> Result<usize, IoFailure> { Ok(path.len()) };
    assert_eq!(io_op_call(length, "/four"), Ok(5));
    let refuse = |_: &str| -> Result<usize, IoFailure> { Err(missing()) };
    assert_eq!(
        io_op_call(refuse, "/gone"),
        Err(SError::Io { path: "/gone".to_string(), err: missing() })
    );
}

#[test]
fn what_is_not_there_is_no_failure() {
    let read: SResult<u8> = Ok(1);
    assert_eq!(into_not_found_option_or_panic_s("/p", read), Some(1));
    let gone: SResult<u8> = Err(SError::io("/p".to_string(), missing()));
    assert_eq!(into_not_found_option_or_panic_s("/p", gone), None);
    let read: Result<u8, IoFailure> = Ok(1);
    assert_eq!(into_not_found_option_or_panic_io("/p", read), Some(1));
    let gone: Result<u8, IoFailure> = Err(missing());
    assert_eq!(into_not_found_option_or_panic_io("/p", gone), None);
}
