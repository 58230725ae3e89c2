use dnp3::link::{Ctrl, Function, Header};

#[test]
fn every_named_function_has_its_code() {
    assert_eq!(Function::from(0x40), Function::PriResetLinkStates);
    assert_eq!(Function::from(0x42), Function::PriTestLinkStates);
    assert_eq!(Function::from(0x43), Function::PriConfirmedUserData);
    assert_eq!(Function::from(0x44), Function::PriUnconfirmedUserData);
    assert_eq!(Function::from(0x49), Function::PriRequestLinkStatus);
    assert_eq!(Function::from(0x00), Function::SecAck);
    assert_eq!(Function::from(0x01), Function::SecNack);
    assert_eq!(Function::from(0x0B), Function::SecLinkStatus);
    assert_eq!(Function::from(0x0F), Function::SecNotSupported);
}

#[test]
fn every_other_byte_is_an_unknown_function() {
    let named = [0x40, 0x42, 0x43, 0x44, 0x49, 0x00, 0x01, 0x0B, 0x0F];
    for byte in 0..=255u8 {
        if !named.contains(&byte) {
            assert_eq!(Function::from(byte), Function::Unknown(byte));
        }
    }
}

#[test]
fn control_byte_of_a_master_reset() {
    let ctrl = Ctrl::from(0xC0);
    assert_eq!(
        ctrl,
        Ctrl { func: Function::PriResetLinkStates, master: true, fcb: false, fcvdfc: false }
    );
}

#[test]
fn each_flag_has_its_bit() {
    assert_eq!(
        Ctrl::from(0x80),
        Ctrl { func: Function::SecAck, master: true, fcb: false, fcvdfc: false }
    );
    assert_eq!(
        Ctrl::from(0x20),
        Ctrl { func: Function::SecAck, master: false, fcb: true, fcvdfc: false }
    );
    assert_eq!(
        Ctrl::from(0x10),
        Ctrl { func: Function::SecAck, master: false, fcb: false, fcvdfc: true }
    );
    assert_eq!(
        Ctrl::from(0x40),
        Ctrl { func: Function::PriResetLinkStates, master: false, fcb: false, fcvdfc: false }
    );
}

#[test]
fn the_function_is_masked_out_of_the_control_byte() {
    for byte in 0..=255u8 {
        let ctrl = Ctrl::from(byte);
        assert_eq!(ctrl.func, Function::from(byte & 0x4F));
        assert_eq!(ctrl.master, byte & 0x80 != 0);
        assert_eq!(ctrl.fcb, byte & 0x20 != 0);
        assert_eq!(ctrl.fcvdfc, byte & 0x10 != 0);
    }
    assert_eq!(Ctrl::from(0xFF).func, Function::Unknown(0x4F));
    assert_eq!(Ctrl::from(0xF3).func, Function::PriConfirmedUserData);
    assert_eq!(Ctrl::from(0x3B).func, Function::SecLinkStatus);
}

#[test]
fn header_from_its_fields() {
    let header = Header::from(Ctrl::from(0xC0), 1, 1024);
    assert_eq!(header.ctrl, Ctrl::from(0xC0));
    assert_eq!(header.dest, 1);
    assert_eq!(header.src, 1024);
}

#[test]
fn default_header_is_all_zero() {
    let header = Header::default();
    assert_eq!(
        header,
        Header {
            ctrl: Ctrl { func: Function::SecAck, master: false, fcb: false, fcvdfc: false },
            dest: 0,
            src: 0,
        }
    );
}
