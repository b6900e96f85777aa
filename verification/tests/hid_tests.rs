use glorious_auto_polling_rate::config::{Method, Protocol};
use glorious_auto_polling_rate::hid::{choose_collection, device_report, report_bytes, Candidate};

fn cand(usage_page: u16, usage: u16, feature_len: usize, output_len: usize) -> Candidate {
    Candidate { path: vec![0], usage_page, usage, feature_len, output_len }
}

/// The collections a Model D2 Pro 4K shows, in enumeration order.
fn d2_pro() -> Vec<Candidate> {
    vec![
        cand(0xffff, 0x0001, 0, 0),
        cand(0x0001, 0x0006, 0, 2),
        cand(0x000c, 0x0001, 0, 0),
        cand(0x0001, 0x0080, 0, 0),
        cand(0xffff, 0x0000, 65, 0),
        cand(0xffa0, 0x0001, 0, 0),
        cand(0x0001, 0x0002, 0, 0),
    ]
}

#[test]
fn the_decoy_collection_is_skipped() {
    let p = Protocol::default();
    assert_eq!(choose_collection(&p, &d2_pro()), Ok(4));
}

#[test]
fn without_a_match_the_first_writable_collection_is_used() {
    let mut p = Protocol::default();
    p.usage_page = 0x1234;
    assert_eq!(choose_collection(&p, &d2_pro()), Ok(1));
    p.usage_page = 0;
    p.usage = 0;
    assert_eq!(choose_collection(&p, &d2_pro()), Ok(1));
}

#[test]
fn missing_or_unwritable_device_errors() {
    let p = Protocol::default();
    assert_eq!(
        choose_collection(&p, &Vec::new()),
        Err("no device found for vid 0x258a pid 0x2036. Is the dongle plugged in?".to_string())
    );
    assert_eq!(
        choose_collection(&p, &vec![cand(0xffff, 0, 0, 0)]),
        Err("found the device but no writable HID collection".to_string())
    );
}

#[test]
fn reports_are_padded_to_the_report_length() {
    let cmd = [0u8, 0, 0, 2, 3, 1, 0x0A, 1, 0x40, 0x40];
    let r = report_bytes(Method::Feature, 0, 65, 0, &cmd).unwrap();
    assert_eq!(r.len(), 65);
    assert_eq!(&r[..10], &cmd);
    assert!(r[10..].iter().all(|b| *b == 0));
    // A forced length shorter than the command cuts it.
    assert_eq!(report_bytes(Method::Feature, 3, 65, 0, &cmd).unwrap(), vec![0u8, 0, 0]);
    // A forced length wins over the device's, and pads the command.
    let forced = report_bytes(Method::Output, 12, 65, 64, &cmd).unwrap();
    assert_eq!(forced.len(), 12);
    assert_eq!(&forced[..10], &cmd);
    assert_eq!(&forced[10..], &[0u8, 0]);
    // A forced length equal to the command's sends it as it is.
    assert_eq!(report_bytes(Method::Feature, 10, 65, 0, &cmd).unwrap(), cmd.to_vec());
    // No report of the method's kind: the command as it is.
    assert_eq!(report_bytes(Method::Output, 0, 65, 0, &cmd).unwrap(), cmd.to_vec());
    assert_eq!(report_bytes(Method::Output, 0, 0, 20, &cmd).unwrap().len(), 20);
    assert_eq!(report_bytes(Method::Feature, 0, 65, 0, &[]), Err("command is empty".to_string()));
}

#[test]
fn device_listing_text() {
    let text = device_report(0x258a, 0x2036, &d2_pro()[..2].to_vec());
    assert_eq!(
        text,
        "vid 0x258a pid 0x2036\nfound 2 HID collection(s):\n\n\
         1. usage_page 0xffff usage 0x0001 feature_len 0 output_len 0\n\
         2. usage_page 0x0001 usage 0x0006 feature_len 0 output_len 2\n"
    );
    assert_eq!(device_report(0xABCD, 0x000f, &Vec::new()), "vid 0xabcd pid 0x000f\nfound 0 HID collection(s):\n\n");
}
