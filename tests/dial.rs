use zeptohttpc::deadline::{needs_cancel, read_outcome};
use zeptohttpc::happy_eyeballs::{
    bracketed_literal, connect_order, server_name, DialAction, DialEvent, Dialer,
};
use zeptohttpc::{Error, IoKind};

#[test]
fn interleaves_v6_first() {
    assert_eq!(vec![0, 2, 1], connect_order(&vec![true, true, false]));
}

#[test]
fn interleaves_longer_families() {
    assert_eq!(
        vec![1, 0, 3, 2, 4, 5],
        connect_order(&vec![false, true, false, true, false, false])
    );
    assert_eq!(Vec::<usize>::new(), connect_order(&vec![]));
}

#[test]
fn bracketed_literals() {
    assert_eq!(Some(&b"::1"[..]), bracketed_literal(b"[::1]"));
    assert_eq!(None, bracketed_literal(b"127.0.0.1"));
    assert_eq!(&b"::1"[..], server_name(b"[::1]"));
    assert_eq!(&b"example.com"[..], server_name(b"example.com"));
}

#[test]
fn dialer_staggers_and_uses_first_success() {
    let mut d = Dialer::new(&vec![true, true, false]);
    assert_eq!(DialAction::Launch(0), d.start());
    assert_eq!(DialAction::Launch(2), d.on_event(DialEvent::Quiet));
    assert_eq!(DialAction::Launch(1), d.on_event(DialEvent::Failed(IoKind::Other)));
    assert_eq!(DialAction::Use(2), d.on_event(DialEvent::Connected(2)));
}

#[test]
fn dialer_reports_first_error() {
    let mut d = Dialer::new(&vec![true, false]);
    assert_eq!(DialAction::Launch(0), d.start());
    assert_eq!(DialAction::Launch(1), d.on_event(DialEvent::Quiet));
    assert_eq!(DialAction::Wait, d.on_event(DialEvent::Failed(IoKind::TimedOut)));
    assert_eq!(
        DialAction::Fail(Error::Io(IoKind::TimedOut)),
        d.on_event(DialEvent::Failed(IoKind::Other))
    );
}

#[test]
fn dialer_without_addresses_fails() {
    let mut d = Dialer::new(&vec![]);
    assert_eq!(DialAction::Fail(Error::Io(IoKind::Other)), d.start());
}

#[test]
fn deadline_read_rule() {
    assert!(needs_cancel(0, 8));
    assert!(!needs_cancel(0, 0));
    assert!(!needs_cancel(3, 8));
    assert_eq!(Err(Error::Io(IoKind::TimedOut)), read_outcome(0, 8, false));
    assert_eq!(Ok(0), read_outcome(0, 8, true));
    assert_eq!(Ok(0), read_outcome(0, 0, false));
    assert_eq!(Ok(5), read_outcome(5, 8, false));
}
