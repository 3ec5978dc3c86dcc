use create_dotslash::session::{may_write, overwrites, Session};

#[test]
fn users_are_asked_at_a_terminal() {
    let session = Session::new(false, false, true);
    assert!(session.interactive && session.progress);
    let session = Session::new(false, true, true);
    assert!(session.interactive && !session.progress);
    let session = Session::new(true, false, true);
    assert!(!session.interactive && !session.progress);
    let session = Session::new(false, false, false);
    assert!(!session.interactive && !session.progress);
}

#[test]
fn files_are_overwritten_on_demand() {
    assert!(may_write(true, true));
    assert!(may_write(false, false));
    assert!(!may_write(false, true));
    let session = Session::new(false, false, true);
    assert!(session.asks_to_overwrite(false, true));
    assert!(!session.asks_to_overwrite(true, true));
    assert!(!session.asks_to_overwrite(false, false));
    assert!(!Session::new(true, false, true).asks_to_overwrite(false, true));
    assert!(overwrites(true, false));
    assert!(overwrites(false, true));
    assert!(!overwrites(false, false));
}
