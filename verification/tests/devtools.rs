use blob_rasterizer::devtools::{handle_wants_live_notifications, GlobalScope};

#[test]
fn a_new_scope_reports_nothing() {
    assert!(!GlobalScope::new().live_devtools_updates());
}

#[test]
fn live_notifications_follow_the_last_request() {
    let mut global = GlobalScope::new();
    handle_wants_live_notifications(&mut global, true);
    assert!(global.live_devtools_updates());
    handle_wants_live_notifications(&mut global, true);
    assert!(global.live_devtools_updates());
    handle_wants_live_notifications(&mut global, false);
    assert!(!global.live_devtools_updates());
    global.set_devtools_wants_updates(true);
    assert!(global.live_devtools_updates());
}
