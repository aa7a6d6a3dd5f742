use file_finder::cancel::CancelSignal;

#[test]
fn fresh_signal_is_unset() {
    let mut sig = CancelSignal::new();
    assert!(!sig.observe_and_clear());
}

#[test]
fn observe_clears_the_flag() {
    let mut sig = CancelSignal::new();
    sig.request();
    assert!(sig.observe_and_clear());
    assert!(!sig.observe_and_clear());
}

#[test]
fn stop_with_no_search_does_not_touch_a_later_one() {
    // a stray stop request lands on its own token; the token a later
    // search is given is fresh and reads unset
    let mut stray = CancelSignal::new();
    stray.request();
    let mut later = CancelSignal::new();
    assert!(!later.observe_and_clear());
    assert!(stray.observe_and_clear());
}

#[test]
fn request_must_be_rearmed_each_time() {
    let mut sig = CancelSignal::new();
    sig.request();
    sig.request();
    assert!(sig.observe_and_clear());
    assert!(!sig.observe_and_clear());
}
