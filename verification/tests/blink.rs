use led_display::blinkable_display::{BlinkController, BlinkEvent, BlinkMode, PendingUpdate};

const AB: [char; 4] = ['A', 'B', ' ', ' '];
const BLANK: [char; 4] = [' ', ' ', ' ', ' '];

#[test]
fn starts_solid_and_blank() {
    let ctl = BlinkController::new();
    assert_eq!(ctl.mode, BlinkMode::Solid);
    assert_eq!(ctl.render_chars(), BLANK);
    assert_eq!(ctl.wait_timeout_ms(), None);
}

#[test]
fn solid_write_renders_immediately_and_waits_forever() {
    let mut ctl = BlinkController::new();
    ctl.handle_event(BlinkEvent::Write(BlinkMode::Solid, AB));
    assert_eq!(ctl.render_chars(), AB);
    assert_eq!(ctl.wait_timeout_ms(), None);
}

#[test]
fn blink_cycle_is_150_lit_then_50_dark() {
    // Starting solid and blank, a blinking write renders immediately; the
    // timer then alternates 150 ms lit, 50 ms dark, re-rendering the stored
    // characters each lit phase: a 200 ms period.
    let mut ctl = BlinkController::new();
    ctl.handle_event(BlinkEvent::Write(BlinkMode::BlinkingAndOn, AB));
    assert_eq!(ctl.render_chars(), AB);
    assert_eq!(ctl.wait_timeout_ms(), Some(150));

    ctl.handle_event(BlinkEvent::TimerExpired);
    assert_eq!(ctl.mode, BlinkMode::BlinkingButOff);
    assert_eq!(ctl.render_chars(), BLANK);
    assert_eq!(ctl.wait_timeout_ms(), Some(50));

    ctl.handle_event(BlinkEvent::TimerExpired);
    assert_eq!(ctl.mode, BlinkMode::BlinkingAndOn);
    assert_eq!(ctl.render_chars(), AB);
    assert_eq!(ctl.wait_timeout_ms(), Some(150));
}

#[test]
fn write_during_on_phase_restarts_a_full_timer() {
    // A write arriving mid-way through the 150 ms "on" timer renders the new
    // content at once; the next wait is again the full 150 ms — the elapsed
    // time is not credited, because no elapsed state is kept at all.
    let new_chars: [char; 4] = ['1', '2', '3', '4'];
    let mut ctl = BlinkController::new();
    ctl.handle_event(BlinkEvent::Write(BlinkMode::BlinkingAndOn, AB));
    assert_eq!(ctl.wait_timeout_ms(), Some(150));
    // 10 ms in, the write wins the race against the timer:
    ctl.handle_event(BlinkEvent::Write(BlinkMode::BlinkingAndOn, new_chars));
    assert_eq!(ctl.render_chars(), new_chars);
    assert_eq!(ctl.wait_timeout_ms(), Some(150));
}

#[test]
fn dark_phase_keeps_stored_chars_for_next_lit_phase() {
    let mut ctl = BlinkController::new();
    ctl.handle_event(BlinkEvent::Write(BlinkMode::BlinkingAndOn, AB));
    ctl.handle_event(BlinkEvent::TimerExpired);
    assert_eq!(ctl.render_chars(), BLANK);
    assert_eq!(ctl.chars, AB);
}

#[test]
fn back_to_back_writes_keep_only_the_second() {
    let first: [char; 4] = ['1', '1', '1', '1'];
    let second: [char; 4] = ['2', '2', '2', '2'];
    let mut mailbox = PendingUpdate::new();
    mailbox.write(BlinkMode::Solid, first);
    mailbox.write(BlinkMode::BlinkingAndOn, second);
    assert_eq!(mailbox.take(), Some((BlinkMode::BlinkingAndOn, second)));
    assert_eq!(mailbox.take(), None);
}
