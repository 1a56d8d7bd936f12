use plmidi::listener::{interpret, Directive, Input, Intent, Key, KeyPress, Listener};
use plmidi::Command;

fn press(key: Key, control: bool) -> KeyPress {
    KeyPress { key, pressed: true, control }
}

#[test]
fn keys_mean_what_the_operator_expects() {
    assert_eq!(interpret(press(Key::Esc, false)), Intent::Quit);
    assert_eq!(interpret(press(Key::Esc, true)), Intent::Quit);
    for c in ['c', 'd', 'q'] {
        assert_eq!(interpret(press(Key::Char(c), true)), Intent::Quit);
        assert_eq!(interpret(press(Key::Char(c), false)), Intent::Ignore);
    }
    assert_eq!(interpret(press(Key::Char('x'), true)), Intent::Ignore);
    assert_eq!(interpret(press(Key::Left, true)), Intent::Send(Command::Prev));
    assert_eq!(interpret(press(Key::Right, true)), Intent::Send(Command::Next));
    assert_eq!(interpret(press(Key::Left, false)), Intent::Ignore);
    assert_eq!(interpret(press(Key::Right, false)), Intent::Ignore);
    assert_eq!(interpret(press(Key::Char(' '), false)), Intent::Send(Command::Pause));
    assert_eq!(interpret(press(Key::Char(' '), true)), Intent::Send(Command::Pause));
    assert_eq!(interpret(press(Key::Other, true)), Intent::Ignore);
}

#[test]
fn only_presses_count() {
    for key in [Key::Esc, Key::Left, Key::Right, Key::Char(' '), Key::Char('q'), Key::Other] {
        let released = KeyPress { key, pressed: false, control: true };
        assert_eq!(interpret(released), Intent::Ignore);
    }
}

#[test]
fn listener_sends_commands_while_active() {
    let mut listener = Listener::new();
    assert_eq!(listener, Listener::Active);
    assert_eq!(listener.step(Input::Other), Directive::Listen);
    assert_eq!(
        listener.step(Input::Key(press(Key::Char(' '), false))),
        Directive::Send(Command::Pause)
    );
    assert_eq!(listener.step(Input::Sent), Directive::Listen);
    assert_eq!(
        listener.step(Input::Key(press(Key::Right, true))),
        Directive::Send(Command::Next)
    );
    assert_eq!(listener.step(Input::Sent), Directive::Listen);
    assert_eq!(listener.step(Input::Key(press(Key::Char('a'), false))), Directive::Listen);
    assert_eq!(listener, Listener::Active);
}

#[test]
fn shutdown_restores_the_terminal() {
    let mut listener = Listener::new();
    assert_eq!(listener.step(Input::Shutdown), Directive::Restore);
    assert_eq!(listener, Listener::Done);
    assert_eq!(listener.step(Input::Key(press(Key::Char(' '), false))), Directive::Restore);
    assert_eq!(listener.step(Input::Other), Directive::Restore);
    assert_eq!(listener, Listener::Done);
}

#[test]
fn quit_closes_the_channel_and_waits_for_shutdown() {
    for input in [
        Input::Key(press(Key::Esc, false)),
        Input::Key(press(Key::Char('c'), true)),
        Input::Ended,
        Input::Refused,
    ] {
        let mut listener = Listener::new();
        assert_eq!(listener.step(input), Directive::Close);
        assert_eq!(listener, Listener::Closing);
        // nothing but the shutdown signal counts from here on
        assert_eq!(listener.step(Input::Key(press(Key::Char(' '), false))), Directive::Close);
        assert_eq!(listener.step(Input::Sent), Directive::Close);
        assert_eq!(listener, Listener::Closing);
        assert_eq!(listener.step(Input::Shutdown), Directive::Restore);
        assert_eq!(listener, Listener::Done);
    }
}
