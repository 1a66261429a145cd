use terminal_renderer::keyboard::{KeyCode, KeyEvent, Keys};
use terminal_renderer::terminal::{Terminal, TerminalColor};

#[test]
fn resize_allocates_once_per_size() {
    let mut t = Terminal::new([100, 100, 100], true);
    assert!(t.resize_screen_buffer(4, 3));
    assert!(!t.resize_screen_buffer(4, 3));
    {
        let b = t.get_mutable_screen_buffer_reference();
        assert_eq!(b.width(), 4);
        assert_eq!(b.height(), 3);
        assert_eq!(b.get(2, 3), [100, 100, 100]);
        b.set(0, 0, [1, 2, 3]);
    }
    assert!(!t.resize_screen_buffer(4, 3));
    assert_eq!(t.get_mutable_screen_buffer_reference().get(0, 0), [1, 2, 3]);
    assert!(t.resize_screen_buffer(5, 3));
    assert_eq!(t.get_mutable_screen_buffer_reference().get(0, 0), [100, 100, 100]);
}

#[test]
fn first_resize_to_zero_still_allocates() {
    let mut t = Terminal::new([0, 0, 0], false);
    assert!(t.resize_screen_buffer(0, 0));
    assert!(!t.resize_screen_buffer(0, 0));
    assert!(t.output_screen_buffer().is_empty());
}

#[test]
fn output_colors_true_color_and_ansi() {
    let mut t = Terminal::new([255, 0, 0], true);
    t.resize_screen_buffer(2, 1);
    t.get_mutable_screen_buffer_reference().set(0, 1, [0, 0, 255]);
    assert_eq!(
        t.output_screen_buffer(),
        vec![vec![TerminalColor::Rgb { r: 255, g: 0, b: 0 }, TerminalColor::Rgb { r: 0, g: 0, b: 255 }]]
    );
    let mut a = Terminal::new([255, 0, 0], false);
    a.resize_screen_buffer(2, 2);
    a.get_mutable_screen_buffer_reference().set(1, 1, [0, 0, 255]);
    assert_eq!(
        a.output_screen_buffer(),
        vec![
            vec![TerminalColor::AnsiValue(196), TerminalColor::AnsiValue(196)],
            vec![TerminalColor::AnsiValue(196), TerminalColor::AnsiValue(21)]
        ]
    );
}

#[test]
fn key_presses_and_ctrl_c() {
    let mut t = Terminal::new([0, 0, 0], true);
    assert!(!t.is_ctrl_c_pressed());
    t.update(&[KeyEvent { code: KeyCode::Char('c'), control: true }, KeyEvent { code: KeyCode::Up, control: false }]);
    assert!(t.is_ctrl_c_pressed());
    let keys = t.get_key_presses();
    assert_eq!(keys.len(), 2);
    assert!(keys.contains(&Keys::CtrlC) && keys.contains(&Keys::Up));
    t.update(&[]);
    assert!(!t.is_ctrl_c_pressed());
}
