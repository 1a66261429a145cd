//! The terminal's frame state: the screen buffer sized to the window, the
//! keys pressed during the frame, and the colours that a frame is printed in.
use vstd::prelude::*;
use crate::buffer::{Buffer, filled_grid, grid_has_shape};
use crate::graphics::{ansi_cube_code, in_cube_band, lemma_ansi_code_from_bands};
use crate::keyboard::{Keyboard, KeyEvent, Keys, keys_of_events};

verus! {

/// A background colour that the terminal prints a cell in.
#[derive(Clone, Copy, Debug, PartialEq, Eq, Structural)]
pub enum TerminalColor {
    /// A 24-bit colour.
    Rgb { r: u8, g: u8, b: u8 },
    /// An index into the ANSI 256-colour palette.
    AnsiValue(u8),
}

/// The abstract state of a terminal.
pub struct TerminalView {
    pub width: usize,
    pub height: usize,
    pub default_color: [u8; 3],
    pub use_true_color: bool,
    /// The screen buffer's pixels, once one has been allocated.
    pub screen: Option<Seq<Seq<[u8; 3]>>>,
    /// The keys pressed during the current frame.
    pub pressed_keys: Set<Keys>,
}

/// Whether sizing the screen of terminal `t` to `new_width` x `new_height`
/// must allocate a new screen buffer (and clear the screen): the size
/// changed, or there is no buffer yet.
pub open spec fn needs_new_screen(t: TerminalView, new_width: usize, new_height: usize) -> bool {
    new_width != t.width || new_height != t.height || t.screen is None
}

/// Terminal `t` with its screen sized to `new_width` x `new_height`: a
/// fresh buffer filled with the default colour when one is needed, otherwise
/// `t` unchanged.
pub open spec fn resized(t: TerminalView, new_width: usize, new_height: usize) -> TerminalView {
    if needs_new_screen(t, new_width, new_height) {
        TerminalView {
            width: new_width,
            height: new_height,
            screen: Some(filled_grid(t.default_color, new_width as nat, new_height as nat)),
            ..t
        }
    } else {
        t
    }
}

/// The colour that a pixel is printed in: the pixel itself in true-colour
/// mode, else its nearest ANSI colour cube entry.
pub open spec fn printed_color(pixel: [u8; 3], use_true_color: bool) -> TerminalColor {
    if use_true_color {
        TerminalColor::Rgb { r: pixel[0], g: pixel[1], b: pixel[2] }
    } else {
        TerminalColor::AnsiValue(ansi_cube_code(pixel[0], pixel[1], pixel[2]) as u8)
    }
}

/// The terminal window: a screen buffer sized to the window and the keyboard.
pub struct Terminal {
    width: usize,
    height: usize,
    default_color: [u8; 3],
    use_true_color: bool,
    screen_buffer: Option<Buffer<[u8; 3]>>,
    keyboard: Keyboard,
}

impl View for Terminal {
    type V = TerminalView;

    closed spec fn view(&self) -> TerminalView {
        TerminalView {
            width: self.width,
            height: self.height,
            default_color: self.default_color,
            use_true_color: self.use_true_color,
            screen: match self.screen_buffer {
                Some(b) => Some(b@),
                None => None,
            },
            pressed_keys: self.keyboard@,
        }
    }
}

impl Terminal {
    /// The screen buffer, when there is one, has the terminal's size.
    pub closed spec fn wf(&self) -> bool {
        match self.screen_buffer {
            Some(b) => b.wf() && b.width() == self.width && b.height() == self.height,
            None => true,
        }
    }

    /// The screen buffer.
    pub closed spec fn spec_screen_buffer(&self) -> Buffer<[u8; 3]> {
        self.screen_buffer.unwrap()
    }

    /// A terminal with no screen buffer yet and no key pressed.
    pub fn new(default_color: [u8; 3], use_true_color: bool) -> (terminal: Self)
        ensures
            terminal.wf(),
            terminal@ == (TerminalView {
                width: 0,
                height: 0,
                default_color,
                use_true_color,
                screen: None,
                pressed_keys: Set::empty(),
            }),
    {
        Self {
            width: 0,
            height: 0,
            default_color,
            use_true_color,
            screen_buffer: None,
            keyboard: Keyboard::new(),
        }
    }

    /// Records the keys pressed by the key events that arrived since the
    /// last frame, forgetting those of the frame before.
    pub fn update(&mut self, key_events: &[KeyEvent])
        requires
            old(self).wf(),
        ensures
            final(self).wf(),
            final(self)@ == (TerminalView { pressed_keys: keys_of_events(key_events@), ..old(self)@ }),
    {
        self.keyboard.update(key_events);
    }

    /// The keys pressed during this frame, each listed once.
    pub fn get_key_presses(&self) -> (keys: Vec<Keys>)
        ensures
            keys@.to_set() == self@.pressed_keys,
            keys@.no_duplicates(),
    {
        self.keyboard.pressed_keys()
    }

    /// Whether Ctrl+C was pressed during this frame.
    pub fn is_ctrl_c_pressed(&self) -> (pressed: bool)
        ensures
            pressed == self@.pressed_keys.contains(Keys::CtrlC),
    {
        self.keyboard.is_pressed(Keys::CtrlC)
    }

    /// Sizes the screen to `new_width` x `new_height`, which the caller has
    /// measured the window to be: when the size changed, or there is no screen
    /// buffer yet, a new one filled with the default colour replaces it and
    /// `true` tells the caller to clear the screen.
    pub fn resize_screen_buffer(&mut self, new_width: usize, new_height: usize) -> (cleared: bool)
        requires
            old(self).wf(),
        ensures
            final(self).wf(),
            cleared == needs_new_screen(old(self)@, new_width, new_height),
            final(self)@ == resized(old(self)@, new_width, new_height),
            final(self)@.screen is Some,
    {
        if new_width != self.width || new_height != self.height || self.screen_buffer.is_none() {
            self.width = new_width;
            self.height = new_height;
            self.screen_buffer = Some(Buffer::<[u8; 3]>::new(self.default_color, self.width, self.height));
            true
        } else {
            false
        }
    }

    /// The screen buffer, to render a frame into: its cells are the
    /// terminal's screen, and what is written into them becomes the screen.
    pub fn get_mutable_screen_buffer_reference(&mut self) -> (buffer: &mut Buffer<[u8; 3]>)
        requires
            old(self).wf(),
            old(self)@.screen is Some,
        ensures
            *buffer == old(self).spec_screen_buffer(),
            buffer@ == old(self)@.screen->0,
            buffer.wf(),
            buffer.width() == old(self)@.width,
            buffer.height() == old(self)@.height,
            final(self).spec_screen_buffer() == *final(buffer),
            final(self)@ == (TerminalView { screen: Some(final(buffer)@), ..old(self)@ }),
            final(self).wf() == (final(buffer).wf() && final(buffer).width() == old(self)@.width
                && final(buffer).height() == old(self)@.height),
    {
        self.screen_buffer.as_mut().unwrap()
    }

    /// The colour of every cell of the screen, row by row, as the terminal
    /// prints it: the pixel itself in true-colour mode, else the nearest
    /// entry of the ANSI colour cube.
    pub fn output_screen_buffer(&self) -> (colors: Vec<Vec<TerminalColor>>)
        requires
            self.wf(),
            self@.screen is Some,
        ensures
            colors@.len() == self@.height,
            forall|y: int|
                0 <= y < self@.height ==> (#[trigger] colors@[y])@.len() == self@.width,
            forall|y: int, x: int|
                0 <= y < self@.height && 0 <= x < self@.width ==> #[trigger] colors@[y]@[x]
                    == printed_color(self@.screen->0[y][x], self@.use_true_color),
    {
        let screen_buffer = self.screen_buffer.as_ref().unwrap();
        let mut colors: Vec<Vec<TerminalColor>> = Vec::new();
        let mut y: usize = 0;
        while y < self.height
            invariant
                y <= self.height,
                screen_buffer.wf(),
                screen_buffer.width() == self.width,
                screen_buffer.height() == self.height,
                self@.screen == Some(screen_buffer@),
                colors@.len() == y,
                forall|j: int| 0 <= j < y ==> (#[trigger] colors@[j])@.len() == self.width,
                forall|j: int, x: int|
                    0 <= j < y && 0 <= x < self.width ==> #[trigger] colors@[j]@[x] == printed_color(
                        screen_buffer@[j][x],
                        self.use_true_color,
                    ),
            decreases self.height - y,
        {
            let mut row: Vec<TerminalColor> = Vec::new();
            let mut x: usize = 0;
            while x < self.width
                invariant
                    x <= self.width,
                    y < self.height,
                    screen_buffer.wf(),
                    screen_buffer.width() == self.width,
                    screen_buffer.height() == self.height,
                    row@.len() == x,
                    forall|i: int| 0 <= i < x ==> #[trigger] row@[i] == printed_color(
                        screen_buffer@[y as int][i],
                        self.use_true_color,
                    ),
                decreases self.width - x,
            {
                let pixel = screen_buffer.get(y, x);
                let r = pixel[0];
                let g = pixel[1];
                let b = pixel[2];
                let color = if self.use_true_color {
                    TerminalColor::Rgb { r, g, b }
                } else {
                    TerminalColor::AnsiValue(rgb_to_ansi256(r, g, b))
                };
                row.push(color);
                x = x + 1;
            }
            colors.push(row);
            y = y + 1;
        }
        colors
    }
}

fn rgb_channel_to_ansi_index(v: u8) -> (level: u8)
    ensures
        level == crate::graphics::ansi_cube_level(v),
{
    // the ansi rgb values are on the scale 0-5
    // 0-95 map to 0, 95-255 map to 1-5
    if v < 95 {
        return 0;
    }
    1 + (v - 95) / 40
}

/// The ANSI 256-colour palette index that approximates the colour `(r, g, b)`.
pub fn rgb_to_ansi256(r: u8, g: u8, b: u8) -> (code: u8)
    ensures
        code == ansi_cube_code(r, g, b),
{
    let rc = rgb_channel_to_ansi_index(r);
    let gc = rgb_channel_to_ansi_index(g);
    let bc = rgb_channel_to_ansi_index(b);
    16 + 36 * rc + 6 * gc + bc
}

/// Sizing the screen is idempotent: once sized to `w` x `h`, sizing it to the
/// same size again needs no new buffer and changes nothing.
pub proof fn lemma_resize_idempotent(t: TerminalView, w: usize, h: usize)
    ensures
        !needs_new_screen(resized(t, w, h), w, h),
        resized(resized(t, w, h), w, h) == resized(t, w, h),
        resized(t, w, h).width == w,
        resized(t, w, h).height == h,
{
}

/// A freshly sized screen has the new size and shows only the default colour.
pub proof fn lemma_new_screen_is_blank(t: TerminalView, w: usize, h: usize)
    requires
        needs_new_screen(t, w, h),
    ensures
        grid_has_shape(resized(t, w, h).screen->0, w as nat, h as nat),
        forall|y: int, x: int|
            0 <= y < h && 0 <= x < w ==> #[trigger] resized(t, w, h).screen->0[y][x] == t.default_color,
{
}

/// In ANSI mode every pixel, grey or not, is printed as the colour-cube
/// entry `16 + 36 r + 6 g + b` of the bands `r`, `g`, `b` that hold its
/// channels, an index from 16 to 231; in true-colour mode it is printed as
/// itself.
pub proof fn lemma_printed_color_is_cube_entry(p: [u8; 3], lr: int, lg: int, lb: int)
    requires
        in_cube_band(p[0], lr),
        in_cube_band(p[1], lg),
        in_cube_band(p[2], lb),
    ensures
        printed_color(p, false) == TerminalColor::AnsiValue((16 + 36 * lr + 6 * lg + lb) as u8),
        16 <= 16 + 36 * lr + 6 * lg + lb <= 231,
        printed_color(p, true) == (TerminalColor::Rgb { r: p[0], g: p[1], b: p[2] }),
{
    lemma_ansi_code_from_bands(p[0], p[1], p[2], lr, lg, lb);
}

} // verus!
