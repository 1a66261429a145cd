//! The set of keys pressed during a frame, gathered from key events.
use vstd::prelude::*;

verus! {

/// The keys that the renderer reacts to.
#[derive(Clone, Copy, Debug, PartialEq, Eq, Hash, Structural)]
pub enum Keys {
    W,
    A,
    S,
    D,
    C,
    Space,
    CtrlC,
    Up,
    Down,
    Left,
    Right,
}

/// The key of a key event: a character key, an arrow key or any other key.
#[derive(Clone, Copy, Debug, PartialEq, Eq, Structural)]
pub enum KeyCode {
    Char(char),
    Left,
    Right,
    Up,
    Down,
    Other,
}

/// A key press as the terminal reports it: the key and whether Control was held.
#[derive(Clone, Copy, Debug, PartialEq, Eq, Structural)]
pub struct KeyEvent {
    pub code: KeyCode,
    pub control: bool,
}

/// The key that a key event presses, if it is one the renderer reacts to.
/// Letters are matched regardless of case; Control turns C into Ctrl+C.
pub open spec fn key_for_event(event: KeyEvent) -> Option<Keys> {
    match event.code {
        KeyCode::Char(c) => {
            if c == 'c' || c == 'C' {
                if event.control {
                    Some(Keys::CtrlC)
                } else {
                    Some(Keys::C)
                }
            } else if c == 'w' || c == 'W' {
                Some(Keys::W)
            } else if c == 's' || c == 'S' {
                Some(Keys::S)
            } else if c == 'd' || c == 'D' {
                Some(Keys::D)
            } else if c == 'a' || c == 'A' {
                Some(Keys::A)
            } else if c == ' ' {
                Some(Keys::Space)
            } else {
                None
            }
        },
        KeyCode::Left => Some(Keys::Left),
        KeyCode::Right => Some(Keys::Right),
        KeyCode::Up => Some(Keys::Up),
        KeyCode::Down => Some(Keys::Down),
        KeyCode::Other => None,
    }
}

/// The keys that a sequence of key events presses.
pub open spec fn keys_of_events(events: Seq<KeyEvent>) -> Set<Keys> {
    Set::new(|k: Keys| exists|i: int| 0 <= i < events.len() && key_for_event(#[trigger] events[i]) == Some(k))
}

/// The keys currently held down, each recorded once.
pub struct Keyboard {
    pressed_keys: Vec<Keys>,
}

impl View for Keyboard {
    type V = Set<Keys>;

    closed spec fn view(&self) -> Set<Keys> {
        self.pressed_keys@.to_set()
    }
}

impl Keyboard {
    #[verifier::type_invariant]
    spec fn keys_recorded_once(&self) -> bool {
        self.pressed_keys@.no_duplicates()
    }

    /// A keyboard with no key pressed.
    pub fn new() -> (keyboard: Self)
        ensures
            keyboard@ == Set::<Keys>::empty(),
    {
        let keyboard = Self { pressed_keys: Vec::new() };
        assert(keyboard@ =~= Set::<Keys>::empty());
        keyboard
    }

    /// Whether `key` is pressed.
    pub fn is_pressed(&self, key: Keys) -> (pressed: bool)
        ensures
            pressed == self@.contains(key),
    {
        let mut i: usize = 0;
        while i < self.pressed_keys.len()
            invariant
                i <= self.pressed_keys@.len(),
                forall|j: int| 0 <= j < i ==> self.pressed_keys@[j] != key,
            decreases self.pressed_keys@.len() - i,
        {
            if self.pressed_keys[i] == key {
                return true;
            }
            i = i + 1;
        }
        false
    }

    /// The pressed keys, each listed once.
    pub fn pressed_keys(&self) -> (keys: Vec<Keys>)
        ensures
            keys@.to_set() == self@,
            keys@.no_duplicates(),
    {
        proof {
            use_type_invariant(self);
        }
        let mut keys: Vec<Keys> = Vec::new();
        let mut i: usize = 0;
        while i < self.pressed_keys.len()
            invariant
                i <= self.pressed_keys@.len(),
                self.pressed_keys@.no_duplicates(),
                keys@ == self.pressed_keys@.take(i as int),
            decreases self.pressed_keys@.len() - i,
        {
            keys.push(self.pressed_keys[i]);
            i = i + 1;
            assert(keys@ =~= self.pressed_keys@.take(i as int));
        }
        assert(self.pressed_keys@.take(i as int) =~= self.pressed_keys@);
        keys
    }

    /// Records `key` as pressed.
    fn press(&mut self, key: Keys)
        ensures
            final(self)@ == old(self)@.insert(key),
    {
        proof {
            use_type_invariant(&*self);
        }
        if !self.is_pressed(key) {
            let mut keys = self.pressed_keys();
            let ghost before = keys@;
            keys.push(key);
            proof {
                assert forall|k: Keys| #![auto] keys@.to_set().contains(k) <==> old(self)@.insert(key).contains(k) by {
                    if k == key {
                        assert(keys@[keys@.len() - 1] == key);
                    } else if before.contains(k) {
                        let j = choose|j: int| 0 <= j < before.len() && before[j] == k;
                        assert(keys@[j] == k);
                    } else if keys@.contains(k) {
                        let j = choose|j: int| 0 <= j < keys@.len() && keys@[j] == k;
                        assert(before.contains(k));
                    }
                }
                assert(keys@.to_set() =~= old(self)@.insert(key));
            }
            self.pressed_keys = keys;
        } else {
            assert(old(self)@.insert(key) =~= old(self)@);
        }
    }

    /// Records the key that `key_event` presses, if the renderer reacts to it.
    pub fn process_key_event(&mut self, key_event: KeyEvent)
        ensures
            final(self)@ == match key_for_event(key_event) {
                Some(k) => old(self)@.insert(k),
                None => old(self)@,
            },
    {
        match key_event.code {
            KeyCode::Char(c) => {
                if c == 'c' || c == 'C' {
                    if key_event.control {
                        self.press(Keys::CtrlC);
                    } else {
                        self.press(Keys::C);
                    }
                } else if c == 'w' || c == 'W' {
                    self.press(Keys::W);
                } else if c == 's' || c == 'S' {
                    self.press(Keys::S);
                } else if c == 'd' || c == 'D' {
                    self.press(Keys::D);
                } else if c == 'a' || c == 'A' {
                    self.press(Keys::A);
                } else if c == ' ' {
                    self.press(Keys::Space);
                }
            },
            KeyCode::Left => {
                self.press(Keys::Left);
            },
            KeyCode::Right => {
                self.press(Keys::Right);
            },
            KeyCode::Up => {
                self.press(Keys::Up);
            },
            KeyCode::Down => {
                self.press(Keys::Down);
            },
            KeyCode::Other => {},
        }
    }

    /// Forgets every pressed key, then records the keys that `key_events`, the
    /// events that arrived since the last frame, press.
    pub fn update(&mut self, key_events: &[KeyEvent])
        ensures
            final(self)@ == keys_of_events(key_events@),
    {
        self.pressed_keys = Vec::new();
        let mut i: usize = 0;
        while i < key_events.len()
            invariant
                i <= key_events@.len(),
                self@ == keys_of_events(key_events@.take(i as int)),
            decreases key_events@.len() - i,
        {
            let ghost before = self@;
            self.process_key_event(key_events[i]);
            i = i + 1;
            proof {
                let evs = key_events@.take(i as int);
                let prev = key_events@.take(i - 1);
                assert forall|k: Keys| #![auto] self@.contains(k) <==> keys_of_events(evs).contains(k) by {
                    if keys_of_events(evs).contains(k) {
                        let j = choose|j: int| 0 <= j < evs.len() && key_for_event(#[trigger] evs[j]) == Some(k);
                        if j < i - 1 {
                            assert(prev[j] == evs[j]);
                        }
                    }
                    if self@.contains(k) && before.contains(k) {
                        let j = choose|j: int| 0 <= j < prev.len() && key_for_event(#[trigger] prev[j]) == Some(k);
                        assert(evs[j] == prev[j]);
                    }
                    if self@.contains(k) && !before.contains(k) {
                        assert(evs[i - 1] == key_events@[i - 1]);
                    }
                }
                assert(self@ =~= keys_of_events(evs));
            }
        }
        assert(key_events@.take(i as int) =~= key_events@);
    }
}

/// Letters are recognised whatever their case.
pub proof fn lemma_letter_case_ignored(control: bool)
    ensures
        key_for_event(KeyEvent { code: KeyCode::Char('w'), control }) == key_for_event(
            KeyEvent { code: KeyCode::Char('W'), control },
        ),
        key_for_event(KeyEvent { code: KeyCode::Char('a'), control }) == key_for_event(
            KeyEvent { code: KeyCode::Char('A'), control },
        ),
        key_for_event(KeyEvent { code: KeyCode::Char('s'), control }) == key_for_event(
            KeyEvent { code: KeyCode::Char('S'), control },
        ),
        key_for_event(KeyEvent { code: KeyCode::Char('d'), control }) == key_for_event(
            KeyEvent { code: KeyCode::Char('D'), control },
        ),
        key_for_event(KeyEvent { code: KeyCode::Char('c'), control }) == key_for_event(
            KeyEvent { code: KeyCode::Char('C'), control },
        ),
{
}

/// Holding Control changes only what C presses: Ctrl+C in place of C.
pub proof fn lemma_control_only_changes_c(code: KeyCode)
    ensures
        code != KeyCode::Char('c') && code != KeyCode::Char('C') ==> key_for_event(
            KeyEvent { code, control: true },
        ) == key_for_event(KeyEvent { code, control: false }),
        key_for_event(KeyEvent { code: KeyCode::Char('c'), control: true }) == Some(Keys::CtrlC),
        key_for_event(KeyEvent { code: KeyCode::Char('c'), control: false }) == Some(Keys::C),
{
}

/// Each arrow key presses the key of the same direction, whether or not
/// Control is held.
pub proof fn lemma_arrows_press_their_direction(control: bool)
    ensures
        key_for_event(KeyEvent { code: KeyCode::Left, control }) == Some(Keys::Left),
        key_for_event(KeyEvent { code: KeyCode::Right, control }) == Some(Keys::Right),
        key_for_event(KeyEvent { code: KeyCode::Up, control }) == Some(Keys::Up),
        key_for_event(KeyEvent { code: KeyCode::Down, control }) == Some(Keys::Down),
{
}

/// Each letter key presses the key of the same letter (Ctrl+C aside), the
/// space bar presses `Space`, and no other key is pressed by any other code.
pub proof fn lemma_keys_pressed_by_each_code(code: KeyCode, control: bool)
    ensures
        key_for_event(KeyEvent { code: KeyCode::Char('w'), control }) == Some(Keys::W),
        key_for_event(KeyEvent { code: KeyCode::Char('a'), control }) == Some(Keys::A),
        key_for_event(KeyEvent { code: KeyCode::Char('s'), control }) == Some(Keys::S),
        key_for_event(KeyEvent { code: KeyCode::Char('d'), control }) == Some(Keys::D),
        key_for_event(KeyEvent { code: KeyCode::Char(' '), control }) == Some(Keys::Space),
        key_for_event(KeyEvent { code: KeyCode::Other, control }) is None,
        key_for_event(KeyEvent { code, control }) == Some(Keys::Right) <==> code == KeyCode::Right,
        key_for_event(KeyEvent { code, control }) == Some(Keys::Left) <==> code == KeyCode::Left,
        key_for_event(KeyEvent { code, control }) == Some(Keys::Up) <==> code == KeyCode::Up,
        key_for_event(KeyEvent { code, control }) == Some(Keys::Down) <==> code == KeyCode::Down,
{
}

/// A frame whose only event is an arrow key has exactly that direction
/// pressed.
pub proof fn lemma_arrow_event_presses_its_key(control: bool)
    ensures
        keys_of_events(seq![KeyEvent { code: KeyCode::Right, control }]) == set![Keys::Right],
        keys_of_events(seq![KeyEvent { code: KeyCode::Left, control }]) == set![Keys::Left],
        keys_of_events(seq![KeyEvent { code: KeyCode::Up, control }]) == set![Keys::Up],
        keys_of_events(seq![KeyEvent { code: KeyCode::Down, control }]) == set![Keys::Down],
{
    let evs = seq![KeyEvent { code: KeyCode::Right, control }];
    assert(key_for_event(evs[0]) == Some(Keys::Right));
    assert(keys_of_events(evs) =~= set![Keys::Right]);
    let evs = seq![KeyEvent { code: KeyCode::Left, control }];
    assert(key_for_event(evs[0]) == Some(Keys::Left));
    assert(keys_of_events(evs) =~= set![Keys::Left]);
    let evs = seq![KeyEvent { code: KeyCode::Up, control }];
    assert(key_for_event(evs[0]) == Some(Keys::Up));
    assert(keys_of_events(evs) =~= set![Keys::Up]);
    let evs = seq![KeyEvent { code: KeyCode::Down, control }];
    assert(key_for_event(evs[0]) == Some(Keys::Down));
    assert(keys_of_events(evs) =~= set![Keys::Down]);
}

} // verus!
