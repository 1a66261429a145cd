//! How the pressed keys steer the controllable camera: the direction of its
//! motion in its own frame and the sense of its yaw and pitch rotation.
use vstd::prelude::*;
use crate::keyboard::Keys;

verus! {

/// The steering that a set of pressed keys asks of the camera, in units of
/// the camera's linear and angular speeds: `x` to the right (D, minus A),
/// `y` upwards (Space, minus C), `z` backwards (S, minus W), `yaw` to the
/// right (Right, minus Left) and `pitch` upwards (Up, minus Down).
#[derive(Copy, Clone, Debug, PartialEq, Eq, Structural)]
pub struct MovementIntent {
    pub x: i64,
    pub y: i64,
    pub z: i64,
    pub yaw: i64,
    pub pitch: i64,
}

/// The number of times `positive` occurs in `keys` minus the number of times
/// `negative` does.
pub open spec fn key_balance(keys: Seq<Keys>, positive: Keys, negative: Keys) -> int
    decreases keys.len(),
{
    if keys.len() == 0 {
        0
    } else {
        let k = keys.last();
        key_balance(keys.drop_last(), positive, negative) + (if k == positive {
            1int
        } else if k == negative {
            -1int
        } else {
            0
        })
    }
}

/// The steering that `keys` asks for.
pub open spec fn intent_of(keys: Seq<Keys>) -> MovementIntent {
    MovementIntent {
        x: key_balance(keys, Keys::D, Keys::A) as i64,
        y: key_balance(keys, Keys::Space, Keys::C) as i64,
        z: key_balance(keys, Keys::S, Keys::W) as i64,
        yaw: key_balance(keys, Keys::Right, Keys::Left) as i64,
        pitch: key_balance(keys, Keys::Up, Keys::Down) as i64,
    }
}

proof fn lemma_key_balance_bounded(keys: Seq<Keys>, positive: Keys, negative: Keys)
    ensures
        -keys.len() <= key_balance(keys, positive, negative) <= keys.len(),
    decreases keys.len(),
{
    if keys.len() > 0 {
        lemma_key_balance_bounded(keys.drop_last(), positive, negative);
    }
}

fn balance_step(count: i64, key: Keys, positive: Keys, negative: Keys) -> (next: i64)
    requires
        i64::MIN < count < i64::MAX,
    ensures
        next == count + (if key == positive {
            1int
        } else if key == negative {
            -1int
        } else {
            0
        }),
{
    if key == positive {
        count + 1
    } else if key == negative {
        count - 1
    } else {
        count
    }
}

/// The steering that the pressed keys ask of the camera; each key counts
/// once for every time it is listed.
pub fn movement_intent(pressed_keys: &[Keys]) -> (intent: MovementIntent)
    requires
        pressed_keys@.len() < i64::MAX,
    ensures
        intent == intent_of(pressed_keys@),
{
    let mut x: i64 = 0;
    let mut y: i64 = 0;
    let mut z: i64 = 0;
    let mut yaw: i64 = 0;
    let mut pitch: i64 = 0;
    let mut i: usize = 0;
    while i < pressed_keys.len()
        invariant
            i <= pressed_keys@.len() < i64::MAX,
            x == key_balance(pressed_keys@.take(i as int), Keys::D, Keys::A),
            y == key_balance(pressed_keys@.take(i as int), Keys::Space, Keys::C),
            z == key_balance(pressed_keys@.take(i as int), Keys::S, Keys::W),
            yaw == key_balance(pressed_keys@.take(i as int), Keys::Right, Keys::Left),
            pitch == key_balance(pressed_keys@.take(i as int), Keys::Up, Keys::Down),
        decreases pressed_keys@.len() - i,
    {
        let ghost prefix = pressed_keys@.take(i as int);
        proof {
            lemma_key_balance_bounded(prefix, Keys::D, Keys::A);
            lemma_key_balance_bounded(prefix, Keys::Space, Keys::C);
            lemma_key_balance_bounded(prefix, Keys::S, Keys::W);
            lemma_key_balance_bounded(prefix, Keys::Right, Keys::Left);
            lemma_key_balance_bounded(prefix, Keys::Up, Keys::Down);
        }
        let key = pressed_keys[i];
        x = balance_step(x, key, Keys::D, Keys::A);
        y = balance_step(y, key, Keys::Space, Keys::C);
        z = balance_step(z, key, Keys::S, Keys::W);
        yaw = balance_step(yaw, key, Keys::Right, Keys::Left);
        pitch = balance_step(pitch, key, Keys::Up, Keys::Down);
        i = i + 1;
        proof {
            assert(pressed_keys@.take(i as int).drop_last() =~= prefix);
        }
    }
    assert(pressed_keys@.take(i as int) =~= pressed_keys@);
    MovementIntent { x, y, z, yaw, pitch }
}

proof fn lemma_key_balance_counts(keys: Seq<Keys>, positive: Keys, negative: Keys)
    requires
        positive != negative,
        keys.no_duplicates(),
    ensures
        key_balance(keys, positive, negative) == (if keys.contains(positive) {
            1int
        } else {
            0
        }) - (if keys.contains(negative) {
            1int
        } else {
            0
        }),
    decreases keys.len(),
{
    if keys.len() > 0 {
        let rest = keys.drop_last();
        assert(rest.no_duplicates());
        lemma_key_balance_counts(rest, positive, negative);
        assert(forall|k: Keys| keys.contains(k) <==> (rest.contains(k) || keys.last() == k)) by {
            assert forall|k: Keys| keys.contains(k) implies (rest.contains(k) || keys.last() == k) by {
                let j = choose|j: int| 0 <= j < keys.len() && keys[j] == k;
                if j < keys.len() - 1 {
                    assert(rest[j] == k);
                }
            }
            assert forall|k: Keys| rest.contains(k) implies keys.contains(k) by {
                let j = choose|j: int| 0 <= j < rest.len() && rest[j] == k;
                assert(keys[j] == k);
            }
        }
        if rest.contains(keys.last()) {
            let j = choose|j: int| 0 <= j < rest.len() && rest[j] == keys.last();
            assert(keys[j] == keys[keys.len() - 1]);
        }
    }
}

/// For a set of pressed keys (each listed once), each opposite pair of keys
/// cancels: every component of the steering is 1 when only its positive key
/// is pressed, -1 when only its negative key is, and 0 otherwise.
pub proof fn lemma_intent_of_key_set(keys: Seq<Keys>)
    requires
        keys.no_duplicates(),
    ensures
        intent_of(keys).x == (if keys.contains(Keys::D) { 1int } else { 0 }) - (if keys.contains(Keys::A) { 1int } else { 0 }),
        intent_of(keys).y == (if keys.contains(Keys::Space) { 1int } else { 0 }) - (if keys.contains(Keys::C) { 1int } else { 0 }),
        intent_of(keys).z == (if keys.contains(Keys::S) { 1int } else { 0 }) - (if keys.contains(Keys::W) { 1int } else { 0 }),
        intent_of(keys).yaw == (if keys.contains(Keys::Right) { 1int } else { 0 }) - (if keys.contains(Keys::Left) { 1int } else { 0 }),
        intent_of(keys).pitch == (if keys.contains(Keys::Up) { 1int } else { 0 }) - (if keys.contains(Keys::Down) { 1int } else { 0 }),
{
    lemma_key_balance_counts(keys, Keys::D, Keys::A);
    lemma_key_balance_counts(keys, Keys::Space, Keys::C);
    lemma_key_balance_counts(keys, Keys::S, Keys::W);
    lemma_key_balance_counts(keys, Keys::Right, Keys::Left);
    lemma_key_balance_counts(keys, Keys::Up, Keys::Down);
}

} // verus!
