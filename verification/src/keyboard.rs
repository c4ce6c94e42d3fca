//! Keyboard state tracking: which keys are held, and which went down or
//! up since the last frame, plus named key mappings.

use vstd::prelude::*;
use crate::events::KeyCode;

verus! {

/// Adds a key to a list if it is not there yet.
fn insert_key(v: &mut Vec<KeyCode>, key: KeyCode)
    ensures
        forall|k: KeyCode| final(v)@.contains(k) == (old(v)@.contains(k) || k == key),
{
    let mut i: usize = 0;
    while i < v.len()
        invariant
            i <= v@.len(),
            forall|j: int| 0 <= j < i ==> v@[j] != key,
        decreases v@.len() - i,
    {
        if v[i] == key {
            proof {
                assert(v@.contains(key)) by {
                    assert(v@[i as int] == key);
                }
            }
            return ;
        }
        i = i + 1;
    }
    let ghost oldv = v@;
    v.push(key);
    proof {
        assert forall|k: KeyCode| #[trigger] v@.contains(k) == (oldv.contains(k) || k == key) by {
            if oldv.contains(k) {
                let w = choose|w: int| 0 <= w < oldv.len() && #[trigger] oldv[w] == k;
                assert(v@[w] == k);
                assert(v@.contains(k));
            }
            if k == key {
                assert(v@[v@.len() - 1] == k);
                assert(v@.contains(k));
            }
            if v@.contains(k) && !oldv.contains(k) {
                let w = choose|w: int| 0 <= w < v@.len() && #[trigger] v@[w] == k;
                if w < v@.len() - 1 {
                    assert(oldv[w] == k);
                    assert(oldv.contains(k));
                    assert(false);
                } else {
                    assert(k == key);
                }
            }
        }
        assert(forall|k: KeyCode|
            #[trigger] v@.contains(k) == (old(v)@.contains(k) || k == key));
    }
}

/// Removes a key from a list.
fn remove_key(v: &mut Vec<KeyCode>, key: KeyCode)
    ensures
        forall|k: KeyCode| final(v)@.contains(k) == (old(v)@.contains(k) && k != key),
{
    let mut out: Vec<KeyCode> = Vec::new();
    let mut i: usize = 0;
    while i < v.len()
        invariant
            i <= v@.len(),
            forall|j: int| 0 <= j < out@.len() ==> (#[trigger] out@[j]) != key,
            forall|j: int| 0 <= j < out@.len() ==> v@.contains(#[trigger] out@[j]),
            forall|k: KeyCode|
                (#[trigger] v@.take(i as int).contains(k)) && k != key ==> out@.contains(k),
        decreases v@.len() - i,
    {
        let c = v[i];
        let ghost oldout = out@;
        if !(c == key) {
            out.push(c);
        }
        proof {
            assert(v@.contains(c)) by {
                assert(v@[i as int] == c);
            }
            if c != key {
                assert(forall|j: int|
                    0 <= j < oldout.len() ==> #[trigger] out@[j] == oldout[j]);
                assert(out@[out@.len() - 1] == c);
            }
            assert forall|k: KeyCode|
                (#[trigger] v@.take(i as int + 1).contains(k)) && k != key implies out@.contains(
                k,
            ) by {
                let w = choose|w: int|
                    0 <= w < i + 1 && #[trigger] v@.take(i as int + 1)[w] == k;
                if w < i {
                    assert(v@.take(i as int)[w] == k);
                    assert(v@.take(i as int).contains(k));
                    let u = choose|u: int| 0 <= u < oldout.len() && #[trigger] oldout[u] == k;
                    assert(out@[u] == k);
                    assert(out@.contains(k));
                } else {
                    assert(k == c);
                    assert(out@[out@.len() - 1] == k);
                    assert(out@.contains(k));
                }
            }
        }
        i = i + 1;
    }
    proof {
        assert(v@.take(v@.len() as int) =~= v@);
        assert forall|k: KeyCode| out@.contains(k) == (v@.contains(k) && k != key) by {
            if out@.contains(k) {
                let w = choose|w: int| 0 <= w < out@.len() && #[trigger] out@[w] == k;
                assert(out@[w] != key);
                assert(v@.contains(out@[w]));
            }
            if v@.contains(k) && k != key {
                assert(v@.take(v@.len() as int).contains(k));
                assert(out@.contains(k));
            }
        }
    }
    *v = out;
    proof {
        assert(forall|k: KeyCode|
            #[trigger] final(v)@.contains(k) == (old(v)@.contains(k) && k != key));
    }
}

/// Which keys are held, and which went down or up since the last
/// update.
#[derive(Debug)]
pub struct KeyboardState {
    keys_down: Vec<KeyCode>,
    keys_pressed: Vec<KeyCode>,
    keys_released: Vec<KeyCode>,
}

impl KeyboardState {
    /// The key is currently held.
    pub closed spec fn spec_down(&self, key: KeyCode) -> bool {
        self.keys_down@.contains(key)
    }

    /// The key went down since the last update.
    pub closed spec fn spec_pressed(&self, key: KeyCode) -> bool {
        self.keys_pressed@.contains(key)
    }

    /// The key went up since the last update.
    pub closed spec fn spec_released(&self, key: KeyCode) -> bool {
        self.keys_released@.contains(key)
    }

    /// A state with no keys held and nothing pending.
    pub fn new() -> (s: KeyboardState)
        ensures
            forall|k: KeyCode| !s.spec_down(k) && !s.spec_pressed(k) && !s.spec_released(k),
    {
        KeyboardState { keys_down: Vec::new(), keys_pressed: Vec::new(), keys_released: Vec::new() }
    }

    /// Marks a key as held; if it was up, it also counts as newly
    /// pressed.
    pub fn key_down(&mut self, key: KeyCode)
        ensures
            forall|k: KeyCode| final(self).spec_down(k) == (old(self).spec_down(k) || k == key),
            forall|k: KeyCode|
                final(self).spec_pressed(k) == (old(self).spec_pressed(k) || (k == key
                    && !old(self).spec_down(key))),
            forall|k: KeyCode| final(self).spec_released(k) == old(self).spec_released(k),
    {
        if !self.is_key_down(key) {
            insert_key(&mut self.keys_pressed, key);
        }
        insert_key(&mut self.keys_down, key);
    }

    /// Marks a key as up and newly released.
    pub fn key_up(&mut self, key: KeyCode)
        ensures
            forall|k: KeyCode| final(self).spec_down(k) == (old(self).spec_down(k) && k != key),
            forall|k: KeyCode| final(self).spec_pressed(k) == old(self).spec_pressed(k),
            forall|k: KeyCode|
                final(self).spec_released(k) == (old(self).spec_released(k) || k == key),
    {
        remove_key(&mut self.keys_down, key);
        insert_key(&mut self.keys_released, key);
    }

    /// The key is currently held.
    pub fn is_key_down(&self, key: KeyCode) -> (r: bool)
        ensures
            r == self.spec_down(key),
    {
        let mut i: usize = 0;
        while i < self.keys_down.len()
            invariant
                i <= self.keys_down@.len(),
                forall|j: int| 0 <= j < i ==> self.keys_down@[j] != key,
            decreases self.keys_down@.len() - i,
        {
            if self.keys_down[i] == key {
                return true;
            }
            i = i + 1;
        }
        false
    }

    /// The key went down since the last update.
    pub fn is_key_pressed(&self, key: KeyCode) -> (r: bool)
        ensures
            r == self.spec_pressed(key),
    {
        let mut i: usize = 0;
        while i < self.keys_pressed.len()
            invariant
                i <= self.keys_pressed@.len(),
                forall|j: int| 0 <= j < i ==> self.keys_pressed@[j] != key,
            decreases self.keys_pressed@.len() - i,
        {
            if self.keys_pressed[i] == key {
                return true;
            }
            i = i + 1;
        }
        false
    }

    /// The key went up since the last update.
    pub fn is_key_released(&self, key: KeyCode) -> (r: bool)
        ensures
            r == self.spec_released(key),
    {
        let mut i: usize = 0;
        while i < self.keys_released.len()
            invariant
                i <= self.keys_released@.len(),
                forall|j: int| 0 <= j < i ==> self.keys_released@[j] != key,
            decreases self.keys_released@.len() - i,
        {
            if self.keys_released[i] == key {
                return true;
            }
            i = i + 1;
        }
        false
    }

    /// Forgets the pressed and released edges, keeping the held keys.
    pub fn update(&mut self)
        ensures
            forall|k: KeyCode| final(self).spec_down(k) == old(self).spec_down(k),
            forall|k: KeyCode| !final(self).spec_pressed(k) && !final(self).spec_released(k),
    {
        self.keys_pressed = Vec::new();
        self.keys_released = Vec::new();
    }

    /// Forgets everything.
    pub fn reset(&mut self)
        ensures
            forall|k: KeyCode|
                !final(self).spec_down(k) && !final(self).spec_pressed(k)
                    && !final(self).spec_released(k),
    {
        self.keys_down = Vec::new();
        self.keys_pressed = Vec::new();
        self.keys_released = Vec::new();
    }

    /// Routes a state change to `key_down` or `key_up`.
    pub fn set_key_state(&mut self, key: KeyCode, down: bool)
        ensures
            down ==> forall|k: KeyCode|
                final(self).spec_down(k) == (old(self).spec_down(k) || k == key),
            !down ==> forall|k: KeyCode|
                final(self).spec_down(k) == (old(self).spec_down(k) && k != key),
    {
        if down {
            self.key_down(key);
        } else {
            self.key_up(key);
        }
    }
}

/// Named groups of keys for the common actions.
#[derive(Debug)]
pub struct KeyMapping {
    pub left: Vec<KeyCode>,
    pub right: Vec<KeyCode>,
    pub up: Vec<KeyCode>,
    pub down: Vec<KeyCode>,
    pub confirm: Vec<KeyCode>,
    pub cancel: Vec<KeyCode>,
    pub pause: Vec<KeyCode>,
}

impl Default for KeyMapping {
    /// The menu-style mapping.
    fn default() -> (m: KeyMapping)
        ensures
            m.left@ == seq![KeyCode::Left, KeyCode::A],
            m.right@ == seq![KeyCode::Right, KeyCode::D],
            m.up@ == seq![KeyCode::Up, KeyCode::W],
            m.down@ == seq![KeyCode::Down, KeyCode::S],
            m.confirm@ == seq![KeyCode::Enter, KeyCode::Space, KeyCode::Z],
            m.cancel@ == seq![KeyCode::Escape, KeyCode::Backspace, KeyCode::X],
            m.pause@ == seq![KeyCode::Escape, KeyCode::P],
    {
        let m = KeyMapping {
            left: vec![KeyCode::Left, KeyCode::A],
            right: vec![KeyCode::Right, KeyCode::D],
            up: vec![KeyCode::Up, KeyCode::W],
            down: vec![KeyCode::Down, KeyCode::S],
            confirm: vec![KeyCode::Enter, KeyCode::Space, KeyCode::Z],
            cancel: vec![KeyCode::Escape, KeyCode::Backspace, KeyCode::X],
            pause: vec![KeyCode::Escape, KeyCode::P],
        };
        proof {
            assert(m.left@ =~= seq![KeyCode::Left, KeyCode::A]);
            assert(m.right@ =~= seq![KeyCode::Right, KeyCode::D]);
            assert(m.up@ =~= seq![KeyCode::Up, KeyCode::W]);
            assert(m.down@ =~= seq![KeyCode::Down, KeyCode::S]);
            assert(m.confirm@ =~= seq![KeyCode::Enter, KeyCode::Space, KeyCode::Z]);
            assert(m.cancel@ =~= seq![KeyCode::Escape, KeyCode::Backspace, KeyCode::X]);
            assert(m.pause@ =~= seq![KeyCode::Escape, KeyCode::P]);
        }
        m
    }
}

/// Some key of the group reports true under the predicate's exec twin.
pub open spec fn any_pressed(ks: &KeyboardState, group: Seq<KeyCode>) -> bool {
    exists|i: int| 0 <= i < group.len() && ks.spec_pressed(#[trigger] group[i])
}

/// Some key of the group is held.
pub open spec fn any_down(ks: &KeyboardState, group: Seq<KeyCode>) -> bool {
    exists|i: int| 0 <= i < group.len() && ks.spec_down(#[trigger] group[i])
}

impl KeyMapping {
    /// The four-lane play mapping.
    pub fn for_4k() -> (m: KeyMapping)
        ensures
            m.left@ == seq![KeyCode::D, KeyCode::F],
            m.right@ == seq![KeyCode::J, KeyCode::K],
            m.up@ == seq![KeyCode::Space, KeyCode::W],
            m.down@ == seq![KeyCode::S],
            m.confirm@ == seq![KeyCode::Enter, KeyCode::Space],
            m.cancel@ == seq![KeyCode::Escape, KeyCode::Backspace],
            m.pause@ == seq![KeyCode::Escape, KeyCode::P],
    {
        let m = KeyMapping {
            left: vec![KeyCode::D, KeyCode::F],
            right: vec![KeyCode::J, KeyCode::K],
            up: vec![KeyCode::Space, KeyCode::W],
            down: vec![KeyCode::S],
            confirm: vec![KeyCode::Enter, KeyCode::Space],
            cancel: vec![KeyCode::Escape, KeyCode::Backspace],
            pause: vec![KeyCode::Escape, KeyCode::P],
        };
        proof {
            assert(m.left@ =~= seq![KeyCode::D, KeyCode::F]);
            assert(m.right@ =~= seq![KeyCode::J, KeyCode::K]);
            assert(m.up@ =~= seq![KeyCode::Space, KeyCode::W]);
            assert(m.down@ =~= seq![KeyCode::S]);
            assert(m.confirm@ =~= seq![KeyCode::Enter, KeyCode::Space]);
            assert(m.cancel@ =~= seq![KeyCode::Escape, KeyCode::Backspace]);
            assert(m.pause@ =~= seq![KeyCode::Escape, KeyCode::P]);
        }
        m
    }

    /// Whether any left key went down since the last update.
    pub fn is_left_pressed(&self, keyboard: &KeyboardState) -> (r: bool)
        ensures
            r == any_pressed(keyboard, self.left@),
    {
        let mut i: usize = 0;
        while i < self.left.len()
            invariant
                i <= self.left@.len(),
                forall|j: int| 0 <= j < i ==> !keyboard.spec_pressed(#[trigger] self.left@[j]),
            decreases self.left@.len() - i,
        {
            if keyboard.is_key_pressed(self.left[i]) {
                return true;
            }
            i = i + 1;
        }
        false
    }

    /// Whether any left key is held.
    pub fn is_left_down(&self, keyboard: &KeyboardState) -> (r: bool)
        ensures
            r == any_down(keyboard, self.left@),
    {
        let mut i: usize = 0;
        while i < self.left.len()
            invariant
                i <= self.left@.len(),
                forall|j: int| 0 <= j < i ==> !keyboard.spec_down(#[trigger] self.left@[j]),
            decreases self.left@.len() - i,
        {
            if keyboard.is_key_down(self.left[i]) {
                return true;
            }
            i = i + 1;
        }
        false
    }

    /// Whether any right key went down since the last update.
    pub fn is_right_pressed(&self, keyboard: &KeyboardState) -> (r: bool)
        ensures
            r == any_pressed(keyboard, self.right@),
    {
        let mut i: usize = 0;
        while i < self.right.len()
            invariant
                i <= self.right@.len(),
                forall|j: int| 0 <= j < i ==> !keyboard.spec_pressed(#[trigger] self.right@[j]),
            decreases self.right@.len() - i,
        {
            if keyboard.is_key_pressed(self.right[i]) {
                return true;
            }
            i = i + 1;
        }
        false
    }

    /// Whether any right key is held.
    pub fn is_right_down(&self, keyboard: &KeyboardState) -> (r: bool)
        ensures
            r == any_down(keyboard, self.right@),
    {
        let mut i: usize = 0;
        while i < self.right.len()
            invariant
                i <= self.right@.len(),
                forall|j: int| 0 <= j < i ==> !keyboard.spec_down(#[trigger] self.right@[j]),
            decreases self.right@.len() - i,
        {
            if keyboard.is_key_down(self.right[i]) {
                return true;
            }
            i = i + 1;
        }
        false
    }
}

} // verus!
