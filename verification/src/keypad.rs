use vstd::prelude::*;

verus! {

/// The 16-key input state: one pressed/released flag per key symbol
/// 0 through 15. An input-polling collaborator writes the flags through
/// the public field; the interpreter only reads them.
pub struct Keypad {
    pub keys: Vec<bool>,
}

impl Keypad {
    /// Well-formed: exactly one flag per key symbol.
    pub open spec fn wf(&self) -> bool {
        self.keys@.len() == 16
    }

    /// A keypad with every key released.
    pub fn new() -> (k: Keypad)
        ensures
            k.wf(),
            forall|i: int| 0 <= i < 16 ==> !k.keys@[i],
    {
        Keypad { keys: crate::filled_vec(false, 16) }
    }

    /// Answers the point query for one key symbol. Symbols outside
    /// 0..=15 name no key, so callers must rule them out first.
    pub fn is_key_down(&self, index: u8) -> (down: bool)
        requires
            self.wf(),
            index < 16,
        ensures
            down == self.keys@[index as int],
    {
        self.keys[index as usize]
    }
}

} // verus!
