//! Basic definitions for sparse vector entries.
//!
//! An entry of a sparse vector `v` is a pair `(i, a)` such that `v[i] = a`.

use vstd::prelude::*;

verus! {

/// Get the key or coefficient from a `(key, val)` entry.
pub trait KeyValGet {
    type Key;

    type Val;

    /// The key of the entry.
    spec fn key_of(&self) -> Self::Key;

    /// The coefficient of the entry.
    spec fn val_of(&self) -> Self::Val;

    /// Get the key in the `(key, val)` pair.
    fn key(&self) -> (k: Self::Key)
        ensures
            k == self.key_of(),
    ;

    /// Get the val in the `(key, val)` pair.
    fn val(&self) -> (v: Self::Val)
        ensures
            v == self.val_of(),
    ;
}

/// Set the key or coefficient of a `(key, val)` entry.
pub trait KeyValSet: KeyValGet + Sized {
    /// The entry with its key replaced.
    spec fn with_key(&self, key: Self::Key) -> Self;

    /// The entry with its coefficient replaced.
    spec fn with_val(&self, val: Self::Val) -> Self;

    /// Replacing the key changes the key and nothing else; a later
    /// replacement overrides an earlier one.
    proof fn with_key_laws(&self, key: Self::Key, again: Self::Key)
        ensures
            self.with_key(key).key_of() == key,
            self.with_key(key).val_of() == self.val_of(),
            self.with_key(key).with_key(again) == self.with_key(again),
            self.with_key(self.key_of()) == *self,
    ;

    /// Replacing the coefficient changes the coefficient and nothing else; a
    /// later replacement overrides an earlier one.
    proof fn with_val_laws(&self, val: Self::Val, again: Self::Val)
        ensures
            self.with_val(val).val_of() == val,
            self.with_val(val).key_of() == self.key_of(),
            self.with_val(val).with_val(again) == self.with_val(again),
            self.with_val(self.val_of()) == *self,
    ;

    /// Set the key in the `(key, val)` pair.
    fn set_key(&mut self, key: Self::Key)
        ensures
            *final(self) == old(self).with_key(key),
    ;

    /// Set the val in the `(key, val)` pair.
    fn set_val(&mut self, val: Self::Val)
        ensures
            *final(self) == old(self).with_val(val),
    ;
}

impl<Key: Copy, Val: Copy> KeyValGet for (Key, Val) {
    type Key = Key;

    type Val = Val;

    open spec fn key_of(&self) -> Key {
        self.0
    }

    open spec fn val_of(&self) -> Val {
        self.1
    }

    fn key(&self) -> (k: Key) {
        self.0
    }

    fn val(&self) -> (v: Val) {
        self.1
    }
}

impl<Key: Copy, Val: Copy> KeyValSet for (Key, Val) {
    open spec fn with_key(&self, key: Key) -> Self {
        (key, self.1)
    }

    open spec fn with_val(&self, val: Val) -> Self {
        (self.0, val)
    }

    proof fn with_key_laws(&self, key: Key, again: Key) {
    }

    proof fn with_val_laws(&self, val: Val, again: Val) {
    }

    fn set_key(&mut self, key: Key) {
        self.0 = key
    }

    fn set_val(&mut self, val: Val) {
        self.1 = val
    }
}

/// Struct encoding a key/value entry.
#[derive(Clone, Copy, Debug)]
pub struct KeyValItem<Key, Val> {
    pub key: Key,
    pub val: Val,
}

impl<Key: Copy, Val: Copy> KeyValGet for KeyValItem<Key, Val> {
    type Key = Key;

    type Val = Val;

    open spec fn key_of(&self) -> Key {
        self.key
    }

    open spec fn val_of(&self) -> Val {
        self.val
    }

    fn key(&self) -> (k: Key) {
        self.key
    }

    fn val(&self) -> (v: Val) {
        self.val
    }
}

impl<Key: Copy, Val: Copy> KeyValSet for KeyValItem<Key, Val> {
    open spec fn with_key(&self, key: Key) -> Self {
        KeyValItem { key, val: self.val }
    }

    open spec fn with_val(&self, val: Val) -> Self {
        KeyValItem { key: self.key, val }
    }

    proof fn with_key_laws(&self, key: Key, again: Key) {
    }

    proof fn with_val_laws(&self, val: Val, again: Val) {
    }

    fn set_key(&mut self, key: Key) {
        self.key = key
    }

    fn set_val(&mut self, val: Val) {
        self.val = val
    }
}

} // verus!
