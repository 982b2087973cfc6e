use vstd::prelude::*;
use crate::buffer::copy_vec;
use crate::keyboard::Key;

verus! {

/// One key sequence and the value it is bound to.
pub struct Binding<T> {
    pub keys: Vec<Key>,
    pub value: T,
}

/// What feeding one key to a `KeyMap` gives.
#[derive(Debug, PartialEq, Eq)]
pub enum KeyMapState<T> {
    /// A bound sequence was completed; the matcher is back at its root.
    Match(T),
    /// The keys so far begin a longer bound sequence; they are kept.
    Continue,
    /// The keys so far begin no bound sequence; the matcher is back at its root.
    NoMatch,
}

/// An incremental matcher from key sequences to values.
///
/// Rebinding a sequence overwrites its value. Where a bound sequence is
/// also the beginning of a longer bound one, the longer one wins: the
/// shorter one is matched only when no bound sequence continues it.
pub struct KeyMap<T> {
    bindings: Vec<Binding<T>>,
    pending: Vec<Key>,
}

/// Whether `s` is bound in `b`.
pub open spec fn is_bound<T>(b: Seq<(Seq<Key>, T)>, s: Seq<Key>) -> bool {
    exists|i: int| 0 <= i < b.len() && #[trigger] b[i].0 == s
}

/// The value bound to `s` in `b`, if any.
pub open spec fn lookup<T>(b: Seq<(Seq<Key>, T)>, s: Seq<Key>) -> Option<T> {
    if is_bound(b, s) {
        Some(b[choose|i: int| 0 <= i < b.len() && #[trigger] b[i].0 == s].1)
    } else {
        None
    }
}

/// Whether some bound sequence of `b` is strictly longer than `s` and begins with it.
pub open spec fn is_extended<T>(b: Seq<(Seq<Key>, T)>, s: Seq<Key>) -> bool {
    exists|i: int|
        0 <= i < b.len() && (#[trigger] b[i].0).len() > s.len() && b[i].0.take(s.len() as int)
            == s
}

/// No key sequence is bound twice.
pub open spec fn keys_distinct<T>(b: Seq<(Seq<Key>, T)>) -> bool {
    forall|i: int, j: int| 0 <= i < b.len() && 0 <= j < b.len() && i != j ==> b[i].0 != b[j].0
}

/// The outcome of reaching the key sequence `s` from the root.
pub open spec fn step_state<T>(b: Seq<(Seq<Key>, T)>, s: Seq<Key>) -> KeyMapState<T> {
    if is_extended(b, s) {
        KeyMapState::Continue
    } else {
        match lookup(b, s) {
            Some(v) => KeyMapState::Match(v),
            None => KeyMapState::NoMatch,
        }
    }
}

impl<T: Copy> KeyMap<T> {
    /// The bindings, as sequences of keys with their values.
    pub closed spec fn bindings(&self) -> Seq<(Seq<Key>, T)> {
        Seq::new(self.bindings@.len(), |i: int| (self.bindings@[i].keys@, self.bindings@[i].value))
    }

    /// The keys fed since the matcher was last at its root.
    pub closed spec fn pending(&self) -> Seq<Key> {
        self.pending@
    }

    pub open spec fn wf(&self) -> bool {
        keys_distinct(self.bindings())
    }

    /// A matcher with no bindings, at its root.
    pub fn new() -> (r: KeyMap<T>)
        ensures
            r.wf(),
            r.bindings().len() == 0,
            r.pending().len() == 0,
    {
        KeyMap { bindings: Vec::new(), pending: Vec::new() }
    }

    /// Binds `keys` to `value`, replacing what `keys` was bound to.
    pub fn bind_keys(&mut self, keys: &Vec<Key>, value: T)
        requires
            old(self).wf(),
        ensures
            final(self).wf(),
            final(self).pending() == old(self).pending(),
            forall|s: Seq<Key>|
                #![trigger lookup(final(self).bindings(), s)]
                lookup(final(self).bindings(), s) == if s == keys@ {
                    Some(value)
                } else {
                    lookup(old(self).bindings(), s)
                },
            forall|s: Seq<Key>|
                #![trigger is_extended(final(self).bindings(), s)]
                is_extended(final(self).bindings(), s) == (is_extended(old(self).bindings(), s) || (
                keys@.len() > s.len() && keys@.take(s.len() as int) == s)),
    {
        let ghost b0 = self.bindings();
        let mut i: usize = 0;
        while i < self.bindings.len()
            invariant
                i <= self.bindings@.len(),
                self.bindings() == b0,
                b0 == old(self).bindings(),
                self.pending() == old(self).pending(),
                keys_distinct(b0),
                forall|j: int| 0 <= j < i ==> b0[j].0 != keys@,
            decreases self.bindings@.len() - i,
        {
            if keys_eq(&self.bindings[i].keys, keys) {
                let copy = copy_vec(keys);
                self.bindings.set(i, Binding { keys: copy, value });
                proof {
                    let b1 = self.bindings();
                    assert(b1 =~= b0.update(i as int, (keys@, value)));
                    assert(forall|k: int| 0 <= k < b1.len() ==> #[trigger] b1[k].0 == b0[k].0);
                    assert(keys_distinct(b1));
                    assert forall|s: Seq<Key>|
                        #![trigger lookup(b1, s)]
                        lookup(b1, s) == if s == keys@ {
                            Some(value)
                        } else {
                            lookup(b0, s)
                        } by {
                        if s == keys@ {
                            assert(b1[i as int].0 == s);
                        } else {
                            if is_bound(b0, s) {
                                let k = choose|k: int| 0 <= k < b0.len() && #[trigger] b0[k].0 == s;
                                assert(b1[k].0 == s);
                            }
                            if is_bound(b1, s) {
                                let k = choose|k: int| 0 <= k < b1.len() && #[trigger] b1[k].0 == s;
                                assert(b0[k].0 == s);
                            }
                        }
                    }
                    assert forall|s: Seq<Key>|
                        #![trigger is_extended(b1, s)]
                        is_extended(b1, s) == (is_extended(b0, s) || (keys@.len() > s.len()
                            && keys@.take(s.len() as int) == s)) by {
                        if is_extended(b0, s) {
                            let k = choose|k: int|
                                0 <= k < b0.len() && (#[trigger] b0[k].0).len() > s.len()
                                    && b0[k].0.take(s.len() as int) == s;
                            assert(b1[k].0 == b0[k].0);
                        }
                        if keys@.len() > s.len() && keys@.take(s.len() as int) == s {
                            assert(b1[i as int].0 == keys@);
                        }
                        if is_extended(b1, s) {
                            let k = choose|k: int|
                                0 <= k < b1.len() && (#[trigger] b1[k].0).len() > s.len()
                                    && b1[k].0.take(s.len() as int) == s;
                            assert(b0[k].0 == b1[k].0);
                        }
                    }
                }
                return ;
            }
            i = i + 1;
        }
        let copy = copy_vec(keys);
        self.bindings.push(Binding { keys: copy, value });
        proof {
            let b1 = self.bindings();
            assert(b1 =~= b0.push((keys@, value)));
            let n = b0.len() as int;
            assert(b1[n].0 == keys@);
            assert(forall|k: int| 0 <= k < n ==> #[trigger] b1[k].0 == b0[k].0);
            assert(keys_distinct(b1));
            assert forall|s: Seq<Key>|
                #![trigger lookup(b1, s)]
                lookup(b1, s) == if s == keys@ {
                    Some(value)
                } else {
                    lookup(b0, s)
                } by {
                if is_bound(b0, s) {
                    let k = choose|k: int| 0 <= k < b0.len() && #[trigger] b0[k].0 == s;
                    assert(b1[k].0 == s);
                }
                if is_bound(b1, s) {
                    let k = choose|k: int| 0 <= k < b1.len() && #[trigger] b1[k].0 == s;
                    if k < n {
                        assert(b0[k].0 == s);
                    }
                }
            }
            assert forall|s: Seq<Key>|
                #![trigger is_extended(b1, s)]
                is_extended(b1, s) == (is_extended(b0, s) || (keys@.len() > s.len()
                    && keys@.take(s.len() as int) == s)) by {
                if is_extended(b0, s) {
                    let k = choose|k: int|
                        0 <= k < b0.len() && (#[trigger] b0[k].0).len() > s.len()
                            && b0[k].0.take(s.len() as int) == s;
                    assert(b1[k].0 == b0[k].0);
                }
                if is_extended(b1, s) {
                    let k = choose|k: int|
                        0 <= k < b1.len() && (#[trigger] b1[k].0).len() > s.len()
                            && b1[k].0.take(s.len() as int) == s;
                    if k < n {
                        assert(b0[k].0 == b1[k].0);
                    }
                }
            }
        }
    }
}

impl<T: Copy> KeyMap<T> {
    /// Feeds one key to the matcher.
    pub fn check_key(&mut self, key: Key) -> (r: KeyMapState<T>)
        requires
            old(self).wf(),
        ensures
            final(self).wf(),
            final(self).bindings() == old(self).bindings(),
            r == step_state(old(self).bindings(), old(self).pending().push(key)),
            final(self).pending() == if r is Continue {
                old(self).pending().push(key)
            } else {
                Seq::<Key>::empty()
            },
    {
        self.pending.push(key);
        let ghost b = self.bindings();
        let ghost p = self.pending@;
        let mut found: Option<usize> = None;
        let mut extended = false;
        let mut i: usize = 0;
        while i < self.bindings.len()
            invariant
                i <= self.bindings@.len(),
                b == self.bindings(),
                p == self.pending@,
                found matches Some(j) ==> j < i && b[j as int].0 == p,
                found is None ==> forall|j: int| 0 <= j < i ==> b[j].0 != p,
                extended == exists|j: int|
                    0 <= j < i && (#[trigger] b[j].0).len() > p.len() && b[j].0.take(p.len() as int)
                        == p,
            decreases self.bindings@.len() - i,
        {
            if keys_eq(&self.bindings[i].keys, &self.pending) {
                found = Some(i);
            }
            if is_strict_prefix(&self.pending, &self.bindings[i].keys) {
                extended = true;
            }
            proof {
                assert(b[i as int].0 == self.bindings@[i as int].keys@);
            }
            i = i + 1;
        }
        if extended {
            KeyMapState::Continue
        } else {
            self.pending = Vec::new();
            match found {
                Some(j) => {
                    assert(b[j as int].0 == p);
                    assert(is_bound(b, p));
                    let v = self.bindings[j].value;
                    assert(v == b[j as int].1);
                    KeyMapState::Match(v)
                },
                None => KeyMapState::NoMatch,
            }
        }
    }
}

/// Whether `s` is strictly longer than `p` and begins with it.
fn is_strict_prefix(p: &Vec<Key>, s: &Vec<Key>) -> (r: bool)
    ensures
        r == (s@.len() > p@.len() && s@.take(p@.len() as int) == p@),
{
    if s.len() <= p.len() {
        return false;
    }
    let mut i: usize = 0;
    while i < p.len()
        invariant
            p@.len() < s@.len(),
            i <= p@.len(),
            s@.take(i as int) == p@.take(i as int),
        decreases p@.len() - i,
    {
        if s[i] != p[i] {
            assert(s@.take(p@.len() as int)[i as int] != p@[i as int]);
            return false;
        }
        assert(s@.take(i as int + 1) =~= s@.take(i as int).push(s@[i as int]));
        assert(p@.take(i as int + 1) =~= p@.take(i as int).push(p@[i as int]));
        i = i + 1;
    }
    assert(p@ =~= p@.take(i as int));
    true
}

/// Whether two key sequences are equal.
fn keys_eq(a: &Vec<Key>, b: &Vec<Key>) -> (r: bool)
    ensures
        r == (a@ == b@),
{
    if a.len() != b.len() {
        return false;
    }
    let mut i: usize = 0;
    while i < a.len()
        invariant
            a@.len() == b@.len(),
            i <= a@.len(),
            a@.take(i as int) == b@.take(i as int),
        decreases a@.len() - i,
    {
        if a[i] != b[i] {
            assert(a@[i as int] != b@[i as int]);
            return false;
        }
        assert(a@.take(i as int + 1) =~= a@.take(i as int).push(a@[i as int]));
        assert(b@.take(i as int + 1) =~= b@.take(i as int).push(b@[i as int]));
        i = i + 1;
    }
    assert(a@ =~= a@.take(i as int));
    assert(b@ =~= b@.take(i as int));
    true
}

} // verus!
