//! Key combinations in canonical form, and the shortcuts bound to them.
//! A key is its numeric key code.
use vstd::prelude::*;

verus! {

/// Strictly increasing, hence free of repeats.
pub open spec fn strictly_sorted(s: Seq<u32>) -> bool {
    forall|i: int, j: int| 0 <= i < j < s.len() ==> s[i] < s[j]
}

/// The canonical form of a set of keys: each key once, in increasing order.
pub open spec fn is_canonical_of(r: Seq<u32>, keys: Seq<u32>) -> bool {
    &&& strictly_sorted(r)
    &&& forall|k: u32| r.contains(k) <==> keys.contains(k)
}

/// A combination of keys held down together.
#[derive(Debug)]
pub struct HotKey {
    keys: Vec<u32>,
}

impl View for HotKey {
    type V = Seq<u32>;

    closed spec fn view(&self) -> Seq<u32> {
        self.keys@
    }
}

impl HotKey {
    /// The combination of `keys`, whatever their order and repeats.
    pub fn new(keys: Vec<u32>) -> (r: HotKey)
        ensures
            is_canonical_of(r@, keys@),
    {
        let mut sorted: Vec<u32> = Vec::new();
        let mut i: usize = 0;
        while i < keys.len()
            invariant
                i <= keys@.len(),
                is_canonical_of(sorted@, keys@.take(i as int)),
            decreases keys@.len() - i,
        {
            let key = keys[i];
            let mut j: usize = 0;
            while j < sorted.len() && sorted[j] < key
                invariant
                    j <= sorted@.len(),
                    forall|t: int| 0 <= t < j ==> sorted@[t] < key,
                decreases sorted@.len() - j,
            {
                j += 1;
            }
            let ghost before = sorted@;
            assert(keys@.take(i + 1) =~= keys@.take(i as int).push(key));
            if j < sorted.len() && sorted[j] == key {
                assert(before[j as int] == key);
            } else {
                sorted.insert(j, key);
                proof {
                    assert(sorted@ =~= before.take(j as int).push(key) + before.skip(j as int));
                    assert forall|k: u32| sorted@.contains(k) <==> (before.contains(k) || k == key) by {
                        if before.contains(k) {
                            let t = choose|t: int| 0 <= t < before.len() && before[t] == k;
                            if t < j {
                                assert(sorted@[t] == k);
                            } else {
                                assert(sorted@[t + 1] == k);
                            }
                        }
                        if sorted@.contains(k) {
                            let t = choose|t: int| 0 <= t < sorted@.len() && sorted@[t] == k;
                            if t < j {
                                assert(before[t] == k);
                            } else if t > j {
                                assert(before[t - 1] == k);
                            }
                        }
                        assert(sorted@[j as int] == key);
                    }
                    assert forall|a: int, b: int| 0 <= a < b < sorted@.len() implies sorted@[a]
                        < sorted@[b] by {
                        if j < before.len() {
                            assert(before[j as int] > key);
                        }
                        if b < j {
                            assert(before[a] < before[b]);
                        } else if b == j {
                            assert(before[a] < key);
                        } else if a < j {
                            assert(before[a] < key);
                            assert(before[j as int] <= before[b - 1]);
                        } else if a == j {
                            assert(before[j as int] <= before[b - 1]);
                        } else {
                            assert(before[a - 1] < before[b - 1]);
                        }
                    }
                }
            }
            proof {
                let p = keys@.take(i as int);
                assert forall|k: u32| p.push(key).contains(k) <==> (p.contains(k) || k == key) by {
                    if p.contains(k) {
                        let t = choose|t: int| 0 <= t < p.len() && p[t] == k;
                        assert(p.push(key)[t] == k);
                    }
                    if p.push(key).contains(k) && k != key {
                        let t = choose|t: int| 0 <= t < p.len() + 1 && p.push(key)[t] == k;
                        assert(p[t] == k);
                    }
                    assert(p.push(key)[p.len() as int] == key);
                }
                assert forall|k: u32| sorted@.contains(k) <==> keys@.take(i + 1).contains(k) by {
                    assert(sorted@.contains(k) <==> (before.contains(k) || k == key));
                    assert(before.contains(k) <==> p.contains(k));
                    assert(p.push(key).contains(k) <==> (p.contains(k) || k == key));
                }
            }
            i += 1;
        }
        assert(keys@.take(i as int) =~= keys@);
        HotKey { keys: sorted }
    }

    /// The keys, each once, in increasing order.
    pub fn keys(&self) -> (r: Vec<u32>)
        ensures
            r@ == self@,
    {
        self.keys.clone()
    }

    /// Whether the two combinations hold the same keys.
    pub fn eq(&self, other: &HotKey) -> (r: bool)
        ensures
            r == (self@ == other@),
    {
        if self.keys.len() != other.keys.len() {
            return false;
        }
        let mut i: usize = 0;
        while i < self.keys.len()
            invariant
                i <= self@.len(),
                self@.len() == other@.len(),
                forall|t: int| 0 <= t < i ==> self@[t] == other@[t],
            decreases self@.len() - i,
        {
            if self.keys[i] != other.keys[i] {
                return false;
            }
            i += 1;
        }
        assert(self@ =~= other@);
        true
    }
}

/// A combination bound to the number of the action it triggers.
#[derive(Debug)]
pub struct ShortCut {
    pub hotkey: HotKey,
    pub action: u32,
}

impl ShortCut {
    /// The action to run when `hotkey` is pressed: this shortcut's, if its
    /// combination is the same.
    pub fn match_call(&self, hotkey: &HotKey) -> (r: Option<u32>)
        ensures
            r == (if self.hotkey@ == hotkey@ {
                Some(self.action)
            } else {
                None
            }),
    {
        if self.hotkey.eq(hotkey) {
            Some(self.action)
        } else {
            None
        }
    }
}

/// The actions of the shortcuts in `s` whose combination is `k`, in order.
pub open spec fn actions_for(s: Seq<ShortCut>, k: Seq<u32>) -> Seq<u32>
    decreases s.len(),
{
    if s.len() == 0 {
        Seq::empty()
    } else if s.last().hotkey@ == k {
        actions_for(s.drop_last(), k).push(s.last().action)
    } else {
        actions_for(s.drop_last(), k)
    }
}

/// The registered shortcuts, in order of registration.
pub struct HotKeyManager {
    pub shortcuts: Vec<ShortCut>,
}

impl HotKeyManager {
    /// A manager with no shortcut.
    pub fn new() -> (r: HotKeyManager)
        ensures
            r.shortcuts@ == Seq::<ShortCut>::empty(),
    {
        HotKeyManager { shortcuts: Vec::new() }
    }

    /// Binds `hotkey` to `action`, after the shortcuts already there.
    pub fn register(&mut self, hotkey: HotKey, action: u32)
        ensures
            final(self).shortcuts@ == old(self).shortcuts@.push(ShortCut { hotkey, action }),
    {
        self.shortcuts.push(ShortCut { hotkey, action });
    }

    /// The actions to run when the keys held change from `last` to `now`:
    /// those bound to `now`, in order of registration, and none when the
    /// keys did not change.
    pub fn on_change(&self, last: &HotKey, now: &HotKey) -> (r: Vec<u32>)
        ensures
            last@ == now@ ==> r@ == Seq::<u32>::empty(),
            last@ != now@ ==> r@ == actions_for(self.shortcuts@, now@),
    {
        let mut r: Vec<u32> = Vec::new();
        if last.eq(now) {
            return r;
        }
        let mut i: usize = 0;
        while i < self.shortcuts.len()
            invariant
                i <= self.shortcuts@.len(),
                r@ == actions_for(self.shortcuts@.take(i as int), now@),
            decreases self.shortcuts@.len() - i,
        {
            assert(self.shortcuts@.take(i + 1).drop_last() =~= self.shortcuts@.take(i as int));
            if let Some(a) = self.shortcuts[i].match_call(now) {
                r.push(a);
            }
            i += 1;
        }
        assert(self.shortcuts@.take(i as int) =~= self.shortcuts@);
        r
    }
}

} // verus!
