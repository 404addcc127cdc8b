use vstd::prelude::*;

use crate::appearance::Appearance;
use crate::displays::Displays;
use crate::network::Network;
use crate::power::{BrightNess, Power};

verus! {

/// What every settings panel tells about itself.
pub trait Settings {
    /// Whether the panel has read the state it shows.
    fn is_init(&self) -> bool;

    fn name(&self) -> &str;

    /// The title shown above the panel.
    fn heading(&self) -> &str;
}

impl Settings for Displays {
    fn is_init(&self) -> bool {
        true
    }

    fn name(&self) -> &str {
        "Displays And Resolution"
    }

    fn heading(&self) -> &str {
        "Resize and Roate display"
    }
}

impl Settings for Appearance {
    fn is_init(&self) -> bool {
        self.is_ready()
    }

    fn name(&self) -> &str {
        "Appearance"
    }

    fn heading(&self) -> &str {
        "Appearance"
    }
}

impl Settings for Network {
    fn is_init(&self) -> bool {
        self.is_ready()
    }

    fn name(&self) -> &str {
        "Network"
    }

    fn heading(&self) -> &str {
        "Network"
    }
}

impl Settings for Power {
    fn is_init(&self) -> bool {
        true
    }

    fn name(&self) -> &str {
        "Power Manager"
    }

    fn heading(&self) -> &str {
        "Power Manager"
    }
}

impl Settings for BrightNess {
    fn is_init(&self) -> bool {
        true
    }

    fn name(&self) -> &str {
        "BrightNess"
    }

    fn heading(&self) -> &str {
        "BrightNess"
    }
}

/// The keys of `s` rise strictly from first to last.
pub open spec fn keys_rising<P>(s: Seq<(u8, P)>) -> bool {
    forall|i: int, j: int| 0 <= i < j < s.len() ==> s[i].0 < s[j].0
}

/// The number of keys in `s` below `k`, counted from index `i` on, while they stay below.
pub open spec fn keys_below<P>(s: Seq<(u8, P)>, k: u8, i: int) -> int
    decreases s.len() - i,
{
    if 0 <= i < s.len() && s[i].0 < k {
        keys_below(s, k, i + 1)
    } else {
        i
    }
}

/// `s` with `p` under key `k`: in place of the entry of that key, or where the key
/// keeps the keys rising.
pub open spec fn with_label<P>(s: Seq<(u8, P)>, k: u8, p: P) -> Seq<(u8, P)> {
    let i = keys_below(s, k, 0);
    if i < s.len() && s[i].0 == k {
        s.update(i, (k, p))
    } else {
        s.insert(i, (k, p))
    }
}

proof fn lemma_keys_below<P>(s: Seq<(u8, P)>, k: u8, i: int)
    requires
        0 <= i <= s.len(),
    ensures
        i <= keys_below(s, k, i) <= s.len(),
        forall|m: int| i <= m < keys_below(s, k, i) ==> #[trigger] s[m].0 < k,
        keys_below(s, k, i) < s.len() ==> s[keys_below(s, k, i)].0 >= k,
    decreases s.len() - i,
{
    if i < s.len() && s[i].0 < k {
        lemma_keys_below(s, k, i + 1);
    }
}

/// The settings panels by key, in rising order of keys, and the key of the one shown; 0
/// shows none.
pub struct MySettings<P> {
    now: u8,
    labels: Vec<(u8, P)>,
}

impl<P> MySettings<P> {
    /// The keys rise strictly.
    pub closed spec fn wf(&self) -> bool {
        keys_rising(self.labels@)
    }

    pub closed spec fn spec_labels(&self) -> Seq<(u8, P)> {
        self.labels@
    }

    pub closed spec fn spec_now(&self) -> u8 {
        self.now
    }

    pub fn new() -> (r: MySettings<P>)
        ensures
            r.wf(),
            r.spec_labels().len() == 0,
            r.spec_now() == 0,
    {
        MySettings { now: 0, labels: Vec::new() }
    }

    /// Puts a panel under `key`, in place of any panel that was there.
    pub fn add_label(&mut self, key: u8, label: P)
        requires
            old(self).wf(),
        ensures
            final(self).wf(),
            final(self).spec_labels() == with_label(old(self).spec_labels(), key, label),
            keys_rising(final(self).spec_labels()),
            final(self).spec_now() == old(self).spec_now(),
    {
        let ghost s = self.labels@;
        let mut i: usize = 0;
        while i < self.labels.len() && self.labels[i].0 < key
            invariant
                s == self.labels@,
                i <= self.labels.len(),
                keys_below(s, key, i as int) == keys_below(s, key, 0),
            decreases self.labels.len() - i,
        {
            i = i + 1;
        }
        proof {
            lemma_keys_below(s, key, 0);
        }
        if i < self.labels.len() && self.labels[i].0 == key {
            let ghost entry = (key, label);
            self.labels.set(i, (key, label));
            assert(self.labels@ =~= s.update(i as int, entry));
        } else {
            let ghost entry = (key, label);
            self.labels.insert(i, (key, label));
            assert(self.labels@ =~= s.insert(i as int, entry));
            assert forall|a: int, b: int|
                0 <= a < b < self.labels@.len() implies self.labels@[a].0 < self.labels@[b].0 by {
                if b < i {
                } else if a < i && b == i {
                } else if a < i {
                    assert(self.labels@[b] == s[b - 1]);
                } else if a == i {
                    assert(self.labels@[b] == s[b - 1]);
                    if b - 1 > i {
                        assert(s[i as int].0 < s[b - 1].0);
                    }
                } else {
                    assert(self.labels@[a] == s[a - 1]);
                    assert(self.labels@[b] == s[b - 1]);
                }
            }
        }
    }

    /// The panels, in rising order of keys.
    pub fn labels(&self) -> (r: &Vec<(u8, P)>)
        ensures
            r@ == self.spec_labels(),
    {
        &self.labels
    }

    /// The key of the panel shown.
    pub fn now(&self) -> (r: u8)
        ensures
            r == self.spec_now(),
    {
        self.now
    }

    /// Shows the panel under `key`; 0 shows none.
    pub fn select(&mut self, key: u8)
        ensures
            final(self).spec_now() == key,
            final(self).spec_labels() == old(self).spec_labels(),
            final(self).wf() == old(self).wf(),
    {
        self.now = key;
    }

    /// The panel under `key`.
    pub fn get(&self, key: u8) -> (r: Option<&P>)
        ensures
            r is Some <==> exists|i: int|
                0 <= i < self.spec_labels().len() && self.spec_labels()[i].0 == key,
            r matches Some(p) ==> exists|i: int|
                0 <= i < self.spec_labels().len() && self.spec_labels()[i] == (key, *p),
    {
        let mut i: usize = 0;
        while i < self.labels.len()
            invariant
                i <= self.labels.len(),
                forall|m: int| 0 <= m < i ==> self.labels@[m].0 != key,
            decreases self.labels.len() - i,
        {
            if self.labels[i].0 == key {
                assert(self.spec_labels()[i as int] == self.labels@[i as int]);
                assert(self.spec_labels()[i as int].0 == key);
                return Some(&self.labels[i].1);
            }
            i = i + 1;
        }
        None
    }
}

impl<P> Default for MySettings<P> {
    fn default() -> (r: MySettings<P>)
        ensures
            r.wf(),
            r.spec_labels().len() == 0,
            r.spec_now() == 0,
    {
        MySettings::new()
    }
}

} // verus!
