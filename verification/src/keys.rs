//! The keychain: the ordered buffer of decoded keys currently on display,
//! together with the label cache that remembers each key's display name.

use vstd::prelude::*;

verus! {

/// Canonical identity of a physical key: an 8-bit hardware scan code,
/// optionally extended with bit `0x100` to tell right-hand/keypad variants
/// from their plain counterparts. Valid values lie in `0x00..=0x1FF`.
#[derive(Clone, Copy, Debug, Default, PartialEq, Eq, Hash, Structural)]
pub struct ScanCode(pub i32);

/// Scan code of the Escape key; pressing it clears the keychain.
pub const SC_ESCAPE: i32 = 0x01;

/// Scan code of the Backspace key; pressing it removes the newest entry.
pub const SC_BACK: i32 = 0x0E;

/// One entry of the keychain. Two presses of the same physical key give two
/// distinct entries holding equal scan codes.
#[derive(Clone, Copy, Debug, PartialEq, Eq, Structural)]
pub struct Key {
    pub scan_code: ScanCode,
}

/// A cached display name for one scan code. Entries are created on first
/// sighting of a scan code and never change afterwards.
#[derive(Debug)]
pub struct KeyInfo {
    pub scan_code: ScanCode,
    pub name: String,
}

/// The ordered buffer of decoded keys (display order is insertion order,
/// left to right) plus the label cache that grows as new keys are seen.
pub struct Keychain {
    pub keys: Vec<Key>,
    pub key_infos: Vec<KeyInfo>,
}

/// The label cache as a map: each scan code goes to the name of its latest
/// entry in `infos`.
pub open spec fn labels_of(infos: Seq<KeyInfo>) -> Map<ScanCode, Seq<char>>
    decreases infos.len(),
{
    if infos.len() == 0 {
        Map::empty()
    } else {
        labels_of(infos.drop_last()).insert(infos.last().scan_code, infos.last().name@)
    }
}

/// Effect of `add` on the displayed sequence: append at the right.
pub open spec fn spec_add(chain: Seq<ScanCode>, scan_code: ScanCode) -> Seq<ScanCode> {
    chain.push(scan_code)
}

/// Effect of `back` on the displayed sequence: drop the newest entry, or
/// leave an empty sequence alone.
pub open spec fn spec_back(chain: Seq<ScanCode>) -> Seq<ScanCode> {
    if chain.len() == 0 {
        chain
    } else {
        chain.drop_last()
    }
}

/// Effect of `clear` on the displayed sequence: empty it unconditionally.
pub open spec fn spec_clear(chain: Seq<ScanCode>) -> Seq<ScanCode> {
    Seq::empty()
}

impl Keychain {
    /// The displayed sequence of scan codes, in insertion order.
    pub open spec fn chain(&self) -> Seq<ScanCode> {
        self.keys@.map_values(|k: Key| k.scan_code)
    }

    /// The label cache as a map from scan code to display name.
    pub open spec fn labels(&self) -> Map<ScanCode, Seq<char>> {
        labels_of(self.key_infos@)
    }

    /// An empty keychain: nothing displayed, nothing cached.
    pub fn new() -> (r: Self)
        ensures
            r.chain() == Seq::<ScanCode>::empty(),
            r.labels() == Map::<ScanCode, Seq<char>>::empty(),
    {
        let r = Self { keys: Vec::new(), key_infos: Vec::new() };
        proof {
            assert(r.chain() =~= Seq::<ScanCode>::empty());
        }
        r
    }

    /// Appends one entry for `scan_code` at the right end. No deduplication:
    /// a repeated key gives a repeated entry. The label cache is untouched.
    pub fn add(&mut self, scan_code: ScanCode)
        ensures
            final(self).chain() == spec_add(old(self).chain(), scan_code),
            final(self).labels() == old(self).labels(),
    {
        self.keys.push(Key { scan_code });
        proof {
            assert(self.chain() =~= spec_add(old(self).chain(), scan_code));
        }
    }

    /// Removes the newest entry if one exists; a no-op on an empty keychain.
    /// The label cache is untouched.
    pub fn back(&mut self)
        ensures
            final(self).chain() == spec_back(old(self).chain()),
            final(self).labels() == old(self).labels(),
    {
        self.keys.pop();
        proof {
            assert(self.chain() =~= spec_back(old(self).chain()));
        }
    }

    /// Empties the displayed sequence unconditionally. The label cache is
    /// untouched.
    pub fn clear(&mut self)
        ensures
            final(self).chain() == spec_clear(old(self).chain()),
            final(self).labels() == old(self).labels(),
    {
        self.keys.clear();
        proof {
            assert(self.chain() =~= spec_clear(old(self).chain()));
        }
    }

    /// True exactly when no label is cached yet for `scan_code`, so that the
    /// caller must perform the one platform name query for it.
    pub fn needs_resolution(&self, scan_code: ScanCode) -> (r: bool)
        ensures
            r <==> !self.labels().contains_key(scan_code),
    {
        let n = self.key_infos.len();
        let mut i: usize = 0;
        while i < n
            invariant
                n == self.key_infos@.len(),
                0 <= i <= n,
                forall|j: int| 0 <= j < i ==> (#[trigger] self.key_infos@[j]).scan_code != scan_code,
            decreases n - i,
        {
            if self.key_infos[i].scan_code == scan_code {
                proof {
                    lemma_labels_of_contains(self.key_infos@, scan_code);
                }
                return false;
            }
            i += 1;
        }
        proof {
            lemma_labels_of_contains(self.key_infos@, scan_code);
        }
        true
    }

    /// Caches `name` as the label of `scan_code`, unless a label for it is
    /// already cached; an existing entry is never replaced. The displayed
    /// sequence is untouched.
    pub fn insert_label(&mut self, scan_code: ScanCode, name: String)
        ensures
            final(self).chain() == old(self).chain(),
            old(self).labels().contains_key(scan_code) ==> final(self).labels() == old(
                self,
            ).labels(),
            !old(self).labels().contains_key(scan_code) ==> final(self).labels() == old(
                self,
            ).labels().insert(scan_code, name@),
    {
        if self.needs_resolution(scan_code) {
            self.key_infos.push(KeyInfo { scan_code, name });
            proof {
                assert(self.key_infos@.drop_last() =~= old(self).key_infos@);
            }
        }
    }

    /// The cached label of `scan_code`: `Some` of the stored name if one is
    /// cached, `None` otherwise.
    pub fn resolve(&self, scan_code: ScanCode) -> (r: Option<String>)
        ensures
            match r {
                Some(name) => self.labels().contains_key(scan_code) && name@ == self.labels().index(
                    scan_code,
                ),
                None => !self.labels().contains_key(scan_code),
            },
    {
        let mut i = self.key_infos.len();
        while i > 0
            invariant
                0 <= i <= self.key_infos@.len(),
                forall|j: int|
                    i <= j < self.key_infos@.len() ==> (#[trigger] self.key_infos@[j]).scan_code
                        != scan_code,
            decreases i,
        {
            i -= 1;
            if self.key_infos[i].scan_code == scan_code {
                proof {
                    lemma_labels_of_latest(self.key_infos@, i as int);
                }
                return Some(self.key_infos[i].name.clone());
            }
        }
        proof {
            lemma_labels_of_contains(self.key_infos@, scan_code);
        }
        None
    }

    /// The three-way dispatch on a decoded key: Escape clears the keychain,
    /// Backspace removes the newest entry, and every other scan code is
    /// appended. Exactly one of the three happens per call.
    pub fn dispatch(&mut self, scan_code: ScanCode)
        ensures
            scan_code.0 == SC_ESCAPE ==> final(self).chain() == spec_clear(old(self).chain()),
            scan_code.0 == SC_BACK ==> final(self).chain() == spec_back(old(self).chain()),
            scan_code.0 != SC_ESCAPE && scan_code.0 != SC_BACK ==> final(self).chain() == spec_add(
                old(self).chain(),
                scan_code,
            ),
            final(self).labels() == old(self).labels(),
    {
        if scan_code.0 == SC_ESCAPE {
            self.clear();
        } else if scan_code.0 == SC_BACK {
            self.back();
        } else {
            self.add(scan_code);
        }
    }
}

/// A scan code is in the label-cache map exactly when some entry carries it.
proof fn lemma_labels_of_contains(infos: Seq<KeyInfo>, scan_code: ScanCode)
    ensures
        labels_of(infos).contains_key(scan_code) <==> exists|i: int|
            0 <= i < infos.len() && (#[trigger] infos[i]).scan_code == scan_code,
    decreases infos.len(),
{
    if infos.len() > 0 {
        lemma_labels_of_contains(infos.drop_last(), scan_code);
        if labels_of(infos).contains_key(scan_code) {
            if infos.last().scan_code == scan_code {
                assert(infos[infos.len() - 1].scan_code == scan_code);
            } else {
                let i = choose|i: int|
                    0 <= i < infos.drop_last().len() && (#[trigger] infos.drop_last()[i]).scan_code
                        == scan_code;
                assert(infos[i].scan_code == scan_code);
            }
        } else {
            assert(forall|i: int| 0 <= i < infos.len() - 1 ==> infos.drop_last()[i] == infos[i]);
        }
    }
}

/// The label-cache map holds the name of the latest entry for a scan code:
/// an entry with no later entry for the same scan code decides the map.
proof fn lemma_labels_of_latest(infos: Seq<KeyInfo>, i: int)
    requires
        0 <= i < infos.len(),
        forall|j: int| i < j < infos.len() ==> (#[trigger] infos[j]).scan_code != infos[i].scan_code,
    ensures
        labels_of(infos).contains_key(infos[i].scan_code),
        labels_of(infos)[infos[i].scan_code] == infos[i].name@,
    decreases infos.len(),
{
    if i == infos.len() - 1 {
    } else {
        assert(forall|j: int| 0 <= j < infos.len() - 1 ==> infos.drop_last()[j] == infos[j]);
        lemma_labels_of_latest(infos.drop_last(), i);
    }
}

/// Law: `back` undoes `add`. Appending a key and then removing the newest
/// entry restores the displayed sequence, whatever it held before.
pub proof fn lemma_add_then_back(chain: Seq<ScanCode>, scan_code: ScanCode)
    ensures
        spec_back(spec_add(chain, scan_code)) == chain,
{
    assert(spec_back(spec_add(chain, scan_code)) =~= chain);
}

/// Law: `back` on an empty keychain is a no-op that leaves it empty.
pub proof fn lemma_back_on_empty(chain: Seq<ScanCode>)
    requires
        chain.len() == 0,
    ensures
        spec_back(chain) == chain,
{
}

/// Law: `clear` empties any keychain, and clearing twice is the same as
/// clearing once.
pub proof fn lemma_clear_idempotent(chain: Seq<ScanCode>)
    ensures
        spec_clear(chain) == Seq::<ScanCode>::empty(),
        spec_clear(spec_clear(chain)) == spec_clear(chain),
{
}

/// Law: a cached label persists. After caching a name for a scan code the
/// cache holds exactly that name, and since `add`, `back` and `clear` leave
/// the cache untouched, a caller that queries the platform only when
/// `needs_resolution` holds performs at most one query per scan code.
pub proof fn lemma_cached_label_persists(
    labels: Map<ScanCode, Seq<char>>,
    scan_code: ScanCode,
    name: Seq<char>,
)
    ensures
        labels.insert(scan_code, name).contains_key(scan_code),
        labels.insert(scan_code, name)[scan_code] == name,
{
}

} // verus!
