//! The layout engine: turns the keychain and a cache of measured label
//! widths into left-to-right chip positions for rendering.

use vstd::prelude::*;

use crate::keys::Keychain;
use crate::keys::ScanCode;

verus! {

/// One cached measurement: the pixel width of the label of one scan code.
#[derive(Clone, Copy, Debug, PartialEq, Eq, Structural)]
pub struct WidthEntry {
    pub scan_code: ScanCode,
    pub width: u32,
}

/// The width cache: measured label widths by scan code. An entry is created
/// on the first measurement for a scan code and stays valid for the run
/// (text, font and DPI are constant per run).
pub struct WidthCache {
    pub entries: Vec<WidthEntry>,
}

/// The width cache as a map: each scan code goes to the width of its latest
/// entry.
pub open spec fn widths_of(entries: Seq<WidthEntry>) -> Map<ScanCode, u32>
    decreases entries.len(),
{
    if entries.len() == 0 {
        Map::empty()
    } else {
        widths_of(entries.drop_last()).insert(entries.last().scan_code, entries.last().width)
    }
}

impl WidthCache {
    /// The cached widths as a map from scan code to pixel width.
    pub open spec fn widths(&self) -> Map<ScanCode, u32> {
        widths_of(self.entries@)
    }

    /// An empty cache: nothing measured yet.
    pub fn new() -> (r: Self)
        ensures
            r.widths() == Map::<ScanCode, u32>::empty(),
    {
        Self { entries: Vec::new() }
    }

    /// The cached width of `scan_code`, or `None` when it has not been
    /// measured yet.
    pub fn lookup(&self, scan_code: ScanCode) -> (r: Option<u32>)
        ensures
            match r {
                Some(width) => self.widths().contains_key(scan_code) && width == self.widths().index(
                    scan_code,
                ),
                None => !self.widths().contains_key(scan_code),
            },
    {
        let mut i = self.entries.len();
        while i > 0
            invariant
                0 <= i <= self.entries@.len(),
                forall|j: int|
                    i <= j < self.entries@.len() ==> (#[trigger] self.entries@[j]).scan_code
                        != scan_code,
            decreases i,
        {
            i -= 1;
            if self.entries[i].scan_code == scan_code {
                proof {
                    lemma_widths_of_latest(self.entries@, i as int);
                }
                return Some(self.entries[i].width);
            }
        }
        proof {
            lemma_widths_of_contains(self.entries@, scan_code);
        }
        None
    }

    /// Caches `width` as the measurement for `scan_code`, unless one is
    /// already cached; an existing measurement is never replaced.
    pub fn insert(&mut self, scan_code: ScanCode, width: u32)
        ensures
            old(self).widths().contains_key(scan_code) ==> final(self).widths() == old(
                self,
            ).widths(),
            !old(self).widths().contains_key(scan_code) ==> final(self).widths() == old(
                self,
            ).widths().insert(scan_code, width),
    {
        if self.lookup(scan_code).is_none() {
            self.entries.push(WidthEntry { scan_code, width });
            proof {
                assert(self.entries@.drop_last() =~= old(self).entries@);
            }
        }
    }
}

/// A scan code is in the width-cache map exactly when some entry carries it.
proof fn lemma_widths_of_contains(entries: Seq<WidthEntry>, scan_code: ScanCode)
    ensures
        widths_of(entries).contains_key(scan_code) <==> exists|i: int|
            0 <= i < entries.len() && (#[trigger] entries[i]).scan_code == scan_code,
    decreases entries.len(),
{
    if entries.len() > 0 {
        lemma_widths_of_contains(entries.drop_last(), scan_code);
        if widths_of(entries).contains_key(scan_code) {
            if entries.last().scan_code == scan_code {
                assert(entries[entries.len() - 1].scan_code == scan_code);
            } else {
                let i = choose|i: int|
                    0 <= i < entries.drop_last().len() && (#[trigger] entries.drop_last()[
                    i]).scan_code == scan_code;
                assert(entries[i].scan_code == scan_code);
            }
        } else {
            assert(forall|i: int|
                0 <= i < entries.len() - 1 ==> entries.drop_last()[i] == entries[i]);
        }
    }
}

/// The width-cache map holds the width of the latest entry for a scan code.
proof fn lemma_widths_of_latest(entries: Seq<WidthEntry>, i: int)
    requires
        0 <= i < entries.len(),
        forall|j: int|
            i < j < entries.len() ==> (#[trigger] entries[j]).scan_code != entries[i].scan_code,
    ensures
        widths_of(entries).contains_key(entries[i].scan_code),
        widths_of(entries)[entries[i].scan_code] == entries[i].width,
    decreases entries.len(),
{
    if i == entries.len() - 1 {
    } else {
        assert(forall|j: int| 0 <= j < entries.len() - 1 ==> entries.drop_last()[j] == entries[j]);
        lemma_widths_of_latest(entries.drop_last(), i);
    }
}

/// One chip to draw: which key, where its left edge sits, and how wide it
/// is (measured label width plus the fixed padding). Recomputed from the
/// keychain on every paint.
#[derive(Clone, Copy, Debug, PartialEq, Eq, Structural)]
pub struct RenderSpan {
    pub scan_code: ScanCode,
    pub x_offset: i32,
    pub width: i32,
}

/// The left edge of chip `i`: each earlier chip advances the cursor by its
/// measured width plus `padding` plus `gap`.
pub open spec fn span_offset(
    chain: Seq<ScanCode>,
    widths: Map<ScanCode, u32>,
    padding: int,
    gap: int,
    i: int,
) -> int
    decreases i,
{
    if i <= 0 {
        0
    } else {
        span_offset(chain, widths, padding, gap, i - 1) + widths[chain[i - 1]] + padding + gap
    }
}

/// Every displayed scan code has a cached width measurement.
pub open spec fn all_measured(chain: Seq<ScanCode>, widths: Map<ScanCode, u32>) -> bool {
    forall|i: int| 0 <= i < chain.len() ==> widths.contains_key(#[trigger] chain[i])
}

/// Every chip position, and the cursor advance past the last chip, fits in
/// the coordinate range of the renderer.
pub open spec fn layout_fits(
    chain: Seq<ScanCode>,
    widths: Map<ScanCode, u32>,
    padding: int,
    gap: int,
) -> bool {
    forall|i: int|
        0 < i <= chain.len() ==> #[trigger] span_offset(chain, widths, padding, gap, i) <= i32::MAX
}

/// Computes the chip layout of the whole keychain from the width cache:
/// one span per entry, in display order, with a running cursor that starts
/// at zero and advances by chip width plus `gap`. Returns `None` exactly
/// when some displayed key has no cached measurement (the caller must
/// measure it first; see `first_unmeasured`) or the chips would run past
/// the coordinate range.
pub fn layout(keychain: &Keychain, widths: &WidthCache, padding: i32, gap: i32) -> (r: Option<
    Vec<RenderSpan>,
>)
    requires
        padding >= 0,
        gap >= 0,
    ensures
        ({
            let chain = keychain.chain();
            let wmap = widths.widths();
            &&& r is Some <==> all_measured(chain, wmap) && layout_fits(
                chain,
                wmap,
                padding as int,
                gap as int,
            )
            &&& (r matches Some(spans) ==> {
                &&& spans@.len() == chain.len()
                &&& forall|i: int|
                    0 <= i < chain.len() ==> (#[trigger] spans@[i]).scan_code == chain[i]
                &&& forall|i: int|
                    0 <= i < chain.len() ==> (#[trigger] spans@[i]).x_offset == span_offset(
                        chain,
                        wmap,
                        padding as int,
                        gap as int,
                        i,
                    )
                &&& forall|i: int|
                    0 <= i < chain.len() ==> (#[trigger] spans@[i]).width == wmap[chain[i]]
                        + padding
            })
        }),
{
    let ghost chain = keychain.chain();
    let ghost wmap = widths.widths();
    let n = keychain.keys.len();
    let mut spans: Vec<RenderSpan> = Vec::new();
    let mut x: i32 = 0;
    let mut i: usize = 0;
    while i < n
        invariant
            n == keychain.keys@.len(),
            chain == keychain.chain(),
            wmap == widths.widths(),
            padding >= 0,
            gap >= 0,
            0 <= i <= n,
            spans@.len() == i,
            0 <= x,
            x == span_offset(chain, wmap, padding as int, gap as int, i as int),
            forall|j: int| 0 <= j < i ==> wmap.contains_key(#[trigger] chain[j]),
            forall|j: int|
                0 < j <= i ==> #[trigger] span_offset(chain, wmap, padding as int, gap as int, j)
                    <= i32::MAX,
            forall|j: int| 0 <= j < i ==> (#[trigger] spans@[j]).scan_code == chain[j],
            forall|j: int|
                0 <= j < i ==> (#[trigger] spans@[j]).x_offset == span_offset(
                    chain,
                    wmap,
                    padding as int,
                    gap as int,
                    j,
                ),
            forall|j: int| 0 <= j < i ==> (#[trigger] spans@[j]).width == wmap[chain[j]] + padding,
        decreases n - i,
    {
        let scan_code = keychain.keys[i].scan_code;
        proof {
            assert(chain[i as int] == scan_code);
        }
        let width = match widths.lookup(scan_code) {
            Some(width) => width,
            None => {
                return None;
            },
        };
        let next: i64 = x as i64 + width as i64 + padding as i64 + gap as i64;
        proof {
            assert(next == span_offset(chain, wmap, padding as int, gap as int, i + 1));
        }
        if next > i32::MAX as i64 {
            return None;
        }
        let chip_width: i32 = (width as i64 + padding as i64) as i32;
        spans.push(RenderSpan { scan_code, x_offset: x, width: chip_width });
        x = next as i32;
        i += 1;
    }
    Some(spans)
}

/// Position `i` holds the first displayed key without a cached width.
pub open spec fn first_unmeasured_at(
    chain: Seq<ScanCode>,
    widths: Map<ScanCode, u32>,
    i: int,
) -> bool {
    &&& 0 <= i < chain.len()
    &&& !widths.contains_key(chain[i])
    &&& forall|j: int| 0 <= j < i ==> widths.contains_key(#[trigger] chain[j])
}

/// The first displayed key, in display order, whose label width has not
/// been measured yet; `None` when the whole keychain is measured and
/// `layout` cannot fail for want of a measurement.
pub fn first_unmeasured(keychain: &Keychain, widths: &WidthCache) -> (r: Option<ScanCode>)
    ensures
        ({
            let chain = keychain.chain();
            let wmap = widths.widths();
            &&& r is None <==> all_measured(chain, wmap)
            &&& (r matches Some(scan_code) ==> chain.contains(scan_code) && !wmap.contains_key(
                scan_code,
            ) && exists|i: int| #[trigger] first_unmeasured_at(chain, wmap, i) && chain[i]
                == scan_code)
        }),
{
    let n = keychain.keys.len();
    let mut i: usize = 0;
    while i < n
        invariant
            n == keychain.keys@.len(),
            0 <= i <= n,
            forall|j: int|
                0 <= j < i ==> widths.widths().contains_key(#[trigger] keychain.chain()[j]),
        decreases n - i,
    {
        let scan_code = keychain.keys[i].scan_code;
        proof {
            assert(keychain.chain()[i as int] == scan_code);
        }
        if widths.lookup(scan_code).is_none() {
            proof {
                assert(keychain.chain().contains(scan_code));
                assert(first_unmeasured_at(keychain.chain(), widths.widths(), i as int));
            }
            return Some(scan_code);
        }
        i += 1;
    }
    None
}

} // verus!
