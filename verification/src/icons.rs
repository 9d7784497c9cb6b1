//! The executable-icon cache of the Processes table, and the pixel order that
//! textures want.

use vstd::prelude::*;

use crate::text;

verus! {

/// Side of an icon in pixels.
pub const ICON_PX: u32 = 16;

/// Fresh extractions that one frame may do.
pub const ICONS_PER_FRAME: u32 = 4;

/// One cached path: the number of its texture, or none where no icon could be
/// had. A failure is not tried again.
#[derive(Debug, PartialEq, Eq)]
pub struct IconEntry {
    pub path: String,
    pub texture: Option<u64>,
}

/// Icons by path.
#[derive(Debug, PartialEq, Eq)]
pub struct IconCache {
    entries: Vec<IconEntry>,
}

/// What to do for a row's icon.
#[derive(Debug, Clone, Copy, PartialEq, Eq, Structural)]
pub enum IconStep {
    /// The cache answers: this texture, or no icon.
    Show(Option<u64>),
    /// No icon this time.
    Skip,
    /// Extract the icon, and store what came of it.
    Extract,
}

/// What a cache holds for a path; the outer `None` is a miss.
pub open spec fn cached(entries: Seq<IconEntry>, path: Seq<char>) -> Option<Option<u64>>
    decreases entries.len(),
{
    if entries.len() == 0 {
        None
    } else if entries[0].path@ == path {
        Some(entries[0].texture)
    } else {
        cached(entries.drop_first(), path)
    }
}

impl IconCache {
    pub closed spec fn entries_view(self) -> Seq<IconEntry> {
        self.entries@
    }

    /// What the cache holds for a path; the outer `None` is a miss.
    pub open spec fn holds(self, path: Seq<char>) -> Option<Option<u64>> {
        cached(self.entries_view(), path)
    }

    pub fn new() -> (r: IconCache)
        ensures
            forall|path: Seq<char>| #[trigger] r.holds(path) is None,
    {
        IconCache { entries: Vec::new() }
    }

    fn find(&self, path: &str) -> (r: Option<Option<u64>>)
        ensures
            r == self.holds(path@),
    {
        assert(self.entries@.skip(0) =~= self.entries@);
        for i in 0..self.entries.len()
            invariant
                cached(self.entries@.skip(i as int), path@) == cached(self.entries@, path@),
        {
            assert(self.entries@.skip(i as int).drop_first() =~= self.entries@.skip(i + 1));
            if text::same_text(self.entries[i].path.as_str(), path) {
                return Some(self.entries[i].texture);
            }
        }
        None
    }

    /// The icon of a path, if the cache has it; else whether the frame's
    /// budget allows an extraction, which then counts against it.
    pub fn get_or_load(&self, path: &str, budget_remaining: &mut u32) -> (r: IconStep)
        ensures
            r == (match self.holds(path@) {
                Some(texture) => IconStep::Show(texture),
                None => if *old(budget_remaining) == 0 || path@.len() == 0 {
                    IconStep::Skip
                } else {
                    IconStep::Extract
                },
            }),
            *final(budget_remaining) == (if r == IconStep::Extract {
                *old(budget_remaining) - 1
            } else {
                *old(budget_remaining) as int
            }),
    {
        match self.find(path) {
            Some(texture) => IconStep::Show(texture),
            None => if *budget_remaining == 0 || path.is_empty() {
                IconStep::Skip
            } else {
                *budget_remaining = *budget_remaining - 1;
                IconStep::Extract
            },
        }
    }

    /// Remembers what an extraction came to.
    pub fn store(&mut self, path: &str, texture: Option<u64>)
        ensures
            final(self).holds(path@) == Some(texture),
            forall|other: Seq<char>|
                other != path@ ==> #[trigger] final(self).holds(other) == old(self).holds(other),
    {
        let ghost before = self.entries@;
        self.entries.insert(0, IconEntry { path: path.to_owned(), texture });
        assert(self.entries@.drop_first() =~= before);
    }
}

/// Red and blue exchanged in every four-byte pixel.
pub open spec fn swapped(px: Seq<u8>) -> Seq<u8> {
    Seq::new(
        px.len(),
        |i: int|
            if i % 4 == 0 {
                px[i + 2]
            } else if i % 4 == 2 {
                px[i - 2]
            } else {
                px[i]
            },
    )
}

/// Exchanging red and blue twice changes nothing.
pub proof fn swapping_twice_is_identity(px: Seq<u8>)
    requires
        px.len() % 4 == 0,
    ensures
        swapped(swapped(px)) == px,
{
    assert(swapped(swapped(px)) =~= px);
}

/// Turns blue-first pixels into red-first ones.
pub fn swizzle(bgra: &[u8]) -> (r: Vec<u8>)
    requires
        bgra@.len() % 4 == 0,
    ensures
        r@ == swapped(bgra@),
{
    let mut out: Vec<u8> = Vec::new();
    let mut i: usize = 0;
    while i < bgra.len()
        invariant
            bgra@.len() % 4 == 0,
            i % 4 == 0,
            i <= bgra@.len(),
            out@ == swapped(bgra@).take(i as int),
        decreases bgra@.len() - i,
    {
        out.push(bgra[i + 2]);
        out.push(bgra[i + 1]);
        out.push(bgra[i]);
        out.push(bgra[i + 3]);
        i = i + 4;
        assert(out@ =~= swapped(bgra@).take(i as int));
    }
    assert(out@ =~= swapped(bgra@));
    out
}

} // verus!
