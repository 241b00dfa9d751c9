//! Module locator model: a resolved binary image's name-independent extent
//! `[base, end]`, an ownership record for the acquired loader reference, and
//! the wildcard byte-pattern scanner over the image's bytes.
//!
//! The live image belongs to the host process; the scanner therefore works on
//! a byte snapshot of the extent handed in by the caller, and reports an
//! address only when the pattern identifies exactly one location.

use vstd::prelude::*;

verus! {

/// Outcome of a signature scan: the unique matching address, no match at
/// all, or more than one match (a pattern that cannot uniquely identify a
/// location must not be silently trusted).
#[derive(Clone, Copy, Debug, PartialEq, Eq, Structural)]
pub enum ScanResult {
    Found(usize),
    NotFound,
    Ambiguous,
}

/// The pattern matches the bytes of `mem` starting at position `s`: the whole
/// pattern lies inside `mem`, every exact element equals the byte under it,
/// and a wildcard element matches any byte.
pub open spec fn matches_at(mem: Seq<u8>, pat: Seq<Option<u8>>, s: int) -> bool {
    &&& 0 <= s
    &&& s + pat.len() <= mem.len()
    &&& forall|k: int|
        0 <= k < pat.len() ==> ((#[trigger] pat[k]) is Some ==> pat[k]->0 == mem[s + k])
}

/// A resolved module image: its inclusive address extent and a record of the
/// loader reference acquired when it was resolved.
pub struct Module {
    base: usize,
    end: usize,
    ref_held: bool,
}

impl Module {
    /// Base address of the image.
    pub closed spec fn spec_base(&self) -> int {
        self.base as int
    }

    /// Inclusive end address of the image.
    pub closed spec fn spec_end(&self) -> int {
        self.end as int
    }

    /// Whether the loader reference acquired at resolution is still held.
    pub closed spec fn holds_ref(&self) -> bool {
        self.ref_held
    }

    /// A resolved extent is never empty: base <= end.
    pub open spec fn wf(&self) -> bool {
        self.spec_base() <= self.spec_end()
    }

    /// Number of addresses in the inclusive extent.
    pub open spec fn spec_extent_len(&self) -> int {
        self.spec_end() - self.spec_base() + 1
    }

    /// Builds the module image record from the host loader's metadata (base
    /// address and image size), computing the inclusive extent
    /// `[base, base + size - 1]`. Degenerate metadata (a zero size, or an
    /// extent past the address space) yields absence, as a failed metadata
    /// query does.
    pub fn from_extent(base: usize, size: usize) -> (r: Option<Module>)
        ensures
            r is Some <==> (size >= 1 && base + size - 1 <= usize::MAX),
            r is Some ==> {
                &&& r->0.wf()
                &&& r->0.spec_base() == base
                &&& r->0.spec_end() == base + size - 1
                &&& r->0.holds_ref()
            },
    {
        if size >= 1 && base <= usize::MAX - (size - 1) {
            Some(Module { base, end: base + (size - 1), ref_held: true })
        } else {
            None
        }
    }

    /// Base address of the image.
    pub fn base(&self) -> (r: usize)
        ensures
            r == self.spec_base(),
    {
        self.base
    }

    /// Inclusive end address of the image.
    pub fn end(&self) -> (r: usize)
        ensures
            r == self.spec_end(),
    {
        self.end
    }

    /// Whether the loader reference is still held.
    pub fn holds_reference(&self) -> (r: bool)
        ensures
            r == self.holds_ref(),
    {
        self.ref_held
    }

    /// `base + i`, with no bounds check against the extent: staying inside
    /// the image is the caller's responsibility.
    pub fn offset(&self, i: usize) -> (r: usize)
        requires
            self.spec_base() + i <= usize::MAX,
        ensures
            r == self.spec_base() + i,
    {
        self.base + i
    }

    /// Releases the acquired loader reference record. Idempotent: releasing
    /// an already-released record changes nothing.
    pub fn release(&mut self)
        ensures
            !final(self).holds_ref(),
            final(self).spec_base() == old(self).spec_base(),
            final(self).spec_end() == old(self).spec_end(),
    {
        self.ref_held = false;
    }

    /// Scans every valid starting address of the extent for the pattern,
    /// comparing left to right with wildcards matching any byte and never
    /// reading past the extent's last byte. Exactly one match yields its
    /// address; zero matches yield `NotFound`; two or more yield `Ambiguous`.
    ///
    /// `memory` is a snapshot of the extent's bytes, read by the caller.
    pub fn scan_signature(&self, memory: &[u8], signature: &[Option<u8>]) -> (r: ScanResult)
        requires
            self.wf(),
            memory@.len() == self.spec_extent_len(),
            signature@.len() >= 1,
        ensures
            r is NotFound <==> (forall|s: int| !matches_at(memory@, signature@, s)),
            r is Ambiguous <==> (exists|s1: int, s2: int|
                s1 < s2 && matches_at(memory@, signature@, s1) && matches_at(
                    memory@,
                    signature@,
                    s2,
                )),
            r matches ScanResult::Found(a) ==> {
                &&& self.spec_base() <= a <= self.spec_end()
                &&& matches_at(memory@, signature@, a - self.spec_base())
                &&& forall|s: int|
                    matches_at(memory@, signature@, s) ==> s == a - self.spec_base()
            },
    {
        let n = memory.len();
        let m = signature.len();
        if m > n {
            return ScanResult::NotFound;
        }
        let mut found_at: Option<usize> = None;
        let mut s: usize = 0;
        while s <= n - m
            invariant
                1 <= m <= n == memory@.len(),
                m == signature@.len(),
                0 <= s <= n - m + 1,
                found_at matches Some(f) ==> f < s && matches_at(memory@, signature@, f as int),
                found_at matches Some(f) ==> (forall|t: int|
                    matches_at(memory@, signature@, t) && t < s ==> t == f),
                found_at is None ==> (forall|t: int|
                    t < s ==> !matches_at(memory@, signature@, t)),
            decreases n - m + 1 - s,
        {
            let mut k: usize = 0;
            let mut hit = true;
            while k < m
                invariant
                    0 <= k <= m == signature@.len(),
                    n == memory@.len(),
                    s + m <= n,
                    hit ==> (forall|j: int|
                        0 <= j < k ==> ((#[trigger] signature@[j]) is Some
                            ==> signature@[j]->0 == memory@[s + j])),
                    !hit ==> !matches_at(memory@, signature@, s as int),
                decreases m - k,
            {
                if hit {
                    match signature[k] {
                        Some(want) => {
                            if memory[s + k] != want {
                                hit = false;
                            }
                        },
                        None => {},
                    }
                }
                k += 1;
            }
            if hit {
                proof {
                    assert(matches_at(memory@, signature@, s as int));
                }
                match found_at {
                    None => {
                        found_at = Some(s);
                    },
                    Some(_) => {
                        return ScanResult::Ambiguous;
                    },
                }
            }
            s += 1;
        }
        match found_at {
            Some(f) => {
                proof {
                    assert(self.spec_base() + f <= self.spec_end());
                }
                ScanResult::Found(self.base + f)
            },
            None => ScanResult::NotFound,
        }
    }
}

/// For a pattern with no wildcards, matching at `s` is exactly the exact
/// byte sequence of the pattern occurring at `s` in the scanned bytes; with
/// the scanner's contract, such a pattern is found if and only if that
/// sequence occurs at exactly one position.
pub proof fn lemma_exact_match(mem: Seq<u8>, pat: Seq<Option<u8>>, s: int)
    requires
        forall|k: int| 0 <= k < pat.len() ==> (#[trigger] pat[k]) is Some,
    ensures
        matches_at(mem, pat, s) <==> (0 <= s && s + pat.len() <= mem.len() && mem.subrange(
            s,
            s + pat.len() as int,
        ) == pat.map_values(|o: Option<u8>| o->0)),
{
    let bytes = pat.map_values(|o: Option<u8>| o->0);
    if matches_at(mem, pat, s) {
        assert(mem.subrange(s, s + pat.len() as int) =~= bytes);
    }
    if 0 <= s && s + pat.len() <= mem.len() && mem.subrange(s, s + pat.len() as int) == bytes {
        assert forall|k: int|
            0 <= k < pat.len() implies ((#[trigger] pat[k]) is Some ==> pat[k]->0 == mem[s
            + k]) by {
            assert(bytes[k] == pat[k]->0);
            assert(mem.subrange(s, s + pat.len() as int)[k] == mem[s + k]);
        }
    }
}

/// For an all-wildcard pattern, every start that keeps the pattern inside
/// the scanned bytes matches. With the scanner's contract: such a pattern
/// strictly shorter than the extent has at least the two starts 0 and 1,
/// hence scans as ambiguous, while one of exactly the extent's length has
/// the single start 0, hence is found.
pub proof fn lemma_wildcard_match(mem: Seq<u8>, pat: Seq<Option<u8>>)
    requires
        pat.len() >= 1,
        forall|k: int| 0 <= k < pat.len() ==> (#[trigger] pat[k]) is None,
    ensures
        forall|s: int|
            #[trigger] matches_at(mem, pat, s) <==> 0 <= s <= mem.len() - pat.len(),
{
    assert forall|s: int|
        #[trigger] matches_at(mem, pat, s) <==> 0 <= s <= mem.len() - pat.len() by {
        if 0 <= s <= mem.len() - pat.len() {
            assert(forall|k: int|
                0 <= k < pat.len() ==> ((#[trigger] pat[k]) is Some ==> pat[k]->0 == mem[s
                    + k]));
        }
    }
}

} // verus!
