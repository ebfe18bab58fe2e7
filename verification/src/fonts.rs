//! Font resolver: a read-only registry of embedded glyph payloads, probed
//! with an ordered family fallback chain. A stack request names families in
//! caller order; a fixed fallback family is appended, and the first family
//! whose key is present wins.

use vstd::prelude::*;
use crate::bytes::{
    bytes_eq, decode_spaces, extend_bytes, spec_decode_spaces, BYTE_SLASH,
};

verus! {

/// One embedded glyph payload, addressed by its full lookup key
/// (`fonts/<family>/<range>.pbf`).
pub struct FontEntry {
    pub key: Vec<u8>,
    pub data: Vec<u8>,
}

/// The read-only glyph table, built once at startup.
pub struct FontRegistry {
    pub entries: Vec<FontEntry>,
}

/// The key prefix `fonts/`.
pub open spec fn spec_fonts_prefix() -> Seq<u8> {
    seq![102u8, 111u8, 110u8, 116u8, 115u8, 47u8]
}

/// The key suffix `.pbf`.
pub open spec fn spec_pbf_suffix() -> Seq<u8> {
    seq![46u8, 112u8, 98u8, 102u8]
}

/// The fallback family `Roboto Regular`, appended after every caller stack.
pub open spec fn spec_fallback_family() -> Seq<u8> {
    seq![82u8, 111u8, 98u8, 111u8, 116u8, 111u8, 32u8, 82u8, 101u8, 103u8, 117u8, 108u8, 97u8,
        114u8]
}

/// The lookup key probed for one family: `fonts/<family>/<range>.pbf`, with
/// `%20` in the family decoded to a space.
pub open spec fn spec_font_key(family: Seq<u8>, range: Seq<u8>) -> Seq<u8> {
    spec_fonts_prefix() + spec_decode_spaces(family) + seq![BYTE_SLASH] + range + spec_pbf_suffix()
}

/// A caller stack with the fallback family appended.
pub open spec fn spec_with_fallback(families: Seq<Seq<u8>>) -> Seq<Seq<u8>> {
    families.push(spec_fallback_family())
}

impl FontRegistry {
    /// Keys are unique: the registry is a finite map.
    pub open spec fn wf(self) -> bool {
        forall|i: int, j: int|
            0 <= i < j < self.entries@.len() ==> self.entries@[i].key@ != self.entries@[j].key@
    }

    /// Whether some entry carries `key`.
    pub open spec fn spec_contains(self, key: Seq<u8>) -> bool {
        exists|i: int| 0 <= i < self.entries@.len() && self.entries@[i].key@ == key
    }

    /// The payload stored under `key`, if any.
    pub open spec fn spec_get(self, key: Seq<u8>) -> Option<Seq<u8>> {
        if self.spec_contains(key) {
            let i = choose|i: int|
                0 <= i < self.entries@.len() && self.entries@[i].key@ == key;
            Some(self.entries@[i].data@)
        } else {
            None
        }
    }

    /// An empty registry.
    pub fn new() -> (r: Self)
        ensures
            r.wf(),
            r.entries@.len() == 0,
            forall|k: Seq<u8>| r.spec_get(k) is None,
    {
        FontRegistry { entries: Vec::new() }
    }

    /// Whether `key` is present.
    pub fn contains_key(&self, key: &[u8]) -> (r: bool)
        ensures
            r == self.spec_contains(key@),
    {
        let n = self.entries.len();
        let mut i: usize = 0;
        while i < n
            invariant
                n == self.entries@.len(),
                0 <= i <= n,
                forall|j: int| 0 <= j < i ==> self.entries@[j].key@ != key@,
            decreases n - i,
        {
            if bytes_eq(self.entries[i].key.as_slice(), key) {
                return true;
            }
            i += 1;
        }
        false
    }

    /// Adds a payload under a key not yet present.
    pub fn add(&mut self, key: Vec<u8>, data: Vec<u8>)
        requires
            old(self).wf(),
            !old(self).spec_contains(key@),
        ensures
            final(self).wf(),
            final(self).entries@ == old(self).entries@.push(
                FontEntry { key: key, data: data },
            ),
            final(self).spec_get(key@) == Some::<Seq<u8>>(data@),
            forall|k: Seq<u8>|
                k != key@ ==> final(self).spec_get(k) == old(self).spec_get(k),
    {
        let ghost k = key@;
        let ghost d = data@;
        self.entries.push(FontEntry { key, data });
        proof {
            let n = self.entries@.len() - 1;
            assert(self.entries@[n].key@ == k);
            assert(self.spec_contains(k));
            let i = choose|i: int| 0 <= i < self.entries@.len() && self.entries@[i].key@ == k;
            assert(self.entries@[i].data@ == d);
            assert forall|q: Seq<u8>| q != k implies self.spec_get(q) == old(self).spec_get(q) by {
                if old(self).spec_contains(q) {
                    let j = choose|j: int|
                        0 <= j < old(self).entries@.len() && old(self).entries@[j].key@ == q;
                    assert(self.entries@[j].key@ == q);
                    assert(self.spec_contains(q));
                    let j2 = choose|j2: int|
                        0 <= j2 < self.entries@.len() && self.entries@[j2].key@ == q;
                    assert(self.entries@[j2].data@ == old(self).entries@[j].data@);
                } else {
                    assert(forall|j: int|
                        0 <= j < old(self).entries@.len() ==> old(self).entries@[j].key@ != q);
                    assert(!self.spec_contains(q));
                }
            }
        }
    }

    /// Looks a key up, returning the stored payload.
    pub fn get<'a>(&'a self, key: &[u8]) -> (r: Option<&'a Vec<u8>>)
        requires
            self.wf(),
        ensures
            match r {
                Some(d) => self.spec_get(key@) == Some::<Seq<u8>>(d@),
                None => self.spec_get(key@) is None,
            },
    {
        let n = self.entries.len();
        let mut i: usize = 0;
        while i < n
            invariant
                self.wf(),
                n == self.entries@.len(),
                0 <= i <= n,
                forall|j: int| 0 <= j < i ==> self.entries@[j].key@ != key@,
            decreases n - i,
        {
            if bytes_eq(self.entries[i].key.as_slice(), key) {
                proof {
                    assert(self.spec_contains(key@));
                    let j = choose|j: int|
                        0 <= j < self.entries@.len() && self.entries@[j].key@ == key@;
                    assert(j == i);
                }
                return Some(&self.entries[i].data);
            }
            i += 1;
        }
        None
    }
}

/// Ordered fallback resolution: the payload of the first family in the list
/// whose key is present, or `None` when every family misses.
pub open spec fn spec_resolve_fonts(
    reg: FontRegistry,
    families: Seq<Seq<u8>>,
    range: Seq<u8>,
) -> Option<Seq<u8>>
    decreases families.len(),
{
    if families.len() == 0 {
        None
    } else {
        match reg.spec_get(spec_font_key(families[0], range)) {
            Some(d) => Some(d),
            None => spec_resolve_fonts(reg, families.skip(1), range),
        }
    }
}

/// Resolution is order-preserving: when the families before `i` all miss and
/// family `i` hits, the stack resolves to family `i`'s payload — never to a
/// later family, however many of those are also present.
pub proof fn lemma_font_resolution_order(
    reg: FontRegistry,
    families: Seq<Seq<u8>>,
    range: Seq<u8>,
    i: int,
)
    requires
        0 <= i < families.len(),
        forall|j: int| 0 <= j < i ==> reg.spec_get(spec_font_key(families[j], range)) is None,
        reg.spec_get(spec_font_key(families[i], range)) is Some,
    ensures
        spec_resolve_fonts(reg, families, range) == reg.spec_get(
            spec_font_key(families[i], range),
        ),
    decreases i,
{
    if i == 0 {
    } else {
        assert(families.skip(1)[i - 1] == families[i]);
        assert(forall|j: int|
            0 <= j < i - 1 ==> families.skip(1)[j] == families[j + 1]);
        lemma_font_resolution_order(reg, families.skip(1), range, i - 1);
    }
}

/// A stack whose every family misses — the appended fallback included —
/// resolves to nothing.
pub proof fn lemma_font_resolution_exhausted(
    reg: FontRegistry,
    families: Seq<Seq<u8>>,
    range: Seq<u8>,
)
    requires
        forall|j: int|
            0 <= j < families.len() ==> reg.spec_get(spec_font_key(families[j], range)) is None,
    ensures
        spec_resolve_fonts(reg, families, range) is None,
    decreases families.len(),
{
    if families.len() > 0 {
        assert(forall|j: int|
            0 <= j < families.len() - 1 ==> families.skip(1)[j] == families[j + 1]);
        lemma_font_resolution_exhausted(reg, families.skip(1), range);
    }
}

/// The `fonts/` key prefix as bytes.
fn fonts_prefix() -> (v: Vec<u8>)
    ensures
        v@ == spec_fonts_prefix(),
{
    let mut v: Vec<u8> = Vec::new();
    v.push(102);
    v.push(111);
    v.push(110);
    v.push(116);
    v.push(115);
    v.push(47);
    proof {
        assert(v@ =~= spec_fonts_prefix());
    }
    v
}

/// The `.pbf` key suffix as bytes.
fn pbf_suffix() -> (v: Vec<u8>)
    ensures
        v@ == spec_pbf_suffix(),
{
    let mut v: Vec<u8> = Vec::new();
    v.push(46);
    v.push(112);
    v.push(98);
    v.push(102);
    proof {
        assert(v@ =~= spec_pbf_suffix());
    }
    v
}

/// The fallback family name as bytes.
pub fn fallback_family() -> (v: Vec<u8>)
    ensures
        v@ == spec_fallback_family(),
{
    let mut v: Vec<u8> = Vec::new();
    v.push(82);
    v.push(111);
    v.push(98);
    v.push(111);
    v.push(116);
    v.push(111);
    v.push(32);
    v.push(82);
    v.push(101);
    v.push(103);
    v.push(117);
    v.push(108);
    v.push(97);
    v.push(114);
    proof {
        assert(v@ =~= spec_fallback_family());
    }
    v
}

/// Builds the lookup key for one family and range.
fn font_key(family: &[u8], range: &[u8]) -> (v: Vec<u8>)
    ensures
        v@ == spec_font_key(family@, range@),
{
    let mut v = fonts_prefix();
    let decoded = decode_spaces(family);
    extend_bytes(&mut v, decoded.as_slice());
    v.push(BYTE_SLASH);
    extend_bytes(&mut v, range);
    let suffix = pbf_suffix();
    extend_bytes(&mut v, suffix.as_slice());
    proof {
        assert(v@ =~= spec_font_key(family@, range@));
    }
    v
}

impl FontRegistry {
    /// Resolves a caller-ordered family stack plus the implicit fallback
    /// against the registry, returning the first hit's payload.
    pub fn resolve(&self, families: &Vec<Vec<u8>>, range: &[u8]) -> (r: Option<Vec<u8>>)
        requires
            self.wf(),
        ensures
            ({
                let fams = spec_with_fallback(families@.map_values(|f: Vec<u8>| f@));
                match r {
                    Some(d) => spec_resolve_fonts(*self, fams, range@) == Some::<Seq<u8>>(d@),
                    None => spec_resolve_fonts(*self, fams, range@) is None,
                }
            }),
    {
        let ghost fams = spec_with_fallback(families@.map_values(|f: Vec<u8>| f@));
        let n = families.len();
        proof {
            assert(fams.skip(0) =~= fams);
        }
        let mut i: usize = 0;
        while i < n
            invariant
                self.wf(),
                n == families@.len(),
                0 <= i <= n,
                fams == spec_with_fallback(families@.map_values(|f: Vec<u8>| f@)),
                fams.len() == n + 1,
                forall|j: int| 0 <= j < n ==> fams[j] == families@[j]@,
                fams[n as int] == spec_fallback_family(),
                spec_resolve_fonts(*self, fams, range@) == spec_resolve_fonts(
                    *self,
                    fams.skip(i as int),
                    range@,
                ),
            decreases n - i,
        {
            let key = font_key(families[i].as_slice(), range);
            match self.get(key.as_slice()) {
                Some(d) => {
                    proof {
                        assert(fams.skip(i as int)[0] == fams[i as int]);
                    }
                    let mut out: Vec<u8> = Vec::new();
                    extend_bytes(&mut out, d.as_slice());
                    proof {
                        assert(out@ =~= d@);
                    }
                    return Some(out);
                },
                None => {
                    proof {
                        assert(fams.skip(i as int)[0] == fams[i as int]);
                        assert(fams.skip(i as int).skip(1) =~= fams.skip(i + 1));
                    }
                },
            }
            i += 1;
        }
        let fb = fallback_family();
        let key = font_key(fb.as_slice(), range);
        proof {
            assert(fams.skip(n as int)[0] == fams[n as int]);
            assert(fams.skip(n as int).skip(1) =~= fams.skip(n + 1));
            assert(fams.skip(n + 1) =~= Seq::<Seq<u8>>::empty());
        }
        match self.get(key.as_slice()) {
            Some(d) => {
                proof {
                    let tail = fams.skip(n as int);
                    assert(tail.len() == 1);
                    assert(tail[0] == fams[n as int]);
                    assert(self.spec_get(spec_font_key(tail[0], range@)) == Some::<Seq<u8>>(d@));
                    assert(spec_resolve_fonts(*self, tail, range@) == Some::<Seq<u8>>(d@));
                }
                let mut out: Vec<u8> = Vec::new();
                extend_bytes(&mut out, d.as_slice());
                proof {
                    assert(out@ =~= d@);
                }
                Some(out)
            },
            None => {
                proof {
                    let tail = fams.skip(n as int);
                    assert(tail.len() == 1);
                    assert(tail[0] == fams[n as int]);
                    assert(self.spec_get(spec_font_key(tail[0], range@)) is None);
                    assert(tail.skip(1) =~= Seq::<Seq<u8>>::empty());
                    assert(spec_resolve_fonts(*self, Seq::<Seq<u8>>::empty(), range@) is None);
                    assert(spec_resolve_fonts(*self, tail, range@) is None);
                }
                None
            },
        }
    }
}

} // verus!
