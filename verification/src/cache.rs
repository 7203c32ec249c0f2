//! The fragment cache: content-hash-keyed memoization of rendered artifacts.
//!
//! The fingerprint of a render is the SHA-256 digest of the render kind, the
//! renderer target, the numeric scale and the directive body.  An identical
//! fingerprint means the artifact is reused and the external renderer is not
//! invoked again.

use vstd::prelude::*;

use crate::directive::RenderKind;
use crate::text::extend_bytes;
use crate::types::SupportedRenderer;

verus! {

/// The SHA-256 digest of a byte sequence: a function of the input bytes
/// alone.
pub uninterp spec fn sha256_of(data: Seq<u8>) -> Seq<u8>;

/// Relies on sha2's `Sha256::digest`: the 32-byte SHA-256 digest of the
/// input, a function of the input bytes alone.
#[verifier::external_body]
fn sha256(data: &[u8]) -> (r: Vec<u8>)
    ensures
        r@ == sha256_of(data@),
        r@.len() == 32,
{
    <sha2::Sha256 as sha2::Digest>::digest(data).to_vec()
}

/// A one-byte tag for each render kind, for the fingerprint input.
pub open spec fn kind_tag(kind: RenderKind) -> u8 {
    match kind {
        RenderKind::Latex => 1,
        RenderKind::Gnuplot => 2,
        RenderKind::GnuplotOnly => 3,
        RenderKind::Equation => 4,
    }
}

/// A one-byte tag for each renderer target, for the fingerprint input.
pub open spec fn renderer_tag(renderer: SupportedRenderer) -> u8 {
    match renderer {
        SupportedRenderer::Tectonic => 1,
        SupportedRenderer::Latex => 2,
        SupportedRenderer::Markdown => 3,
        SupportedRenderer::Html => 4,
    }
}

/// The serialized input the fingerprint digests: kind tag, renderer tag, the
/// scale in tenths as four little-endian bytes, then the body.
pub open spec fn fp_input(
    kind: RenderKind,
    renderer: SupportedRenderer,
    scale_tenths: u32,
    body: Seq<u8>,
) -> Seq<u8> {
    seq![
        kind_tag(kind),
        renderer_tag(renderer),
        (scale_tenths % 256) as u8,
        ((scale_tenths / 256) % 256) as u8,
        ((scale_tenths / 65536) % 256) as u8,
        ((scale_tenths / 16777216) % 256) as u8,
    ] + body
}

/// The content fingerprint of a render: the SHA-256 digest of its serialized
/// input.
pub open spec fn fingerprint_of(
    kind: RenderKind,
    renderer: SupportedRenderer,
    scale_tenths: u32,
    body: Seq<u8>,
) -> Seq<u8> {
    sha256_of(fp_input(kind, renderer, scale_tenths, body))
}

/// Computes the content fingerprint of a render.
pub fn fingerprint(
    kind: RenderKind,
    renderer: SupportedRenderer,
    scale_tenths: u32,
    body: &[u8],
) -> (r: Vec<u8>)
    ensures
        r@ == fingerprint_of(kind, renderer, scale_tenths, body@),
        r@.len() == 32,
{
    let mut input: Vec<u8> = Vec::new();
    input.push(match kind {
        RenderKind::Latex => 1,
        RenderKind::Gnuplot => 2,
        RenderKind::GnuplotOnly => 3,
        RenderKind::Equation => 4,
    });
    input.push(match renderer {
        SupportedRenderer::Tectonic => 1,
        SupportedRenderer::Latex => 2,
        SupportedRenderer::Markdown => 3,
        SupportedRenderer::Html => 4,
    });
    input.push((scale_tenths % 256) as u8);
    input.push(((scale_tenths / 256) % 256) as u8);
    input.push(((scale_tenths / 65536) % 256) as u8);
    input.push(((scale_tenths / 16777216) % 256) as u8);
    extend_bytes(&mut input, body);
    proof {
        assert(input@ =~= fp_input(kind, renderer, scale_tenths, body@));
    }
    sha256(input.as_slice())
}

/// One fingerprint-to-artifact binding.
#[derive(Debug, Clone, PartialEq, Eq)]
pub struct CacheEntry {
    pub fingerprint: Vec<u8>,
    pub artifact: String,
}

/// The map a list of bindings denotes, later bindings shadowing earlier ones.
pub open spec fn cache_map(s: Seq<CacheEntry>) -> Map<Seq<u8>, Seq<char>>
    decreases s.len(),
{
    if s.len() == 0 {
        Map::empty()
    } else {
        cache_map(s.drop_last()).insert(s.last().fingerprint@, s.last().artifact@)
    }
}

/// The fragment cache: content fingerprint to artifact path.
#[derive(Debug, Clone)]
pub struct FragmentCache {
    entries: Vec<CacheEntry>,
}

impl View for FragmentCache {
    type V = Map<Seq<u8>, Seq<char>>;

    closed spec fn view(&self) -> Map<Seq<u8>, Seq<char>> {
        cache_map(self.entries@)
    }
}

impl FragmentCache {
    /// The empty cache.
    pub fn new() -> (r: FragmentCache)
        ensures
            r@ == Map::<Seq<u8>, Seq<char>>::empty(),
    {
        let r = FragmentCache { entries: Vec::new() };
        proof {
            assert(r.entries@.len() == 0);
        }
        r
    }

    /// Records that `fingerprint`'s artifact is at `artifact`.
    pub fn insert(&mut self, fingerprint: Vec<u8>, artifact: String)
        ensures
            final(self)@ == old(self)@.insert(fingerprint@, artifact@),
    {
        let ghost f = fingerprint@;
        let ghost a = artifact@;
        self.entries.push(CacheEntry { fingerprint, artifact });
        proof {
            assert(self.entries@.drop_last() =~= old(self).entries@);
            assert(self.entries@.last().fingerprint@ == f);
            assert(self.entries@.last().artifact@ == a);
        }
    }

    /// Looks a fingerprint up: the artifact path it was recorded with, if
    /// any.
    pub fn lookup(&self, fingerprint: &[u8]) -> (r: Option<String>)
        ensures
            match r {
                Some(artifact) => self@.contains_key(fingerprint@) && artifact@
                    == self@[fingerprint@],
                None => !self@.contains_key(fingerprint@),
            },
    {
        let n = self.entries.len();
        proof {
            assert(self.entries@.subrange(0, n as int) =~= self.entries@);
        }
        let mut t = n;
        while t > 0
            invariant
                t <= n == self.entries@.len(),
                cache_map(self.entries@).contains_key(fingerprint@) == cache_map(
                    self.entries@.subrange(0, t as int),
                ).contains_key(fingerprint@),
                cache_map(self.entries@).contains_key(fingerprint@) ==> cache_map(
                    self.entries@,
                )[fingerprint@] == cache_map(self.entries@.subrange(0, t as int))[fingerprint@],
            decreases t,
        {
            t -= 1;
            let ghost pre = self.entries@.subrange(0, t + 1 as int);
            proof {
                assert(pre.drop_last() =~= self.entries@.subrange(0, t as int));
                assert(pre.last() == self.entries@[t as int]);
                assert(cache_map(pre) == cache_map(self.entries@.subrange(0, t as int)).insert(
                    self.entries@[t as int].fingerprint@,
                    self.entries@[t as int].artifact@,
                ));
            }
            if crate::text::bytes_eq(self.entries[t].fingerprint.as_slice(), fingerprint) {
                return Some(self.entries[t].artifact.clone());
            }
        }
        proof {
            assert(self.entries@.subrange(0, 0) =~= Seq::<CacheEntry>::empty());
        }
        None
    }
}

} // verus!
