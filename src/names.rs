//! Asset names: NUL-terminated byte fields compared without regard to case.
use vstd::prelude::*;
use vstd::string::StrSliceExecFns;

use crate::raster::RasterImage;

verus! {

/// The text that `String::from_utf8_lossy` makes of some bytes.
pub uninterp spec fn lossy_text(b: Seq<u8>) -> Seq<char>;

/// The text that `str::to_lowercase` makes of some text.
pub uninterp spec fn lower_of(s: Seq<char>) -> Seq<char>;

/// Relies on `String::from_utf8_lossy`: the text depends on the bytes alone.
#[verifier::external_body]
fn text_of_bytes(b: &[u8]) -> (r: String)
    ensures
        r@ == lossy_text(b@),
{
    String::from_utf8_lossy(b).into_owned()
}

/// Relies on `str::to_lowercase`: the result depends on the text alone.
#[verifier::external_body]
fn lowercase(s: &str) -> (r: String)
    ensures
        r@ == lower_of(s@),
{
    s.to_lowercase()
}

/// Index of the first NUL byte of `b` at or after `i`, or its length.
pub open spec fn nul_index(b: Seq<u8>, i: nat) -> nat
    decreases b.len() - i,
{
    if i >= b.len() || b[i as int] == 0 {
        i
    } else {
        nul_index(b, i + 1)
    }
}

/// The bytes of a NUL-terminated field before its terminator (all of them
/// where it has none).
pub open spec fn field_text(b: Seq<u8>) -> Seq<u8> {
    b.take(nul_index(b, 0) as int)
}

/// The lookup key of a NUL-terminated name field: its text, lower-cased.
pub open spec fn key_of(b: Seq<u8>) -> Seq<char> {
    lower_of(lossy_text(field_text(b)))
}

/// The lookup key of a NUL-terminated name field.
pub fn asset_key(field: &[u8]) -> (r: String)
    ensures
        r@ == key_of(field@),
{
    let mut name: Vec<u8> = Vec::new();
    let mut i: usize = 0;
    while i < field.len() && field[i] != 0
        invariant
            i <= field.len(),
            nul_index(field@, i as nat) == nul_index(field@, 0),
            name@ == field@.take(i as int),
        decreases field.len() - i,
    {
        name.push(field[i]);
        i = i + 1;
        assert(name@ =~= field@.take(i as int));
    }
    let text = text_of_bytes(name.as_slice());
    lowercase(text.as_str())
}

/// Whether the field `field` holds its NUL terminator.
pub fn is_terminated(field: &[u8]) -> (r: bool)
    ensures
        r == (nul_index(field@, 0) < field@.len()),
{
    let mut i: usize = 0;
    while i < field.len() && field[i] != 0
        invariant
            i <= field.len(),
            nul_index(field@, i as nat) == nul_index(field@, 0),
        decreases field.len() - i,
    {
        i = i + 1;
    }
    i < field.len()
}

/// Whether two texts are equal.
pub fn same_text(a: &str, b: &str) -> (r: bool)
    ensures
        r == (a@ == b@),
{
    let n = a.unicode_len();
    if n != b.unicode_len() {
        return false;
    }
    let mut i: usize = 0;
    while i < n
        invariant
            n == a@.len(),
            n == b@.len(),
            i <= n,
            forall|k: int| 0 <= k < i ==> a@[k] == b@[k],
        decreases n - i,
    {
        if a.get_char(i) != b.get_char(i) {
            return false;
        }
        i = i + 1;
    }
    assert(a@ =~= b@);
    true
}

/// A decoded image under its lookup key.
#[derive(Debug)]
pub struct CachedImage {
    pub key: String,
    pub image: RasterImage,
}

/// The images decoded so far from one archive, by lower-cased name; a later
/// image under a key hides an earlier one.
#[derive(Debug)]
pub struct ImageCache {
    pub entries: Vec<CachedImage>,
}

/// Index of the last entry of `entries` under `key`.
pub open spec fn last_with_key(entries: Seq<CachedImage>, key: Seq<char>) -> Option<int>
    decreases entries.len(),
{
    if entries.len() == 0 {
        None
    } else if entries.last().key@ == key {
        Some(entries.len() - 1)
    } else {
        last_with_key(entries.drop_last(), key)
    }
}

proof fn lemma_last_with_key_in_range(entries: Seq<CachedImage>, key: Seq<char>)
    ensures
        last_with_key(entries, key) matches Some(i) ==> 0 <= i < entries.len() && entries[i].key@
            == key,
    decreases entries.len(),
{
    if entries.len() > 0 && entries.last().key@ != key {
        lemma_last_with_key_in_range(entries.drop_last(), key);
    }
}

impl ImageCache {
    /// The image cached under `key`.
    pub open spec fn cached(&self, key: Seq<char>) -> Option<RasterImage> {
        match last_with_key(self.entries@, key) {
            Some(i) => Some(self.entries@[i].image),
            None => None,
        }
    }

    /// Every cached image is well formed.
    pub open spec fn wf(&self) -> bool {
        forall|i: int| 0 <= i < self.entries@.len() ==> (#[trigger] self.entries@[i]).image.wf()
    }

    /// An empty cache.
    pub fn new() -> (r: ImageCache)
        ensures
            r.wf(),
            forall|k: Seq<char>| r.cached(k) is None,
    {
        ImageCache { entries: Vec::new() }
    }

    /// Caches `image` under `key`, in place of what was there.
    pub fn insert(&mut self, key: String, image: RasterImage)
        requires
            old(self).wf(),
            image.wf(),
        ensures
            final(self).wf(),
            forall|k: Seq<char>|
                #[trigger] final(self).cached(k) == if k == key@ {
                    Some(image)
                } else {
                    old(self).cached(k)
                },
    {
        let ghost before = self.entries@;
        let ghost key_view = key@;
        let ghost img = image;
        self.entries.push(CachedImage { key, image });
        assert(self.entries@.drop_last() =~= before);
        assert forall|k: Seq<char>| #[trigger] self.cached(k) == if k == key_view {
            Some(img)
        } else {
            old(self).cached(k)
        } by {
            lemma_last_with_key_in_range(before, k);
        }
    }

    /// The image cached under `key`, if any.
    pub fn lookup(&self, key: &str) -> (r: Option<&RasterImage>)
        requires
            self.wf(),
        ensures
            match r {
                Some(img) => self.cached(key@) == Some(*img) && img.wf(),
                None => self.cached(key@) is None,
            },
    {
        let mut i: usize = self.entries.len();
        assert(self.entries@.take(i as int) =~= self.entries@);
        while i > 0
            invariant
                self.wf(),
                i <= self.entries@.len(),
                last_with_key(self.entries@, key@) == last_with_key(
                    self.entries@.take(i as int),
                    key@,
                ),
            decreases i,
        {
            let ghost prefix = self.entries@.take(i as int);
            if same_text(self.entries[i - 1].key.as_str(), key) {
                assert(prefix.last() == self.entries@[i - 1]);
                assert(self.entries@[i - 1].image.wf());
                return Some(&self.entries[i - 1].image);
            }
            assert(prefix.drop_last() =~= self.entries@.take(i - 1));
            i = i - 1;
        }
        None
    }
}

} // verus!
