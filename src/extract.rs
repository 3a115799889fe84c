//! Extraction of a whole archive: main images first, then the sub-images
//! that are composited onto them.
use vstd::prelude::*;
use vstd::slice::{slice_subrange, slice_to_vec};
use vstd::string::StrSliceExecFns;

use crate::archive::ArchiveEntry;
use crate::decode::{decode_main, decode_sub, main_image, sub_image};
use crate::error::DecodeError;
use crate::header::{classify, kind_of, ImageKind};
use crate::names::ImageCache;
use crate::raster::{Pixel, RasterImage};

verus! {

/// What became of one archive entry.
#[derive(Debug)]
pub enum Extracted {
    /// A decoded image.
    Image(RasterImage),
    /// An entry that is not an image, as it is stored.
    Raw(Vec<u8>),
    /// An entry that could not be read or decoded.
    Failed(DecodeError),
}

/// Whether an entry name marks an image record: it ends in `pgd`.
pub open spec fn names_image(name: Seq<char>) -> bool {
    name.len() >= 3 && name[name.len() - 3] == 'p' && name[name.len() - 2] == 'g'
        && name[name.len() - 1] == 'd'
}

/// Whether the name `s` marks an image record.
pub fn is_image_name(s: &str) -> (r: bool)
    ensures
        r == names_image(s@),
{
    let n = s.unicode_len();
    n >= 3 && s.get_char(n - 3) == 'p' && s.get_char(n - 2) == 'g' && s.get_char(n - 1) == 'd'
}

/// Whether the byte range of `e` lies inside the archive `bytes`.
pub open spec fn in_archive(bytes: Seq<u8>, e: ArchiveEntry) -> bool {
    e.offset + e.len <= bytes.len()
}

/// The bytes of entry `e` of the archive `bytes`.
pub open spec fn record_of(bytes: Seq<u8>, e: ArchiveEntry) -> Seq<u8> {
    bytes.subrange(e.offset as int, e.offset + e.len)
}

/// Whether `e` is an image record with the main magic.
pub open spec fn is_main_entry(bytes: Seq<u8>, e: ArchiveEntry) -> bool {
    in_archive(bytes, e) && names_image(e.name@) && kind_of(record_of(bytes, e)) == Ok::<
        ImageKind,
        DecodeError,
    >(ImageKind::Main)
}

/// The image that the main entry `e` decodes to, where it does.
pub open spec fn main_result(bytes: Seq<u8>, e: ArchiveEntry) -> Option<(nat, nat, Seq<Pixel>)> {
    if is_main_entry(bytes, e) {
        match main_image(record_of(bytes, e).skip(4)) {
            Ok(img) => Some(img),
            Err(_) => None,
        }
    } else {
        None
    }
}

/// The image that the last main entry of `entries` named `key` decodes to,
/// among those that decode.
pub open spec fn last_main(bytes: Seq<u8>, entries: Seq<ArchiveEntry>, key: Seq<char>) -> Option<
    (nat, nat, Seq<Pixel>),
>
    decreases entries.len(),
{
    if entries.len() == 0 {
        None
    } else if entries.last().name@ == key && main_result(bytes, entries.last()) is Some {
        main_result(bytes, entries.last())
    } else {
        last_main(bytes, entries.drop_last(), key)
    }
}

/// Whether `out` is the image, or the error, of a decoding result.
pub open spec fn image_outcome(res: Result<(nat, nat, Seq<Pixel>), DecodeError>, out: Extracted) -> bool {
    match res {
        Ok(img) => out matches Extracted::Image(r) && r.wf() && r.width == img.0 && r.height
            == img.1 && r.pixels@ == img.2,
        Err(e) => out == Extracted::Failed(e),
    }
}

/// Whether `out` is what entry `e` of the archive `bytes` extracts to, with
/// the main images decoded into `cache`.
pub open spec fn entry_outcome(bytes: Seq<u8>, e: ArchiveEntry, cache: ImageCache, out: Extracted) -> bool {
    if !in_archive(bytes, e) {
        out == Extracted::Failed(DecodeError::Truncated)
    } else if !names_image(e.name@) {
        out matches Extracted::Raw(v) && v@ == record_of(bytes, e)
    } else {
        match kind_of(record_of(bytes, e)) {
            Err(err) => out == Extracted::Failed(err),
            Ok(ImageKind::Main) => image_outcome(main_image(record_of(bytes, e).skip(4)), out),
            Ok(ImageKind::Sub) => image_outcome(sub_image(record_of(bytes, e).skip(4), cache), out),
        }
    }
}

/// Whether `cache` holds, under each name, the last main image of `entries`
/// of that name that decodes.
pub open spec fn caches_main_images(
    bytes: Seq<u8>,
    entries: Seq<ArchiveEntry>,
    cache: ImageCache,
) -> bool {
    &&& cache.wf()
    &&& forall|k: Seq<char>|
        match #[trigger] cache.cached(k) {
            Some(img) => last_main(bytes, entries, k) == Some(
                (img.width as nat, img.height as nat, img.pixels@),
            ),
            None => last_main(bytes, entries, k) is None,
        }
}

/// Extracts every entry of the archive `bytes`, one result per entry in
/// table order: a failed entry does not stop the others. Main images are
/// decoded and cached first; sub-images are then composited onto the cached
/// main images. Returns the results and the cache.
pub fn extract_entries(bytes: &[u8], entries: &[ArchiveEntry]) -> (r: (Vec<Extracted>, ImageCache))
    ensures
        caches_main_images(bytes@, entries@, r.1),
        r.0@.len() == entries@.len(),
        forall|i: int|
            0 <= i < entries@.len() ==> entry_outcome(bytes@, entries@[i], r.1, #[trigger] r.0@[i]),
{
    let mut outs: Vec<Extracted> = Vec::new();
    let mut cache = ImageCache::new();
    let mut i: usize = 0;
    while i < entries.len()
        invariant
            i <= entries@.len(),
            outs@.len() == i,
            caches_main_images(bytes@, entries@.take(i as int), cache),
            forall|j: int|
                0 <= j < i ==> {
                    let e = entries@[j];
                    let out = #[trigger] outs@[j];
                    if in_archive(bytes@, e) && names_image(e.name@) && kind_of(
                        record_of(bytes@, e),
                    ) == Ok::<ImageKind, DecodeError>(ImageKind::Sub) {
                        out == Extracted::Failed(DecodeError::MissingBaseImage)
                    } else {
                        entry_outcome(bytes@, e, cache, out)
                    }
                },
        decreases entries@.len() - i,
    {
        let e = &entries[i];
        let ghost prev = entries@.take(i as int);
        assert(entries@.take(i + 1).drop_last() =~= prev);
        let out: Extracted;
        if (e.offset as u128) + (e.len as u128) > bytes.len() as u128 {
            out = Extracted::Failed(DecodeError::Truncated);
        } else {
            let rec = slice_subrange(bytes, e.offset as usize, e.offset as usize + e.len);
            if !is_image_name(e.name.as_str()) {
                out = Extracted::Raw(slice_to_vec(rec));
            } else {
                match classify(rec) {
                    Err(err) => {
                        out = Extracted::Failed(err);
                    },
                    Ok(ImageKind::Sub) => {
                        out = Extracted::Failed(DecodeError::MissingBaseImage);
                    },
                    Ok(ImageKind::Main) => {
                        let body = slice_subrange(rec, 4, rec.len());
                        match decode_main(body) {
                            Err(err) => {
                                out = Extracted::Failed(err);
                            },
                            Ok(img) => {
                                cache.insert(e.name.clone(), img.duplicate());
                                out = Extracted::Image(img);
                            },
                        }
                    },
                }
            }
        }
        outs.push(out);
        i = i + 1;
    }
    assert(entries@.take(entries@.len() as int) =~= entries@);
    let n = outs.len();
    let mut j: usize = 0;
    while j < n
        invariant
            n == entries@.len(),
            outs@.len() == n,
            caches_main_images(bytes@, entries@, cache),
            j <= n,
            forall|k: int|
                0 <= k < n ==> {
                    let e = entries@[k];
                    let out = #[trigger] outs@[k];
                    if k >= j && in_archive(bytes@, e) && names_image(e.name@) && kind_of(
                        record_of(bytes@, e),
                    ) == Ok::<ImageKind, DecodeError>(ImageKind::Sub) {
                        out == Extracted::Failed(DecodeError::MissingBaseImage)
                    } else {
                        entry_outcome(bytes@, e, cache, out)
                    }
                },
        decreases n - j,
    {
        let e = &entries[j];
        if (e.offset as u128) + (e.len as u128) <= bytes.len() as u128 && is_image_name(
            e.name.as_str(),
        ) {
            let rec = slice_subrange(bytes, e.offset as usize, e.offset as usize + e.len);
            if let Ok(ImageKind::Sub) = classify(rec) {
                let body = slice_subrange(rec, 4, rec.len());
                let out = match decode_sub(body, &cache) {
                    Ok(img) => Extracted::Image(img),
                    Err(err) => Extracted::Failed(err),
                };
                outs.set(j, out);
            }
        }
        j = j + 1;
    }
    (outs, cache)
}

} // verus!
