//! The flat archive directory: named byte ranges of one container file.
use vstd::prelude::*;
use vstd::slice::slice_subrange;

use crate::error::DecodeError;
use crate::header::{le32, read_u32};
use crate::names::{asset_key, key_of, same_text};

verus! {

/// Offset of the entry table in an archive.
pub const TABLE_START: usize = 0x0804;

/// Bytes of one entry of the table: a 32-byte NUL-terminated name, then the
/// length and the offset (32 bits each).
pub const ENTRY_LEN: usize = 40;

/// Little-endian 64-bit field at `i`.
pub open spec fn le64(b: Seq<u8>, i: int) -> nat {
    le32(b, i) + 0x1_0000_0000 * le32(b, i + 4)
}

/// Whether `b` starts with the archive magic `PAC `.
pub open spec fn is_archive(b: Seq<u8>) -> bool {
    b.len() >= 4 && b[0] == 0x50 && b[1] == 0x41 && b[2] == 0x43 && b[3] == 0x20
}

/// The entry count of an archive: 64 bits at offset 8.
pub open spec fn entry_count(b: Seq<u8>) -> nat {
    le64(b, 8)
}

/// Whether the count field and the whole entry table of an archive lie
/// inside `b`; an archive with no entries needs no table.
pub open spec fn table_fits(b: Seq<u8>) -> bool {
    b.len() >= 16 && (entry_count(b) == 0 || TABLE_START + ENTRY_LEN * entry_count(b) <= b.len())
}

/// Start of entry `i` of the table.
pub open spec fn entry_start(i: int) -> int {
    TABLE_START + ENTRY_LEN * i
}

/// One named byte range of an archive.
#[derive(Debug)]
pub struct ArchiveEntry {
    /// The entry's name, lower-cased.
    pub name: String,
    pub offset: u64,
    pub len: usize,
}

/// Whether `e` is what the table of `b` says of its entry `i`.
pub open spec fn entry_matches(b: Seq<u8>, i: int, e: ArchiveEntry) -> bool {
    let s = entry_start(i);
    &&& e.name@ == key_of(b.subrange(s, s + 32))
    &&& e.len as nat == le32(b, s + 32)
    &&& e.offset as nat == le32(b, s + 36)
}

/// The lookup key of the name of row `i` of the table.
pub open spec fn row_name(b: Seq<u8>, i: int) -> Seq<char> {
    key_of(b.subrange(entry_start(i), entry_start(i) + 32))
}

/// The last of the first `n` rows of the table whose name is `key`.
pub open spec fn last_row(b: Seq<u8>, n: nat, key: Seq<char>) -> Option<int>
    decreases n,
{
    if n == 0 {
        None
    } else if row_name(b, n - 1) == key {
        Some(n - 1)
    } else {
        last_row(b, (n - 1) as nat, key)
    }
}

/// No two entries share a name.
pub open spec fn unique_names(s: Seq<ArchiveEntry>) -> bool {
    forall|i: int, j: int|
        0 <= i < s.len() && 0 <= j < s.len() && i != j ==> #[trigger] s[i].name@
            != #[trigger] s[j].name@
}

/// Some entry of `s` is named `key`.
pub open spec fn holds_name(s: Seq<ArchiveEntry>, key: Seq<char>) -> bool {
    exists|j: int| 0 <= j < s.len() && (#[trigger] s[j]).name@ == key
}

/// Whether `now` is the directory `before` with the first `n` rows of the
/// table of `b` added, a row replacing an entry of the same name and a later
/// row an earlier one: every entry is the last row of its name, or an entry of
/// `before` whose name no row has; every row's name is there; and every entry
/// of `before` whose name no row has is kept.
pub open spec fn rows_added(
    b: Seq<u8>,
    n: nat,
    before: Seq<ArchiveEntry>,
    now: Seq<ArchiveEntry>,
) -> bool {
    &&& unique_names(now)
    &&& forall|j: int|
        0 <= j < now.len() ==> match last_row(b, n, (#[trigger] now[j]).name@) {
            Some(i) => entry_matches(b, i, now[j]),
            None => exists|j0: int| 0 <= j0 < before.len() && before[j0] == now[j],
        }
    &&& forall|i: int| 0 <= i < n ==> holds_name(now, #[trigger] row_name(b, i))
    &&& forall|j0: int|
        0 <= j0 < before.len() && last_row(b, n, (#[trigger] before[j0]).name@) is None ==> exists|
            j: int,
        | 0 <= j < now.len() && now[j] == before[j0]
}

proof fn lemma_row_added(
    bytes: Seq<u8>,
    i: nat,
    before: Seq<ArchiveEntry>,
    old_meta: Seq<ArchiveEntry>,
    now: Seq<ArchiveEntry>,
    e: ArchiveEntry,
    found: bool,
    j: int,
)
    requires
        rows_added(bytes, i, before, old_meta),
        entry_matches(bytes, i as int, e),
        found ==> 0 <= j < old_meta.len() && old_meta[j].name@ == e.name@ && now == old_meta.update(
            j,
            e,
        ),
        !found ==> (forall|t: int| 0 <= t < old_meta.len() ==> (#[trigger] old_meta[t]).name@
            != e.name@) && now == old_meta.push(e),
    ensures
        rows_added(bytes, i + 1, before, now),
{
    let k = e.name@;
    assert(row_name(bytes, i as int) == k);
    let ni = i + 1;
    assert(last_row(bytes, ni, k) == Some(i as int));
    assert forall|a: int, c: int|
        0 <= a < now.len() && 0 <= c < now.len() && a != c implies #[trigger] now[a].name@
        != #[trigger] now[c].name@ by {
        if found {
            if a != j && c != j {
                assert(old_meta[a] == now[a] && old_meta[c] == now[c]);
            } else if a == j {
                assert(old_meta[c] == now[c]);
                assert(old_meta[j as int].name@ == k);
            } else {
                assert(old_meta[a] == now[a]);
                assert(old_meta[j as int].name@ == k);
            }
        } else {
            if a < old_meta.len() && c < old_meta.len() {
                assert(old_meta[a] == now[a] && old_meta[c] == now[c]);
            } else if a < old_meta.len() {
                assert(old_meta[a] == now[a]);
            } else {
                assert(old_meta[c] == now[c]);
            }
        }
    }
    assert forall|t: int| 0 <= t < now.len() implies match last_row(
        bytes,
        ni,
        (#[trigger] now[t]).name@,
    ) {
        Some(r) => entry_matches(bytes, r, now[t]),
        None => exists|j0: int| 0 <= j0 < before.len() && before[j0] == now[t],
    } by {
        if (found && t == j) || (!found && t == old_meta.len()) {
            assert(now[t] == e);
        } else {
            assert(now[t] == old_meta[t]);
            if found {
                assert(old_meta[j as int].name@ == k);
            }
            assert(now[t].name@ != k);
            assert(last_row(bytes, ni, now[t].name@) == last_row(
                bytes,
                i,
                now[t].name@,
            ));
        }
    }
    assert forall|r: int| 0 <= r < ni implies holds_name(
        now,
        #[trigger] row_name(bytes, r),
    ) by {
        if r == i {
            if found {
                assert(now[j as int] == e);
            } else {
                assert(now[old_meta.len() as int] == e);
            }
        } else {
            assert(holds_name(old_meta, row_name(bytes, r)));
            let w = choose|w: int|
                0 <= w < old_meta.len() && (#[trigger] old_meta[w]).name@ == row_name(
                    bytes,
                    r,
                );
            if found && w == j {
                assert(now[j as int] == e);
            } else {
                assert(now[w] == old_meta[w]);
            }
        }
    }
    assert forall|j0: int|
        0 <= j0 < before.len() && last_row(
            bytes,
            ni,
            (#[trigger] before[j0]).name@,
        ) is None implies exists|w: int| 0 <= w < now.len() && now[w] == before[j0] by {
        assert(before[j0].name@ != k);
        assert(last_row(bytes, i, before[j0].name@) is None);
        let w = choose|w: int| 0 <= w < old_meta.len() && old_meta[w] == before[j0];
        if found {
            assert(old_meta[j as int].name@ == k);
        }
        assert(now[w] == old_meta[w]);
    }
            }

/// An archive whose entry count is zero reads without error, however short,
/// and its directory, read into an empty one, stays empty.
pub proof fn lemma_zero_entries_read_empty(b: Seq<u8>, p: Seq<ArchiveEntry>)
    requires
        is_archive(b),
        b.len() >= 16,
        entry_count(b) == 0,
    ensures
        table_fits(b),
        rows_added(b, 0, Seq::<ArchiveEntry>::empty(), p) ==> p.len() == 0,
{
    if rows_added(b, 0, Seq::<ArchiveEntry>::empty(), p) && p.len() > 0 {
        assert(last_row(b, 0, p[0].name@) is None);
        assert(exists|j0: int| 0 <= j0 < 0 && Seq::<ArchiveEntry>::empty()[j0] == p[0]);
    }
}

/// Index of the entry of `entries` named `key`, if any.
fn find_name(entries: &Vec<ArchiveEntry>, key: &str) -> (r: Option<usize>)
    ensures
        match r {
            Some(j) => j < entries@.len() && entries@[j as int].name@ == key@,
            None => forall|t: int| 0 <= t < entries@.len() ==> (#[trigger] entries@[t]).name@ != key@,
        },
{
    let mut j: usize = 0;
    while j < entries.len()
        invariant
            j <= entries@.len(),
            forall|t: int| 0 <= t < j ==> (#[trigger] entries@[t]).name@ != key@,
        decreases entries@.len() - j,
    {
        if same_text(entries[j].name.as_str(), key) {
            return Some(j);
        }
        j = j + 1;
    }
    None
}

/// An archive by its file name, with its directory.
#[derive(Debug)]
pub struct PacData {
    pub name: String,
    pub metadata: Vec<ArchiveEntry>,
}

impl PacData {
    /// One entry per name.
    pub open spec fn wf(&self) -> bool {
        unique_names(self.metadata@)
    }

    /// An archive named `name` with no entries read yet.
    pub fn new(name: &str) -> (r: PacData)
        ensures
            r.name@ == name@,
            r.metadata@.len() == 0,
            r.wf(),
    {
        PacData { name: name.to_string(), metadata: Vec::new() }
    }

    /// Reads the directory of the archive whose bytes are `bytes` into this
    /// one, one entry per name: a row replaces an entry of the same name, so
    /// the last row of a name wins. Bytes without the archive magic hold no
    /// entries; a table that runs past the end is `Truncated`.
    pub fn build(self, bytes: &[u8]) -> (r: Result<PacData, DecodeError>)
        requires
            self.wf(),
        ensures
            !is_archive(bytes@) ==> (r matches Ok(p) && p.name == self.name && p.metadata@
                == self.metadata@),
            is_archive(bytes@) && !table_fits(bytes@) ==> r == Err::<PacData, DecodeError>(
                DecodeError::Truncated,
            ),
            is_archive(bytes@) && table_fits(bytes@) ==> (r matches Ok(p) && p.name == self.name
                && rows_added(bytes@, entry_count(bytes@), self.metadata@, p.metadata@)),
    {
        let mut pac = self;
        if !(bytes.len() >= 4 && bytes[0] == 0x50 && bytes[1] == 0x41 && bytes[2] == 0x43
            && bytes[3] == 0x20) {
            return Ok(pac);
        }
        if bytes.len() < 16 {
            return Err(DecodeError::Truncated);
        }
        let lo = read_u32(bytes, 8) as u128;
        let hi = read_u32(bytes, 12) as u128;
        assert(hi * 0x1_0000_0000 <= 0xffff_ffff * 0x1_0000_0000) by (nonlinear_arith)
            requires
                hi <= 0xffff_ffff,
        ;
        let count: u128 = lo + hi * 0x1_0000_0000;
        assert(40 * count <= 40 * 0x1_0000_0000_0000_0000) by (nonlinear_arith)
            requires
                count <= 0x1_0000_0000_0000_0000,
        ;
        if count > 0 && (TABLE_START as u128) + (ENTRY_LEN as u128) * count > bytes.len() as u128 {
            return Err(DecodeError::Truncated);
        }
        let n = count as usize;
        let ghost before = pac.metadata@;
        assert(rows_added(bytes@, 0, before, before)) by {
            assert forall|j0: int|
                0 <= j0 < before.len() && last_row(
                    bytes@,
                    0,
                    (#[trigger] before[j0]).name@,
                ) is None implies exists|j: int|
                0 <= j < before.len() && before[j] == before[j0] by {
                assert(before[j0] == before[j0]);
            }
        }
        let mut i: usize = 0;
        while i < n
            invariant
                is_archive(bytes@),
                table_fits(bytes@),
                n == entry_count(bytes@),
                n > 0 ==> TABLE_START + ENTRY_LEN * n <= bytes@.len(),
                bytes@.len() <= usize::MAX,
                i <= n,
                pac.name == self.name,
                rows_added(bytes@, i as nat, before, pac.metadata@),
            decreases n - i,
        {
            let start = TABLE_START + ENTRY_LEN * i;
            let key = asset_key(slice_subrange(bytes, start, start + 32));
            let len = read_u32(bytes, start + 32) as usize;
            let offset = read_u32(bytes, start + 36) as u64;
            let ghost old_meta = pac.metadata@;
            let (hit, j) = match find_name(&pac.metadata, key.as_str()) {
                Some(j) => (true, j),
                None => (false, 0),
            };
            let entry = ArchiveEntry { name: key, offset, len };
            let ghost e = entry;
            let ghost found = hit;
            if hit {
                pac.metadata.set(j, entry);
            } else {
                pac.metadata.push(entry);
            }
            proof {
                lemma_row_added(bytes@, i as nat, before, old_meta, pac.metadata@, e, found, j as int);
            }
            i = i + 1;
        }
        Ok(pac)
    }
}

/// The archives to extract, and the directory that receives them.
#[derive(Debug)]
pub struct AssetLoader {
    pub name: String,
    pub data: Vec<PacData>,
}

impl AssetLoader {
    /// A loader that writes under `name` and holds no archive yet.
    pub fn new(name: &str) -> (r: AssetLoader)
        ensures
            r.name@ == name@,
            r.data@.len() == 0,
    {
        AssetLoader { name: name.to_string(), data: Vec::new() }
    }
}

} // verus!
