//! Container reader.
//!
//! The container image starts with an opaque twelve-byte header, followed by
//! ten-byte directory records `[3-byte key][5 reserved bytes][2-byte
//! little-endian sector count]`; a record whose first byte is zero ends the
//! directory even when further bytes remain.  A resource's byte offset is its
//! sector count shifted left by nine (512-byte sectors), and its length is
//! derived as the next distinct key's offset minus its own; the final entry's
//! length is never independently known.  Duplicate keys are kept only for
//! that length bookkeeping: the first occurrence alone is addressable.
//!
//! The archive holds the whole file image in memory; the caller reads the
//! file and hands the bytes to [`Archive::open`].

use vstd::prelude::*;
use vstd::string::StringSliceAdditionalSpecFns;

use crate::errors::ErrorKind;
use crate::zip;

verus! {

/// Offset of the first directory record in the image.
pub open spec fn table_offset() -> int {
    12
}

/// One directory entry as the specification sees it.
pub ghost struct ItemV {
    pub key: Seq<u8>,
    pub offset: u32,
    pub length: u32,
}

/// One directory entry: a three-byte key and the resource's byte range.
#[derive(Clone, Copy)]
pub struct Item {
    pub key: [u8; 3],
    pub offset: u32,
    pub length: u32,
}

impl View for Item {
    type V = ItemV;

    open spec fn view(&self) -> ItemV {
        ItemV { key: self.key@, offset: self.offset, length: self.length }
    }
}

/// The entry list as the specification sees it.
pub open spec fn items_view(s: Seq<Item>) -> Seq<ItemV> {
    s.map_values(|it: Item| it@)
}

/// The directory records from `pos` on, in file order, as `(key, offset)`
/// pairs; `None` when the image ends before the terminating record.
pub open spec fn parse_records(d: Seq<u8>, pos: int) -> Option<Seq<(Seq<u8>, u32)>>
    decreases d.len() - pos,
{
    if pos < 0 || pos + 10 > d.len() {
        None
    } else if d[pos] == 0 {
        Some(Seq::empty())
    } else {
        let key = d.subrange(pos, pos + 3);
        let offset = (((d[pos + 9] as u32) << 8) | (d[pos + 8] as u32)) << 9;
        match parse_records(d, pos + 10) {
            None => None,
            Some(rest) => Some(seq![(key, offset)] + rest),
        }
    }
}

/// First index at or after `i` whose entry has this key.
pub open spec fn find_from(items: Seq<ItemV>, key: Seq<u8>, i: int) -> Option<int>
    decreases items.len() - i,
{
    if i < 0 || i >= items.len() {
        None
    } else if items[i].key == key {
        Some(i)
    } else {
        find_from(items, key, i + 1)
    }
}

/// Difference of offsets as the 32-bit hardware computed it.
pub open spec fn offset_delta(a: u32, b: u32) -> u32 {
    if a >= b {
        (a - b) as u32
    } else {
        (a - b + 0x1_0000_0000) as u32
    }
}

/// Fold one directory record into the entry list: insert the key if absent,
/// then give the previous record's entry its derived length.
pub open spec fn fold_step(
    items: Seq<ItemV>,
    prev: Option<Seq<u8>>,
    key: Seq<u8>,
    offset: u32,
) -> Seq<ItemV> {
    let with_new = if find_from(items, key, 0) is Some {
        items
    } else {
        items.push(ItemV { key, offset, length: 0 })
    };
    match prev {
        None => with_new,
        Some(pk) => match find_from(with_new, pk, 0) {
            None => with_new,
            Some(i) => with_new.update(
                i,
                ItemV {
                    key: with_new[i].key,
                    offset: with_new[i].offset,
                    length: offset_delta(offset, with_new[i].offset),
                },
            ),
        },
    }
}

/// Fold all records, in file order.
pub open spec fn fold_items(
    items: Seq<ItemV>,
    prev: Option<Seq<u8>>,
    recs: Seq<(Seq<u8>, u32)>,
) -> Seq<ItemV>
    decreases recs.len(),
{
    if recs.len() == 0 {
        items
    } else {
        fold_items(fold_step(items, prev, recs[0].0, recs[0].1), Some(recs[0].0), recs.drop_first())
    }
}

/// The directory an image yields: `None` when the directory is truncated.
pub open spec fn dir_spec(d: Seq<u8>) -> Option<Seq<ItemV>> {
    match parse_records(d, table_offset()) {
        None => None,
        Some(recs) => Some(fold_items(Seq::empty(), None, recs)),
    }
}

/// The archive as the specification sees it.
pub ghost struct ArchiveV {
    pub img: Seq<u8>,
    pub items: Seq<ItemV>,
}

/// What `get_raw` returns: the resource's raw (still compressed) byte range.
pub open spec fn get_raw_spec(a: ArchiveV, key: Seq<u8>) -> Result<Seq<u8>, ErrorKind> {
    match find_from(a.items, key, 0) {
        None => Err(ErrorKind::NotFound),
        Some(i) => {
            let it = a.items[i];
            if it.length == 0 {
                Ok(Seq::empty())
            } else if it.offset + it.length <= a.img.len() {
                Ok(a.img.subrange(it.offset as int, it.offset + it.length))
            } else {
                Err(ErrorKind::IoError)
            }
        },
    }
}

/// What `get` returns: the raw range run through the dictionary codec.
pub open spec fn get_spec(a: ArchiveV, key: Seq<u8>) -> Result<Seq<u8>, ErrorKind> {
    match get_raw_spec(a, key) {
        Err(e) => Err(e),
        Ok(raw) => match zip::unpack_spec(raw) {
            Some(out) => Ok(out),
            None => Err(ErrorKind::DecodeError),
        },
    }
}

/// What `get_with_palette` returns: the payload split in front of its
/// trailing 768 palette bytes.
pub open spec fn palette_spec(a: ArchiveV, key: Seq<u8>) -> Result<
    (Seq<u8>, Seq<u8>),
    ErrorKind,
> {
    match get_spec(a, key) {
        Err(e) => Err(e),
        Ok(d) => if d.len() >= 768 {
            Ok((d.take(d.len() - 768), d.skip(d.len() - 768)))
        } else {
            Err(ErrorKind::FormatError)
        },
    }
}

/// What `get_series` returns: the payload cut into `len / size` chunks of
/// exactly `size` bytes; the remainder is dropped.
pub open spec fn series_spec(a: ArchiveV, key: Seq<u8>, size: u32) -> Result<
    Seq<Seq<u8>>,
    ErrorKind,
>
    recommends
        size >= 1,
{
    match get_spec(a, key) {
        Err(e) => Err(e),
        Ok(d) => Ok(
            Seq::new(
                (d.len() / size as nat) as nat,
                |i: int| d.subrange(i * size, (i + 1) * size),
            ),
        ),
    }
}

/// The container reader: the file image and its parsed directory.
pub struct Archive {
    image: Vec<u8>,
    items: Vec<Item>,
}

impl View for Archive {
    type V = ArchiveV;

    closed spec fn view(&self) -> ArchiveV {
        ArchiveV { img: self.image@, items: items_view(self.items@) }
    }
}

/// True when `q` holds exactly the three bytes of `k`.
fn key_matches(k: &[u8; 3], q: &[u8]) -> (r: bool)
    ensures
        r == (k@ == q@),
{
    let r = q.len() == 3 && k[0] == q[0] && k[1] == q[1] && k[2] == q[2];
    proof {
        if r {
            assert(k@ =~= q@);
        } else {
            assert(k@.len() == 3);
            assert(k@ != q@);
        }
    }
    r
}

/// Pushing a fresh entry does not move an already-found key.
proof fn lemma_find_push(items: Seq<ItemV>, key: Seq<u8>, x: ItemV, i: int)
    requires
        0 <= i,
        find_from(items, key, i) is Some,
    ensures
        find_from(items.push(x), key, i) == find_from(items, key, i),
    decreases items.len() - i,
{
    if i < items.len() {
        assert(items.push(x)[i] == items[i]);
        if items[i].key != key {
            lemma_find_push(items, key, x, i + 1);
        }
    }
}

/// A pushed entry with an absent key is found at the old length.
proof fn lemma_find_push_new(items: Seq<ItemV>, key: Seq<u8>, x: ItemV, i: int)
    requires
        0 <= i <= items.len(),
        find_from(items, key, i) is None,
        x.key == key,
    ensures
        find_from(items.push(x), key, i) == Some(items.len() as int),
    decreases items.len() - i,
{
    if i < items.len() {
        assert(items.push(x)[i] == items[i]);
        lemma_find_push_new(items, key, x, i + 1);
    } else {
        assert(items.push(x)[i] == x);
    }
}

/// Finding a key only looks at keys: an update that keeps the entry's key
/// leaves every search result unchanged.
proof fn lemma_find_update_same_key(items: Seq<ItemV>, key: Seq<u8>, j: int, x: ItemV, i: int)
    requires
        0 <= j < items.len(),
        x.key == items[j].key,
        0 <= i,
    ensures
        find_from(items.update(j, x), key, i) == find_from(items, key, i),
    decreases items.len() - i,
{
    if i < items.len() {
        assert(items.update(j, x)[i].key == items[i].key);
        if items[i].key != key {
            lemma_find_update_same_key(items, key, j, x, i + 1);
        }
    }
}

impl Archive {
    /// Parse the directory of a container image.
    ///
    /// Fails with `IoError` exactly when the image ends before the record
    /// whose first byte is zero.
    pub fn open(image: Vec<u8>) -> (r: Result<Archive, ErrorKind>)
        ensures
            match r {
                Ok(a) => dir_spec(image@) == Some(a@.items) && a@.img == image@,
                Err(e) => dir_spec(image@) is None && e == ErrorKind::IoError,
            },
    {
        let mut items: Vec<Item> = Vec::new();
        let mut prev_idx: Option<usize> = None;
        let ghost mut prevk: Option<Seq<u8>> = None;
        let mut pos: usize = 12;

        if image.len() < 12 {
            return Err(ErrorKind::IoError);
        }
        proof {
            assert(items_view(items@) =~= Seq::<ItemV>::empty());
        }

        loop
            invariant
                12 <= pos <= image@.len(),
                match (prevk, prev_idx) {
                    (Option::None, Option::None) => true,
                    (Option::Some(pk), Option::Some(pi)) => find_from(
                        items_view(items@),
                        pk,
                        0,
                    ) == Some(pi as int) && pi < items@.len(),
                    _ => false,
                },
                dir_spec(image@) == (match parse_records(image@, pos as int) {
                    Option::None => None::<Seq<ItemV>>,
                    Option::Some(rest) => Some(fold_items(items_view(items@), prevk, rest)),
                }),
            decreases image@.len() - pos,
        {
            if image.len() - pos < 10 {
                return Err(ErrorKind::IoError);
            }
            if image[pos] == 0 {
                return Ok(Archive { image, items });
            }
            let key: [u8; 3] = [image[pos], image[pos + 1], image[pos + 2]];
            proof {
                assert(key@ =~= image@.subrange(pos as int, pos as int + 3));
            }
            let offset: u32 = (((image[pos + 9] as u32) << 8) | (image[pos + 8] as u32)) << 9;

            let ghost items0 = items_view(items@);

            // Insert the key if it is absent; remember this record's entry.
            let mut this_idx: usize = 0;
            let mut found: bool = false;
            let mut i: usize = 0;
            while i < items.len()
                invariant
                    i <= items@.len(),
                    items_view(items@).len() == items@.len(),
                    !found ==> find_from(items_view(items@), key@, 0) == find_from(
                        items_view(items@),
                        key@,
                        i as int,
                    ),
                    found ==> find_from(items_view(items@), key@, 0) == Some(this_idx as int)
                        && this_idx < items@.len(),
                decreases items@.len() - i,
            {
                if !found && key_matches(&items[i].key, &key) {
                    found = true;
                    this_idx = i;
                }
                i = i + 1;
            }
            if !found {
                this_idx = items.len();
                items.push(Item { key, offset, length: 0 });
                proof {
                    lemma_find_push_new(
                        items0,
                        key@,
                        ItemV { key: key@, offset, length: 0 },
                        0,
                    );
                    assert(items_view(items@) =~= items0.push(
                        ItemV { key: key@, offset, length: 0 },
                    ));
                }
            }
            let ghost items1 = items_view(items@);
            proof {
                if find_from(items0, key@, 0) is Some {
                    assert(items1 == items0);
                } else {
                    assert(items1 == items0.push(ItemV { key: key@, offset, length: 0 }));
                }
                assert(items1 == (if find_from(items0, key@, 0) is Some {
                    items0
                } else {
                    items0.push(ItemV { key: key@, offset, length: 0 })
                }));
                assert(find_from(items1, key@, 0) == Some(this_idx as int)) by {
                    if find_from(items0, key@, 0) is None {
                        lemma_find_push_new(
                            items0,
                            key@,
                            ItemV { key: key@, offset, length: 0 },
                            0,
                        );
                    }
                }
                // The previous record's entry keeps its position across the insert.
                if prevk is Some {
                    if find_from(items0, key@, 0) is None {
                        lemma_find_push(
                            items0,
                            prevk->Some_0,
                            ItemV { key: key@, offset, length: 0 },
                            0,
                        );
                    }
                    assert(find_from(items1, prevk->Some_0, 0) == Some(
                        prev_idx->Some_0 as int,
                    ));
                }
            }

            // Derive the previous record's length from this record's offset.
            if let Some(pi) = prev_idx {
                let prev_off = items[pi].offset;
                let length: u32 = if offset >= prev_off {
                    offset - prev_off
                } else {
                    ((0x1_0000_0000u64 + offset as u64 - prev_off as u64) as u32)
                };
                let old_it = items[pi];
                items[pi] = Item { key: old_it.key, offset: old_it.offset, length };
                proof {
                    let pk = prevk->Some_0;
                    let x = ItemV {
                        key: items1[pi as int].key,
                        offset: items1[pi as int].offset,
                        length: offset_delta(offset, items1[pi as int].offset),
                    };
                    assert(items_view(items@) =~= items1.update(pi as int, x));
                    lemma_find_update_same_key(items1, key@, pi as int, x, 0);
                    lemma_find_update_same_key(items1, pk, pi as int, x, 0);
                }
            }
            proof {
                let pk_used = prevk;
                assert(items_view(items@) == fold_step(items0, pk_used, key@, offset));
                assert(find_from(items_view(items@), key@, 0) == Some(this_idx as int)) by {
                    if prev_idx is Some {
                        let pi = prev_idx->Some_0 as int;
                        let x = ItemV {
                            key: items1[pi].key,
                            offset: items1[pi].offset,
                            length: offset_delta(offset, items1[pi].offset),
                        };
                        lemma_find_update_same_key(items1, key@, pi, x, 0);
                    }
                }
            }
            proof {
                // One record of the directory: unfold the parse and the fold.
                let p = pos as int;
                let rec = (key@, offset);
                assert(key@ == image@.subrange(p, p + 3));
                assert(parse_records(image@, p) == (match parse_records(image@, p + 10) {
                    Option::None => None::<Seq<(Seq<u8>, u32)>>,
                    Option::Some(rest) => Some(seq![rec] + rest),
                }));
                if parse_records(image@, p + 10) is Some {
                    let rest = parse_records(image@, p + 10)->Some_0;
                    let s = seq![rec] + rest;
                    assert(s.len() == rest.len() + 1);
                    assert(s[0] == rec);
                    assert(s.drop_first() =~= rest);
                    assert(fold_items(items0, prevk, s) == fold_items(
                        fold_step(items0, prevk, key@, offset),
                        Some(key@),
                        rest,
                    ));
                }
            }
            prev_idx = Some(this_idx);
            proof {
                prevk = Some(key@);
            }
            pos = pos + 10;
        }
    }

    /// The raw, still compressed bytes of a resource.
    ///
    /// Fails with `NotFound` for an absent key and with `IoError` when the
    /// entry's byte range runs past the end of the image.
    pub fn get_raw(&self, key: &str) -> (r: Result<Vec<u8>, ErrorKind>)
        ensures
            match r {
                Ok(v) => get_raw_spec(self@, key.spec_bytes()) == Ok::<_, ErrorKind>(v@),
                Err(e) => get_raw_spec(self@, key.spec_bytes()) == Err::<Seq<u8>, _>(e),
            },
    {
        let kb: &[u8] = key.as_bytes();
        let mut i: usize = 0;
        let mut found: bool = false;
        let mut idx: usize = 0;
        while i < self.items.len()
            invariant
                i <= self.items@.len(),
                kb@ == key.spec_bytes(),
                items_view(self.items@).len() == self.items@.len(),
                !found ==> find_from(self@.items, kb@, 0) == find_from(self@.items, kb@, i as int),
                found ==> find_from(self@.items, kb@, 0) == Some(idx as int) && idx
                    < self.items@.len(),
            decreases self.items@.len() - i,
        {
            if !found && key_matches(&self.items[i].key, kb) {
                found = true;
                idx = i;
            }
            i = i + 1;
        }
        if !found {
            return Err(ErrorKind::NotFound);
        }
        let it = self.items[idx];
        if it.length == 0 {
            let v: Vec<u8> = Vec::new();
            proof {
                assert(v@ =~= Seq::<u8>::empty());
            }
            return Ok(v);
        }
        if !(it.offset as u64 + it.length as u64 <= self.image.len() as u64) {
            return Err(ErrorKind::IoError);
        }
        let start = it.offset as usize;
        let end = start + it.length as usize;
        let mut v: Vec<u8> = Vec::new();
        let mut k = start;
        while k < end
            invariant
                start <= k <= end,
                end <= self.image@.len(),
                v@ =~= self.image@.subrange(start as int, k as int),
            decreases end - k,
        {
            v.push(self.image[k]);
            k = k + 1;
        }
        proof {
            assert(v@ =~= self.image@.subrange(it.offset as int, it.offset + it.length));
        }
        Ok(v)
    }

    /// A resource's decompressed bytes.
    ///
    /// Fails with `NotFound` for an absent key, `IoError` for a range past
    /// the end of the image, and `DecodeError` for a corrupt stream.
    pub fn get(&self, key: &str) -> (r: Result<Vec<u8>, ErrorKind>)
        ensures
            match r {
                Ok(v) => get_spec(self@, key.spec_bytes()) == Ok::<_, ErrorKind>(v@),
                Err(e) => get_spec(self@, key.spec_bytes()) == Err::<Seq<u8>, _>(e),
            },
    {
        let raw = match self.get_raw(key) {
            Ok(raw) => raw,
            Err(e) => {
                return Err(e);
            },
        };
        match zip::unpack(raw.as_slice()) {
            Ok(v) => Ok(v),
            Err(e) => Err(e),
        }
    }

    /// A resource's payload and its trailing 256-colour palette.
    ///
    /// Fails with `FormatError` exactly when the decompressed payload holds
    /// fewer than the 768 palette bytes; the returned palette always holds
    /// exactly 768 bytes.
    pub fn get_with_palette(&self, key: &str) -> (r: Result<(Vec<u8>, Vec<u8>), ErrorKind>)
        ensures
            match r {
                Ok(dp) => palette_spec(self@, key.spec_bytes()) == Ok::<_, ErrorKind>(
                    (dp.0@, dp.1@),
                ) && dp.1@.len() == 768,
                Err(e) => palette_spec(self@, key.spec_bytes()) == Err::<(Seq<u8>, Seq<u8>), _>(e),
            },
    {
        let mut data = match self.get(key) {
            Ok(d) => d,
            Err(e) => {
                return Err(e);
            },
        };
        if data.len() < 768 {
            return Err(ErrorKind::FormatError);
        }
        let at = data.len() - 768;
        let pal = data.split_off(at);
        Ok((data, pal))
    }

    /// The payload cut into equal chunks of `size` bytes, in order; the
    /// `len % size` remainder bytes are dropped, never an error.
    pub fn get_series(&self, key: &str, size: u32) -> (r: Result<Vec<Vec<u8>>, ErrorKind>)
        requires
            size >= 1,
        ensures
            match r {
                Ok(vs) => series_spec(self@, key.spec_bytes(), size) == Ok::<_, ErrorKind>(
                    vs@.map_values(|v: Vec<u8>| v@),
                ),
                Err(e) => series_spec(self@, key.spec_bytes(), size) == Err::<Seq<Seq<u8>>, _>(e),
            },
    {
        let data = match self.get(key) {
            Ok(d) => d,
            Err(e) => {
                return Err(e);
            },
        };
        let sz = size as usize;
        let n = data.len() / sz;
        let ghost d = data@;
        proof {
            vstd::arithmetic::div_mod::lemma_fundamental_div_mod(d.len() as int, sz as int);
            vstd::arithmetic::div_mod::lemma_mod_bound(d.len() as int, sz as int);
            assert(n * sz <= d.len());
        }
        let mut vs: Vec<Vec<u8>> = Vec::new();
        let mut i: usize = 0;
        while i < n
            invariant
                i <= n,
                sz == size,
                sz >= 1,
                n == d.len() / size as nat,
                data@ == d,
                d.len() <= usize::MAX,
                n * sz <= d.len(),
                vs@.len() == i,
                forall|j: int|
                    0 <= j < i ==> #[trigger] vs@[j]@ == d.subrange(j * size, (j + 1) * size),
            decreases n - i,
        {
            proof {
                assert(i * sz + sz <= n * sz) by (nonlinear_arith)
                    requires
                        i < n,
                        sz >= 1,
                ;
                assert((i as int + 1) * (size as int) == i as int * size as int + size as int)
                    by (nonlinear_arith);
            }
            let mut chunk: Vec<u8> = Vec::new();
            let mut k: usize = i * sz;
            let end = i * sz + sz;
            while k < end
                invariant
                    i * sz <= k <= end,
                    end == i * sz + sz,
                    end <= d.len(),
                    data@ == d,
                    chunk@ =~= d.subrange((i * sz) as int, k as int),
                decreases end - k,
            {
                chunk.push(data[k]);
                k = k + 1;
            }
            proof {
                assert(chunk@ =~= d.subrange((i as int) * (size as int), (i as int + 1) * (
                size as int)));
            }
            vs.push(chunk);
            i = i + 1;
        }
        proof {
            assert(vs@.map_values(|v: Vec<u8>| v@) =~= Seq::new(
                (d.len() / size as nat) as nat,
                |i: int| d.subrange(i * size, (i + 1) * size),
            ));
        }
        Ok(vs)
    }
}

/// Parsing stops at the record whose first byte is zero: whatever bytes
/// follow a successfully parsed directory, the directory is unchanged.
pub proof fn lemma_records_ignore_trailing(d: Seq<u8>, extra: Seq<u8>, pos: int)
    requires
        parse_records(d, pos) is Some,
    ensures
        parse_records(d + extra, pos) == parse_records(d, pos),
    decreases d.len() - pos,
{
    assert(0 <= pos && pos + 10 <= d.len());
    assert forall|k: int| pos <= k < pos + 10 implies (d + extra)[k] == d[k] by {}
    if d[pos] != 0 {
        lemma_records_ignore_trailing(d, extra, pos + 10);
        assert((d + extra).subrange(pos, pos + 3) =~= d.subrange(pos, pos + 3));
    }
}

/// Directory termination: a record with a zero first byte ends parsing even
/// when further bytes exist in the image.
pub proof fn lemma_directory_termination(d: Seq<u8>, extra: Seq<u8>)
    requires
        dir_spec(d) is Some,
    ensures
        dir_spec(d + extra) == dir_spec(d),
{
    lemma_records_ignore_trailing(d, extra, table_offset());
}

/// Determinism: `get` is a function of the archive image and the key, so
/// repeated reads of one key return byte-identical results.
pub proof fn lemma_get_deterministic(
    a: ArchiveV,
    key: Seq<u8>,
    r1: Result<Seq<u8>, ErrorKind>,
    r2: Result<Seq<u8>, ErrorKind>,
)
    requires
        r1 == get_spec(a, key),
        r2 == get_spec(a, key),
    ensures
        r1 == r2,
{
}

} // verus!
