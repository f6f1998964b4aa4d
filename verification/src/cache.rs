//! The cache: an in-memory index of stored blobs.
//!
//! `Cache` owns the index. A store registers an entry synchronously (still
//! unready), hands back the unit of background work, and the entry becomes
//! ready only once both files are persisted. A fresh cache is built by
//! scanning the backing directory's descriptor files; malformed ones are
//! skipped, never fatal.

use vstd::prelude::*;
use crate::codec::{brotli_compressed, brotli_decoded, compress_payload, decode_payload, COMPRESSION_LEVEL};
use crate::data::Metadata;
use crate::error::CacheError;
use crate::id::{id_val, wf_id_chars, EntryId};
use crate::meta::{encode_meta, encode_meta_chars, match_lit, parse_meta, parse_meta_chars};
use crate::digits::{lemma_pow16_32, pow16};
use crate::id::{id_chars, lemma_id_chars_round_trip};
use crate::meta::lemma_meta_round_trip;
use crate::store::{
    data_file_name, data_lookup, data_name_chars, lemma_data_lookup_at, lemma_data_lookup_none,
    lemma_data_lookup_push, meta_file_name, meta_name_chars, DataFileView, MetaFile, MetaFileView,
    StoreDir,
};
use crate::validate::valid_extension;

verus! {

/// What an index entry holds.
pub struct EntryModel {
    pub id: u128,
    pub username: Seq<char>,
    pub file_ext: Seq<char>,
    pub size: u64,
    pub ready: bool,
}

/// The in-memory record for one cached blob.
pub struct CacheEntry {
    pub id: EntryId,
    pub metadata: Metadata,
    pub is_ready: bool,
    pub data_size: u64,
}

impl View for CacheEntry {
    type V = EntryModel;

    open spec fn view(&self) -> EntryModel {
        EntryModel {
            id: self.id.value,
            username: self.metadata.username@,
            file_ext: self.metadata.file_ext@,
            size: self.data_size,
            ready: self.is_ready,
        }
    }
}

impl CacheEntry {
    /// A freshly registered entry: not ready, no recorded size yet.
    pub fn new(id: EntryId, metadata: Metadata) -> (e: CacheEntry)
        ensures
            e@ == (EntryModel {
                id: id.value,
                username: metadata.username@,
                file_ext: metadata.file_ext@,
                size: 0,
                ready: false,
            }),
    {
        CacheEntry { id, metadata, is_ready: false, data_size: 0 }
    }

    /// Whether both persisted files of this entry are complete.
    pub fn is_ready(&self) -> (r: bool)
        ensures
            r == self@.ready,
    {
        self.is_ready
    }

    /// Marks the entry ready; readiness is never taken back.
    pub fn set_ready(&mut self)
        ensures
            final(self)@ == (EntryModel { ready: true, ..old(self)@ }),
    {
        self.is_ready = true;
    }

    /// The recorded byte length of the compressed payload.
    pub fn data_size(&self) -> (r: u64)
        ensures
            r == self@.size,
    {
        self.data_size
    }
}

/// The entry a descriptor file yields at startup: its name must be
/// `{id}.meta` and its text a well-formed descriptor; a recovered entry is
/// ready from the start.
pub open spec fn scan_entry(name: Seq<char>, text: Seq<char>) -> Option<EntryModel> {
    if name.len() == 41 && name.subrange(36, 41) == ".meta"@ && wf_id_chars(
        name.subrange(0, 36),
    ) {
        match parse_meta_chars(text) {
            Some(f) => Some(
                EntryModel {
                    id: id_val(name.subrange(0, 36)) as u128,
                    username: f.0,
                    file_ext: f.1,
                    size: f.2 as u64,
                    ready: true,
                },
            ),
            None => None,
        }
    } else {
        None
    }
}

/// The index rebuilt from the descriptor files of a directory, in
/// directory order, with every malformed file skipped.
pub open spec fn recover_model(files: Seq<MetaFileView>) -> Seq<EntryModel>
    decreases files.len(),
{
    if files.len() == 0 {
        Seq::empty()
    } else {
        recover_model(files.drop_last()) + match scan_entry(files.last().name, files.last().text) {
            Some(e) => seq![e],
            None => Seq::empty(),
        }
    }
}

/// The first entry of the index that carries `id`.
pub open spec fn lookup_model(entries: Seq<EntryModel>, id: u128) -> Option<EntryModel>
    decreases entries.len(),
{
    if entries.len() == 0 {
        None
    } else if entries[0].id == id {
        Some(entries[0])
    } else {
        lookup_model(entries.drop_first(), id)
    }
}

/// Whether some entry of the index carries `id`.
pub open spec fn has_id(entries: Seq<EntryModel>, id: u128) -> bool {
    lookup_model(entries, id) is Some
}

/// The index after a store registered a fresh entry.
pub open spec fn register_model(
    entries: Seq<EntryModel>,
    id: u128,
    username: Seq<char>,
    file_ext: Seq<char>,
) -> Seq<EntryModel> {
    entries.push(EntryModel { id, username, file_ext, size: 0, ready: false })
}

/// The index after the background work for `id` completed: the first entry
/// carrying `id` gets its size recorded and becomes ready.
pub open spec fn finish_model(entries: Seq<EntryModel>, id: u128, size: u64) -> Seq<EntryModel>
    decreases entries.len(),
{
    if entries.len() == 0 {
        entries
    } else if entries[0].id == id {
        seq![EntryModel { size, ready: true, ..entries[0] }] + entries.drop_first()
    } else {
        seq![entries[0]] + finish_model(entries.drop_first(), id, size)
    }
}

proof fn lemma_lookup_at(entries: Seq<EntryModel>, id: u128, i: int)
    requires
        0 <= i < entries.len(),
        forall|j: int| 0 <= j < i ==> (#[trigger] entries[j]).id != id,
        entries[i].id == id,
    ensures
        lookup_model(entries, id) == Some(entries[i]),
    decreases i,
{
    if i > 0 {
        lemma_lookup_at(entries.drop_first(), id, i - 1);
    }
}

proof fn lemma_lookup_none(entries: Seq<EntryModel>, id: u128)
    requires
        forall|j: int| 0 <= j < entries.len() ==> (#[trigger] entries[j]).id != id,
    ensures
        lookup_model(entries, id) is None,
    decreases entries.len(),
{
    if entries.len() > 0 {
        lemma_lookup_none(entries.drop_first(), id);
    }
}

proof fn lemma_finish_len(entries: Seq<EntryModel>, id: u128, size: u64)
    ensures
        finish_model(entries, id, size).len() == entries.len(),
    decreases entries.len(),
{
    if entries.len() > 0 && entries[0].id != id {
        lemma_finish_len(entries.drop_first(), id, size);
    }
}

proof fn lemma_finish_at(entries: Seq<EntryModel>, id: u128, size: u64, i: int)
    requires
        0 <= i < entries.len(),
        forall|j: int| 0 <= j < i ==> (#[trigger] entries[j]).id != id,
        entries[i].id == id,
    ensures
        finish_model(entries, id, size) == entries.update(
            i,
            EntryModel { size, ready: true, ..entries[i] },
        ),
    decreases i,
{
    if i == 0 {
        assert(finish_model(entries, id, size) =~= entries.update(
            0,
            EntryModel { size, ready: true, ..entries[0] },
        ));
    } else {
        lemma_finish_at(entries.drop_first(), id, size, i - 1);
        assert(seq![entries[0]] + finish_model(entries.drop_first(), id, size) =~= entries.update(
            i,
            EntryModel { size, ready: true, ..entries[i] },
        ));
    }
}

proof fn lemma_finish_none(entries: Seq<EntryModel>, id: u128, size: u64)
    requires
        forall|j: int| 0 <= j < entries.len() ==> (#[trigger] entries[j]).id != id,
    ensures
        finish_model(entries, id, size) == entries,
    decreases entries.len(),
{
    if entries.len() > 0 {
        lemma_finish_none(entries.drop_first(), id, size);
        assert(seq![entries[0]] + entries.drop_first() =~= entries);
    }
}

/// The unit of background work a store hands back: what still has to be
/// compressed and persisted for the entry just registered.
pub struct StoreJob {
    pub id: EntryId,
    pub metadata: Metadata,
    pub data: Vec<u8>,
}

/// Everything the background work produces for the file system: the two
/// file names, their contents, and the compressed size, ready to be
/// written (payload file first, descriptor file second).
pub struct PersistPlan {
    pub data_name: String,
    pub data_bytes: Vec<u8>,
    pub meta_name: String,
    pub meta_text: String,
    pub size: u64,
}

/// Compresses a job's payload and lays out the two files to persist.
/// Compression of an in-memory payload never fails, so neither does this.
pub fn plan_persist(job: &StoreJob) -> (p: PersistPlan)
    ensures
        p.data_name@ == data_name_chars(job.id.value as nat),
        p.data_bytes@ == brotli_compressed(job.data@, COMPRESSION_LEVEL as int),
        p.size as nat == p.data_bytes@.len(),
        p.meta_name@ == meta_name_chars(job.id.value as nat),
        p.meta_text@ == encode_meta_chars(
            job.metadata.username@,
            job.metadata.file_ext@,
            p.size as nat,
        ),
{
    let data_bytes = compress_payload(&job.data);
    let size = data_bytes.len() as u64;
    let data_name = data_file_name(&job.id);
    let meta_name = meta_file_name(&job.id);
    let meta_text = encode_meta(&job.metadata, size);
    PersistPlan { data_name, data_bytes, meta_name, meta_text, size }
}

/// The in-memory index of stored blobs.
pub struct Cache {
    pub data: Vec<CacheEntry>,
}

impl View for Cache {
    type V = Seq<EntryModel>;

    open spec fn view(&self) -> Seq<EntryModel> {
        self.data@.map_values(|e: CacheEntry| e@)
    }
}

impl Cache {
    /// Rebuilds the index from the descriptor files found in the backing
    /// directory. Exactly the well-formed files become entries, in
    /// directory order, each ready; a malformed file is skipped, and
    /// construction never fails.
    pub fn new(files: &Vec<MetaFile>) -> (c: Cache)
        ensures
            c@ == recover_model(files@.map_values(|f: MetaFile| f@)),
    {
        let ghost fviews = files@.map_values(|f: MetaFile| f@);
        let mut data: Vec<CacheEntry> = Vec::new();
        let mut i: usize = 0;
        while i < files.len()
            invariant
                i <= files.len(),
                fviews == files@.map_values(|f: MetaFile| f@),
                data@.map_values(|e: CacheEntry| e@) == recover_model(fviews.take(i as int)),
            decreases files.len() - i,
        {
            let f = &files[i];
            let ghost prev = data@.map_values(|e: CacheEntry| e@);
            let namelen = f.name.as_str().unicode_len();
            proof {
                reveal_strlit(".meta");
            }
            if namelen == 41 && match_lit(f.name.as_str(), namelen, 36, ".meta") {
                let stem = f.name.as_str().substring_char(0, 36);
                if let Some(id) = EntryId::parse(stem) {
                    if let Some((metadata, size)) = parse_meta(f.text.as_str()) {
                        let entry = CacheEntry { id, metadata, is_ready: true, data_size: size };
                        data.push(entry);
                        proof {
                            assert(data@.map_values(|e: CacheEntry| e@) =~= prev.push(
                                scan_entry(f@.name, f@.text).unwrap(),
                            ));
                        }
                    }
                }
            }
            proof {
                assert(fviews.take(i + 1).drop_last() =~= fviews.take(i as int));
                assert(fviews.take(i + 1).last() == fviews[i as int]);
                assert(fviews[i as int] == f@);
                if scan_entry(f@.name, f@.text) is Some {
                    assert(recover_model(fviews.take(i + 1)) =~= recover_model(
                        fviews.take(i as int),
                    ).push(scan_entry(f@.name, f@.text).unwrap()));
                } else {
                    assert(recover_model(fviews.take(i + 1)) =~= recover_model(
                        fviews.take(i as int),
                    ));
                }
            }
            i += 1;
        }
        proof {
            assert(fviews.take(files@.len() as int) =~= fviews);
        }
        Cache { data }
    }

    /// The first entry carrying `id`, if the index holds one.
    pub fn lookup(&self, id: &EntryId) -> (r: Option<&CacheEntry>)
        ensures
            match r {
                Some(e) => lookup_model(self@, id.value) == Some(e@),
                None => lookup_model(self@, id.value) is None,
            },
    {
        let n = self.data.len();
        let mut i: usize = 0;
        while i < n
            invariant
                i <= n,
                n == self.data.len(),
                forall|j: int| 0 <= j < i ==> (#[trigger] self@[j]).id != id.value,
            decreases n - i,
        {
            if self.data[i].id.value == id.value {
                proof {
                    lemma_lookup_at(self@, id.value, i as int);
                }
                return Some(&self.data[i]);
            }
            i += 1;
        }
        proof {
            lemma_lookup_none(self@, id.value);
        }
        None
    }

    /// Registers a fresh entry for `id` in the index, visible at once but
    /// not yet ready.
    pub fn register(&mut self, id: EntryId, metadata: Metadata)
        requires
            valid_extension(metadata.file_ext@),
        ensures
            final(self)@ == register_model(
                old(self)@,
                id.value,
                metadata.username@,
                metadata.file_ext@,
            ),
    {
        let entry = CacheEntry::new(id, metadata);
        self.data.push(entry);
        proof {
            assert(self@ =~= register_model(
                old(self)@,
                id.value,
                metadata.username@,
                metadata.file_ext@,
            ));
        }
    }

    /// Stores a new blob: generates a fresh identifier, registers the
    /// entry synchronously, and hands back the unit of background work
    /// that will compress and persist it. The caller learns the generated
    /// identifier from the job at once, whether or not it waits for the
    /// work.
    pub fn store(&mut self, metadata: Metadata, data: Vec<u8>) -> (job: StoreJob)
        requires
            valid_extension(metadata.file_ext@),
        ensures
            final(self)@ == register_model(
                old(self)@,
                job.id.value,
                metadata.username@,
                metadata.file_ext@,
            ),
            job.metadata == metadata,
            job.data == data,
    {
        let id = EntryId::generate();
        self.register(id, metadata.clone());
        StoreJob { id, metadata, data }
    }

    /// Records the compressed size and marks the entry ready, as the final
    /// step of the background work for `id`. Returns whether the index
    /// holds such an entry.
    pub fn finish_store(&mut self, id: &EntryId, size: u64) -> (found: bool)
        ensures
            final(self)@ == finish_model(old(self)@, id.value, size),
            found == has_id(old(self)@, id.value),
    {
        let n = self.data.len();
        let mut i: usize = 0;
        while i < n
            invariant
                i <= n,
                n == self.data.len(),
                *self == *old(self),
                forall|j: int| 0 <= j < i ==> (#[trigger] self@[j]).id != id.value,
            decreases n - i,
        {
            if self.data[i].id.value == id.value {
                proof {
                    lemma_lookup_at(self@, id.value, i as int);
                    lemma_finish_at(self@, id.value, size, i as int);
                }
                let entry = self.data.remove(i);
                let updated = CacheEntry {
                    id: entry.id,
                    metadata: entry.metadata,
                    is_ready: true,
                    data_size: size,
                };
                self.data.insert(i, updated);
                proof {
                    assert(self@ =~= finish_model(old(self)@, id.value, size));
                }
                return true;
            }
            i += 1;
        }
        proof {
            lemma_lookup_none(self@, id.value);
            lemma_finish_none(self@, id.value, size);
        }
        false
    }
}

proof fn lemma_lookup_none_converse(entries: Seq<EntryModel>, id: u128)
    requires
        lookup_model(entries, id) is None,
    ensures
        forall|j: int| 0 <= j < entries.len() ==> (#[trigger] entries[j]).id != id,
    decreases entries.len(),
{
    if entries.len() > 0 {
        lemma_lookup_none_converse(entries.drop_first(), id);
        assert forall|j: int| 0 <= j < entries.len() implies (#[trigger] entries[j]).id != id by {
            if j > 0 {
                assert(entries.drop_first()[j - 1] == entries[j]);
            }
        }
    }
}

impl Cache {
    /// Loads the entry carrying `id` from the index and the backing
    /// directory: looks the identifier up, reads the payload file, and
    /// decompresses it. The readiness flag is deliberately not consulted:
    /// a load racing an in-flight store either finds the complete payload
    /// file or fails with the corresponding error.
    pub fn load(&self, dir: &StoreDir, id: &EntryId) -> (r: Result<(Metadata, Vec<u8>), CacheError>)
        ensures
            (r matches Err(e) && e == CacheError::NotFound) <==> lookup_model(
                self@,
                id.value,
            ) is None,
            r matches Ok(p) ==> (lookup_model(self@, id.value) matches Some(e)
                && p.0.username@ == e.username && p.0.file_ext@ == e.file_ext),
            forall|b: Seq<u8>, q: int|
                (lookup_model(self@, id.value) is Some && data_lookup(
                    dir@.datas,
                    data_name_chars(id.value as nat),
                ) == Some(#[trigger] brotli_compressed(b, q))) ==> (r matches Ok(p) && p.1@
                    == b),
            (lookup_model(self@, id.value) is Some && data_lookup(
                dir@.datas,
                data_name_chars(id.value as nat),
            ) is None) ==> (r matches Err(e) && e matches CacheError::FileOpen(n) && n@
                == data_name_chars(id.value as nat)),
            lookup_model(self@, id.value) is Some ==> (data_lookup(
                dir@.datas,
                data_name_chars(id.value as nat),
            ) matches Some(c) ==> (brotli_decoded(c) is None ==> (r matches Err(e) && e
                == CacheError::Decompression))),
            lookup_model(self@, id.value) is Some ==> (data_lookup(
                dir@.datas,
                data_name_chars(id.value as nat),
            ) matches Some(c) ==> (brotli_decoded(c) matches Some(d) ==> (r matches Ok(p)
                && p.1@ == d))),
    {
        let entry = match self.lookup(id) {
            Some(e) => e,
            None => {
                return Err(CacheError::NotFound);
            },
        };
        let metadata = entry.metadata.clone();
        let name = data_file_name(id);
        let nd = dir.datas.len();
        let mut i: usize = 0;
        while i < nd
            invariant
                i <= nd,
                nd == dir.datas.len(),
                name@ == data_name_chars(id.value as nat),
                lookup_model(self@, id.value) matches Some(em) && metadata.username@
                    == em.username && metadata.file_ext@ == em.file_ext,
                forall|j: int| 0 <= j < i ==> (#[trigger] dir@.datas[j]).name != name@,
            decreases nd - i,
        {
            if dir.datas[i].name == name {
                proof {
                    lemma_data_lookup_at(dir@.datas, name@, i as int);
                }
                let raw = match decode_payload(&dir.datas[i].bytes) {
                    Ok(d) => d,
                    Err(e) => {
                        return Err(e);
                    },
                };
                return Ok((metadata, raw));
            }
            i += 1;
        }
        proof {
            lemma_data_lookup_none(dir@.datas, name@);
        }
        Err(CacheError::FileOpen(name))
    }

    /// Stores a blob and waits for the whole pipeline: registers the
    /// entry, compresses the payload, adds both files to the directory
    /// snapshot (payload first, descriptor second), and marks the entry
    /// ready. Against the in-memory directory the pipeline cannot fail,
    /// so it returns the compressed size outright.
    pub fn store_sync(
        &mut self,
        dir: &mut StoreDir,
        id: EntryId,
        metadata: Metadata,
        data: Vec<u8>,
    ) -> (size: u64)
        requires
            valid_extension(metadata.file_ext@),
            !has_id(old(self)@, id.value),
            data_lookup(old(dir)@.datas, data_name_chars(id.value as nat)) is None,
        ensures
            size as nat == brotli_compressed(data@, COMPRESSION_LEVEL as int).len(),
            final(self)@ == finish_model(
                register_model(old(self)@, id.value, metadata.username@, metadata.file_ext@),
                id.value,
                size,
            ),
            final(dir)@.datas == old(dir)@.datas.push(
                DataFileView {
                    name: data_name_chars(id.value as nat),
                    bytes: brotli_compressed(data@, COMPRESSION_LEVEL as int),
                },
            ),
            final(dir)@.metas == old(dir)@.metas.push(
                MetaFileView {
                    name: meta_name_chars(id.value as nat),
                    text: encode_meta_chars(metadata.username@, metadata.file_ext@, size as nat),
                },
            ),
            lookup_model(final(self)@, id.value) == Some(
                EntryModel {
                    id: id.value,
                    username: metadata.username@,
                    file_ext: metadata.file_ext@,
                    size,
                    ready: true,
                },
            ),
            data_lookup(final(dir)@.datas, data_name_chars(id.value as nat)) == Some(
                brotli_compressed(data@, COMPRESSION_LEVEL as int),
            ),
    {
        self.register(id, metadata.clone());
        let job = StoreJob { id, metadata, data };
        let plan = plan_persist(&job);
        let size = plan.size;
        dir.apply_persist(plan);
        let _found = self.finish_store(&id, size);
        proof {
            lemma_store_load_round_trip(
                old(self)@,
                old(dir)@.datas,
                id.value,
                job.metadata.username@,
                job.metadata.file_ext@,
                job.data@,
                size,
            );
        }
        size
    }
}

/// Round trip: a blob stored under a fresh identifier is what a load of
/// that identifier gets back. After registering, persisting and
/// completing a store of `data`, the index holds a ready entry with the
/// stored metadata and recorded size, and the payload file holds exactly
/// the compressed form of `data` — from which `load`, by its contract,
/// returns `data` itself.
pub proof fn lemma_store_load_round_trip(
    entries: Seq<EntryModel>,
    datas: Seq<DataFileView>,
    id: u128,
    username: Seq<char>,
    file_ext: Seq<char>,
    data: Seq<u8>,
    size: u64,
)
    requires
        !has_id(entries, id),
        data_lookup(datas, data_name_chars(id as nat)) is None,
        size as nat == brotli_compressed(data, COMPRESSION_LEVEL as int).len(),
    ensures
        lookup_model(
            finish_model(register_model(entries, id, username, file_ext), id, size),
            id,
        ) == Some(EntryModel { id, username, file_ext, size, ready: true }),
        data_lookup(
            datas.push(
                DataFileView {
                    name: data_name_chars(id as nat),
                    bytes: brotli_compressed(data, COMPRESSION_LEVEL as int),
                },
            ),
            data_name_chars(id as nat),
        ) == Some(brotli_compressed(data, COMPRESSION_LEVEL as int)),
{
    lemma_lookup_none_converse(entries, id);
    let c1 = register_model(entries, id, username, file_ext);
    let n = entries.len() as int;
    assert(forall|j: int| 0 <= j < n ==> (#[trigger] c1[j]).id != id);
    lemma_finish_at(c1, id, size, n);
    let c2 = finish_model(c1, id, size);
    assert(forall|j: int| 0 <= j < n ==> (#[trigger] c2[j]).id != id);
    lemma_lookup_at(c2, id, n);
    assert(c2[n] == EntryModel { id, username, file_ext, size, ready: true });
    lemma_data_lookup_push(
        datas,
        DataFileView {
            name: data_name_chars(id as nat),
            bytes: brotli_compressed(data, COMPRESSION_LEVEL as int),
        },
        data_name_chars(id as nat),
    );
}

/// Readiness is monotone: an entry that is ready stays ready under both
/// operations that change an existing index — registering another entry
/// and completing a store — whichever identifier they concern.
pub proof fn lemma_ready_monotonic(
    entries: Seq<EntryModel>,
    id: u128,
    username: Seq<char>,
    file_ext: Seq<char>,
    size: u64,
    i: int,
)
    requires
        0 <= i < entries.len(),
        entries[i].ready,
    ensures
        register_model(entries, id, username, file_ext)[i].ready,
        finish_model(entries, id, size)[i].ready,
    decreases entries.len(),
{
    lemma_finish_len(entries, id, size);
    if entries[0].id == id {
        if i > 0 {
            assert(finish_model(entries, id, size)[i] == entries[i]);
        }
    } else {
        if i > 0 {
            lemma_finish_len(entries.drop_first(), id, size);
            lemma_ready_monotonic(entries.drop_first(), id, username, file_ext, size, i - 1);
            assert(finish_model(entries, id, size)[i] == finish_model(
                entries.drop_first(),
                id,
                size,
            )[i - 1]);
        }
    }
}

/// Every entry the startup scan recovers is ready from the start; an
/// entry can be unready only while its store is still in flight.
pub proof fn lemma_recovered_ready(files: Seq<MetaFileView>, i: int)
    requires
        0 <= i < recover_model(files).len(),
    ensures
        recover_model(files)[i].ready,
    decreases files.len(),
{
    if files.len() > 0 {
        let prev = recover_model(files.drop_last());
        if i < prev.len() {
            lemma_recovered_ready(files.drop_last(), i);
        }
    }
}

/// The descriptor files that a sequence of entries persisted, one per
/// entry, in index order.
pub open spec fn persisted_metas(entries: Seq<EntryModel>) -> Seq<MetaFileView> {
    entries.map_values(
        |e: EntryModel|
            MetaFileView {
                name: meta_name_chars(e.id as nat),
                text: encode_meta_chars(e.username, e.file_ext, e.size as nat),
            },
    )
}

proof fn lemma_scan_entry_of_encode(e: EntryModel)
    requires
        e.ready,
    ensures
        scan_entry(
            meta_name_chars(e.id as nat),
            encode_meta_chars(e.username, e.file_ext, e.size as nat),
        ) == Some(e),
{
    lemma_pow16_32();
    lemma_id_chars_round_trip(e.id as nat);
    reveal_strlit(".meta");
    let name = meta_name_chars(e.id as nat);
    assert(name.len() == 41);
    assert(name.subrange(36, 41) =~= ".meta"@);
    assert(name.subrange(0, 36) =~= id_chars(e.id as nat));
    lemma_meta_round_trip(e.username, e.file_ext, e.size as nat);
}

/// Startup idempotence: rebuilding a cache against a directory holding
/// exactly the descriptor files of ready entries reproduces exactly those
/// entries, each already ready.
pub proof fn lemma_recover_reproduces(entries: Seq<EntryModel>)
    requires
        forall|i: int| 0 <= i < entries.len() ==> (#[trigger] entries[i]).ready,
    ensures
        recover_model(persisted_metas(entries)) == entries,
    decreases entries.len(),
{
    if entries.len() == 0 {
        assert(recover_model(persisted_metas(entries)) =~= entries);
    } else {
        lemma_recover_reproduces(entries.drop_last());
        assert(persisted_metas(entries).drop_last() =~= persisted_metas(entries.drop_last()));
        lemma_scan_entry_of_encode(entries.last());
        assert(recover_model(persisted_metas(entries)) =~= entries);
    }
}

/// Corrupt recovery tolerance: a directory file whose name or descriptor
/// is malformed contributes nothing to the rebuilt index; recovery of the
/// remaining files is unaffected, and construction never fails.
pub proof fn lemma_recover_skips_malformed(files: Seq<MetaFileView>, bad: MetaFileView)
    requires
        scan_entry(bad.name, bad.text) is None,
    ensures
        recover_model(files.push(bad)) == recover_model(files),
{
    assert(files.push(bad).drop_last() =~= files);
    assert(recover_model(files.push(bad)) =~= recover_model(files));
}

} // verus!
