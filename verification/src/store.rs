//! The two-file-per-entry representation of the backing directory.
//!
//! Each stored entry owns two files: `{id}.data` with the compressed
//! payload and `{id}.meta` with the metadata descriptor. The descriptor is
//! written only after the payload, so a reader that sees a `.meta` file may
//! assume the `.data` file is complete. `StoreDir` is the directory held as
//! a value: the cache's contracts are stated against it, and the part of
//! the program that touches the real file system mirrors it file by file.

use vstd::prelude::*;
use crate::cache::PersistPlan;
use crate::id::{id_chars, EntryId};

verus! {

/// One persisted `.meta` file: its file name and its descriptor text.
pub struct MetaFile {
    pub name: String,
    pub text: String,
}

/// What a `.meta` file holds.
pub struct MetaFileView {
    pub name: Seq<char>,
    pub text: Seq<char>,
}

impl View for MetaFile {
    type V = MetaFileView;

    open spec fn view(&self) -> MetaFileView {
        MetaFileView { name: self.name@, text: self.text@ }
    }
}

/// One persisted `.data` file: its file name and the compressed payload.
pub struct DataFile {
    pub name: String,
    pub bytes: Vec<u8>,
}

/// What a `.data` file holds.
pub struct DataFileView {
    pub name: Seq<char>,
    pub bytes: Seq<u8>,
}

impl View for DataFile {
    type V = DataFileView;

    open spec fn view(&self) -> DataFileView {
        DataFileView { name: self.name@, bytes: self.bytes@ }
    }
}

/// A snapshot of the backing directory.
pub struct StoreDir {
    pub metas: Vec<MetaFile>,
    pub datas: Vec<DataFile>,
}

/// What the backing directory holds.
pub struct StoreDirView {
    pub metas: Seq<MetaFileView>,
    pub datas: Seq<DataFileView>,
}

impl View for StoreDir {
    type V = StoreDirView;

    open spec fn view(&self) -> StoreDirView {
        StoreDirView {
            metas: self.metas@.map_values(|f: MetaFile| f@),
            datas: self.datas@.map_values(|f: DataFile| f@),
        }
    }
}

/// The name of an entry's payload file.
pub open spec fn data_name_chars(id: nat) -> Seq<char> {
    id_chars(id) + ".data"@
}

/// The name of an entry's descriptor file.
pub open spec fn meta_name_chars(id: nat) -> Seq<char> {
    id_chars(id) + ".meta"@
}

/// Renders the payload file name for `id`.
pub fn data_file_name(id: &EntryId) -> (s: String)
    ensures
        s@ == data_name_chars(id.value as nat),
{
    let mut s = id.to_hyphenated();
    s.append(".data");
    proof {
        assert(s@ =~= data_name_chars(id.value as nat));
    }
    s
}

/// Renders the descriptor file name for `id`.
pub fn meta_file_name(id: &EntryId) -> (s: String)
    ensures
        s@ == meta_name_chars(id.value as nat),
{
    let mut s = id.to_hyphenated();
    s.append(".meta");
    proof {
        assert(s@ =~= meta_name_chars(id.value as nat));
    }
    s
}

/// Whether `name` is the descriptor file name of some entry: a hyphenated
/// identifier followed by `.meta`. The startup scan reads exactly these
/// files.
pub fn is_meta_file_name(name: &str) -> (r: bool)
    ensures
        r == (name@.len() == 41 && name@.subrange(36, 41) == ".meta"@ && crate::id::wf_id_chars(
            name@.subrange(0, 36),
        )),
{
    let len = name.unicode_len();
    if len != 41 {
        return false;
    }
    if !crate::meta::match_lit(name, len, 36, ".meta") {
        proof {
            reveal_strlit(".meta");
        }
        return false;
    }
    proof {
        reveal_strlit(".meta");
    }
    let stem = name.substring_char(0, 36);
    match EntryId::parse(stem) {
        Some(_) => true,
        None => false,
    }
}

/// The payload bytes stored under `name`, if that file exists (the first
/// file of that name, where the snapshot holds several).
pub open spec fn data_lookup(datas: Seq<DataFileView>, name: Seq<char>) -> Option<Seq<u8>>
    decreases datas.len(),
{
    if datas.len() == 0 {
        None
    } else if datas[0].name == name {
        Some(datas[0].bytes)
    } else {
        data_lookup(datas.drop_first(), name)
    }
}

/// Looking a name up in a snapshot where it does not occur, after one more
/// file was added, finds exactly the new file's bytes when the names match.
pub proof fn lemma_data_lookup_push(datas: Seq<DataFileView>, f: DataFileView, name: Seq<char>)
    requires
        data_lookup(datas, name) is None,
    ensures
        data_lookup(datas.push(f), name) == if f.name == name {
            Some(f.bytes)
        } else {
            Option::<Seq<u8>>::None
        },
    decreases datas.len(),
{
    if datas.len() == 0 {
        assert(datas.push(f).drop_first() =~= Seq::<DataFileView>::empty());
        assert(data_lookup(Seq::<DataFileView>::empty(), name) is None);
        assert(datas.push(f)[0] == f);
    } else {
        assert(datas.push(f).drop_first() =~= datas.drop_first().push(f));
        lemma_data_lookup_push(datas.drop_first(), f, name);
    }
}

pub(crate) proof fn lemma_data_lookup_at(datas: Seq<DataFileView>, name: Seq<char>, i: int)
    requires
        0 <= i < datas.len(),
        forall|j: int| 0 <= j < i ==> (#[trigger] datas[j]).name != name,
        datas[i].name == name,
    ensures
        data_lookup(datas, name) == Some(datas[i].bytes),
    decreases i,
{
    if i > 0 {
        lemma_data_lookup_at(datas.drop_first(), name, i - 1);
    }
}

pub(crate) proof fn lemma_data_lookup_none(datas: Seq<DataFileView>, name: Seq<char>)
    requires
        forall|j: int| 0 <= j < datas.len() ==> (#[trigger] datas[j]).name != name,
    ensures
        data_lookup(datas, name) is None,
    decreases datas.len(),
{
    if datas.len() > 0 {
        lemma_data_lookup_none(datas.drop_first(), name);
    }
}

impl StoreDir {
    /// An empty directory snapshot.
    pub fn new() -> (d: StoreDir)
        ensures
            d@.metas =~= Seq::<MetaFileView>::empty(),
            d@.datas =~= Seq::<DataFileView>::empty(),
    {
        let d = StoreDir { metas: Vec::new(), datas: Vec::new() };
        proof {
            assert(d@.metas =~= Seq::<MetaFileView>::empty());
            assert(d@.datas =~= Seq::<DataFileView>::empty());
        }
        d
    }

    /// Adds an entry's two files to the snapshot: the payload file first,
    /// then the descriptor file, in the order the real directory is
    /// written.
    pub fn apply_persist(&mut self, plan: PersistPlan)
        ensures
            final(self)@.datas == old(self)@.datas.push(
                DataFileView { name: plan.data_name@, bytes: plan.data_bytes@ },
            ),
            final(self)@.metas == old(self)@.metas.push(
                MetaFileView { name: plan.meta_name@, text: plan.meta_text@ },
            ),
    {
        self.datas.push(DataFile { name: plan.data_name, bytes: plan.data_bytes });
        self.metas.push(MetaFile { name: plan.meta_name, text: plan.meta_text });
        proof {
            assert(self@.datas =~= old(self)@.datas.push(
                DataFileView { name: plan.data_name@, bytes: plan.data_bytes@ },
            ));
            assert(self@.metas =~= old(self)@.metas.push(
                MetaFileView { name: plan.meta_name@, text: plan.meta_text@ },
            ));
        }
    }
}

} // verus!
