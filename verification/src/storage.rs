//! The object store and the metadata concurrency coordinator.
//!
//! Every folder owns one `metadata` object and any number of file objects.
//! The store hands out an opaque generation token (the etag) with every
//! write; an update must name the current token of the metadata object or it
//! is refused.  The metadata object is the commit point: a combined upload
//! writes the metadata under its precondition first and only then the file,
//! so folder-level updates serialize even though the store itself is not a
//! transactional database.
//!
//! Tokens are the decimal rendering of a store-wide generation counter, so
//! two different generations never carry the same token
//! ([`crate::decimal::lemma_spec_decimal_injective`]); that is what makes
//! "at most one writer per parent token" ([`lemma_single_writer_per_token`])
//! true.

use vstd::prelude::*;

use crate::db::FolderEntity;
use crate::db::copy_bytes;
use crate::decimal::lemma_spec_decimal_injective;
use crate::decimal::lemma_spec_decimal_len;
use crate::decimal::spec_decimal;
use crate::decimal::u64_to_string;
use crate::errors::StoreError;
use crate::queue::filtered;
use crate::queue::first_where;
use crate::queue::lemma_filtered_elem;
use crate::queue::lemma_filtered_unique;
use crate::queue::lemma_first_where_extend;
use crate::queue::lemma_first_where_found;
use crate::queue::lemma_first_where_none;


verus! {

/// One object held by the store.
pub struct StoredObject {
    pub folder_id: u64,
    pub file_id: String,
    pub data: Vec<u8>,
    /// The generation at which the object was last written.
    pub gen: u64,
    /// The token handed out for that generation.
    pub etag: String,
}

/// Mathematical view of a stored object.
pub struct StoredRow {
    pub folder_id: u64,
    pub file_id: Seq<char>,
    pub data: Seq<u8>,
    pub gen: u64,
    pub etag: Seq<char>,
}

impl View for StoredObject {
    type V = StoredRow;

    open spec fn view(&self) -> StoredRow {
        StoredRow {
            folder_id: self.folder_id,
            file_id: self.file_id@,
            data: self.data@,
            gen: self.gen,
            etag: self.etag@,
        }
    }
}

/// The row views of the object table.
pub open spec fn object_views(s: Seq<StoredObject>) -> Seq<StoredRow> {
    Seq::new(s.len(), |i: int| s[i]@)
}

/// The token and version handed back with a read.
pub struct StoreMeta {
    pub e_tag: Option<String>,
    pub version: Option<String>,
}

/// The reserved name under which the per-folder metadata object is stored.
pub open spec fn metadata_name() -> Seq<char> {
    "metadata"@
}

/// Predicate: the object is stored under `(folder_id, file_id)`.
pub open spec fn pred_object(folder_id: u64, file_id: Seq<char>) -> spec_fn(StoredRow) -> bool {
    |o: StoredRow| o.folder_id == folder_id && o.file_id == file_id
}

/// Predicate: the object survives the removal of `(folder_id, file_id)`.
pub open spec fn keep_not_object(folder_id: u64, file_id: Seq<char>) -> spec_fn(StoredRow) -> bool {
    |o: StoredRow| !(o.folder_id == folder_id && o.file_id == file_id)
}

/// Key: the path of an object.
pub open spec fn key_object() -> spec_fn(StoredRow) -> (u64, Seq<char>) {
    |o: StoredRow| (o.folder_id, o.file_id)
}

/// The object stored under `(folder_id, file_id)`, if any.
pub open spec fn find_object(s: Seq<StoredRow>, folder_id: u64, file_id: Seq<char>) -> Option<
    StoredRow,
> {
    first_where(s, pred_object(folder_id, file_id))
}

/// The table without the object `(folder_id, file_id)`.
pub open spec fn remove_object(s: Seq<StoredRow>, folder_id: u64, file_id: Seq<char>) -> Seq<
    StoredRow,
> {
    filtered(s, keep_not_object(folder_id, file_id))
}

/// Whether an update against the given parent tokens may go through: the
/// parent etag, when given, must equal the current token, and the store
/// versions objects by etag alone, so naming a parent version never matches.
pub open spec fn update_matches(
    cur: StoredRow,
    parent_etag: Option<Seq<char>>,
    parent_version: Option<Seq<char>>,
) -> bool {
    &&& (parent_etag matches Some(e) ==> e == cur.etag)
    &&& parent_version is None
}

/// The write protocol's input: which folder, which file (when a file rides
/// along), the new metadata object, and the parent tokens the update is
/// conditioned on.
pub struct WriteInput {
    pub folder_entity: FolderEntity,
    pub file_id: String,
    pub file_to_write: Option<Vec<u8>>,
    pub metadata_file: Vec<u8>,
    pub parent_etag: Option<String>,
    pub parent_version: Option<String>,
}

/// The store configuration: fall back to a local filesystem, or talk to an
/// S3-compatible endpoint.
pub struct StoreConfig {
    pub fs_fallback: bool,
    pub s3_storage: Option<S3Config>,
}

/// Credentials and location of an S3-compatible store.
pub struct S3Config {
    pub bucket: String,
    pub endpoint: String,
    pub access_key_id: String,
    pub secret_access_key: String,
}

/// The object store model: a table of objects and the next generation to
/// hand out.
pub struct DynamicStore {
    pub objects: Vec<StoredObject>,
    pub next_gen: u64,
}

impl DynamicStore {
    /// The row views of the object table.
    pub open spec fn objects_v(self) -> Seq<StoredRow> {
        object_views(self.objects@)
    }

    /// Paths are unique, every token is the decimal rendering of the
    /// object's generation, and generations stay below the next one.
    pub open spec fn wf(self) -> bool {
        &&& forall|i: int, j: int|
            0 <= i < j < self.objects_v().len() ==> !((#[trigger] self.objects_v()[i]).folder_id
                == (#[trigger] self.objects_v()[j]).folder_id && self.objects_v()[i].file_id
                == self.objects_v()[j].file_id)
        &&& forall|i: int|
            0 <= i < self.objects_v().len() ==> (#[trigger] self.objects_v()[i]).etag
                == spec_decimal(self.objects_v()[i].gen as int)
        &&& forall|i: int|
            0 <= i < self.objects_v().len() ==> (#[trigger] self.objects_v()[i]).gen < self.next_gen
    }

    /// An empty store.
    pub fn new() -> (s: DynamicStore)
        ensures
            s.wf(),
            s.objects_v().len() == 0,
            s.next_gen == 1,
    {
        DynamicStore { objects: Vec::new(), next_gen: 1 }
    }
}


/// The table after writing `(folder_id, file_id)` at generation `gen`: the
/// old object under that path, if any, is replaced.
pub open spec fn object_after_write(
    s: Seq<StoredRow>,
    folder_id: u64,
    file_id: Seq<char>,
    data: Seq<u8>,
    gen: u64,
) -> Seq<StoredRow> {
    remove_object(s, folder_id, file_id).push(
        StoredRow { folder_id, file_id, data, gen, etag: spec_decimal(gen as int) },
    )
}

/// The view of an optional token.
pub open spec fn opt_view(o: Option<String>) -> Option<Seq<char>> {
    match o {
        Some(s) => Some(s@),
        None => None,
    }
}

/// After an upsert, the written object is found under its path.
pub proof fn lemma_find_after_upsert(
    s: Seq<StoredRow>,
    folder_id: u64,
    file_id: Seq<char>,
    row: StoredRow,
)
    requires
        row.folder_id == folder_id,
        row.file_id == file_id,
    ensures
        find_object(remove_object(s, folder_id, file_id).push(row), folder_id, file_id) == Some(
            row,
        ),
{
    let prefix = remove_object(s, folder_id, file_id);
    lemma_filtered_elem(s, keep_not_object(folder_id, file_id));
    lemma_first_where_none(prefix, pred_object(folder_id, file_id));
    assert(prefix.push(row).drop_last() =~= prefix);
    assert(prefix.push(row).last() == row);
}

/// Rows removed by `keep` never satisfy `pred`, so the first hit survives
/// filtering.
pub proof fn lemma_first_where_filtered<A>(
    s: Seq<A>,
    keep: spec_fn(A) -> bool,
    pred: spec_fn(A) -> bool,
)
    requires
        forall|i: int| 0 <= i < s.len() && !keep(#[trigger] s[i]) ==> !pred(s[i]),
    ensures
        first_where(filtered(s, keep), pred) == first_where(s, pred),
    decreases s.len(),
{
    if s.len() > 0 {
        lemma_first_where_filtered(s.drop_last(), keep, pred);
        let prefix = filtered(s.drop_last(), keep);
        if keep(s.last()) {
            assert(filtered(s, keep) == prefix.push(s.last()));
            assert(prefix.push(s.last()).drop_last() =~= prefix);
            assert(prefix.push(s.last()).last() == s.last());
        } else {
            assert(!pred(s.last()));
            assert(s[s.len() - 1] == s.last());
        }
    }
}

/// An upsert of one path leaves every other path's lookup unchanged.
pub proof fn lemma_find_after_upsert_other(
    s: Seq<StoredRow>,
    folder_id: u64,
    file_id: Seq<char>,
    row: StoredRow,
    f2: u64,
    id2: Seq<char>,
)
    requires
        row.folder_id == folder_id,
        row.file_id == file_id,
        !(f2 == folder_id && id2 == file_id),
    ensures
        find_object(remove_object(s, folder_id, file_id).push(row), f2, id2) == find_object(
            s,
            f2,
            id2,
        ),
{
    let prefix = remove_object(s, folder_id, file_id);
    let pred = pred_object(f2, id2);
    lemma_first_where_filtered(s, keep_not_object(folder_id, file_id), pred);
    assert(prefix.push(row).drop_last() =~= prefix);
    assert(prefix.push(row).last() == row);
    assert(!pred(row));
}

/// Uniqueness, token shape and generation bound survive an upsert at the
/// current generation.
proof fn lemma_upsert_wf(
    s: Seq<StoredRow>,
    folder_id: u64,
    file_id: Seq<char>,
    data: Seq<u8>,
    gen: u64,
)
    requires
        forall|i: int, j: int|
            0 <= i < j < s.len() ==> !((#[trigger] s[i]).folder_id == (#[trigger] s[j]).folder_id
                && s[i].file_id == s[j].file_id),
        forall|i: int| 0 <= i < s.len() ==> (#[trigger] s[i]).etag == spec_decimal(s[i].gen as int),
        forall|i: int| 0 <= i < s.len() ==> (#[trigger] s[i]).gen < gen + 1,
    ensures
        ({
            let after = object_after_write(s, folder_id, file_id, data, gen);
            &&& forall|i: int, j: int|
                0 <= i < j < after.len() ==> !((#[trigger] after[i]).folder_id
                    == (#[trigger] after[j]).folder_id && after[i].file_id == after[j].file_id)
            &&& forall|i: int|
                0 <= i < after.len() ==> (#[trigger] after[i]).etag == spec_decimal(
                    after[i].gen as int,
                )
            &&& forall|i: int| 0 <= i < after.len() ==> (#[trigger] after[i]).gen < gen + 1
        }),
{
    let keep = keep_not_object(folder_id, file_id);
    lemma_filtered_unique(s, keep, key_object());
    lemma_filtered_elem(s, keep);
    let prefix = remove_object(s, folder_id, file_id);
    let after = object_after_write(s, folder_id, file_id, data, gen);
    assert forall|i: int, j: int|
        0 <= i < j < after.len() implies !((#[trigger] after[i]).folder_id
        == (#[trigger] after[j]).folder_id && after[i].file_id == after[j].file_id) by {
        if j < prefix.len() {
            assert(after[i] == prefix[i]);
            assert(after[j] == prefix[j]);
            assert(key_object()(prefix[i]) != key_object()(prefix[j]));
        } else {
            assert(after[j] == after.last());
            assert(after[i] == prefix[i]);
        }
    }
    assert forall|i: int|
        0 <= i < after.len() implies (#[trigger] after[i]).etag == spec_decimal(
        after[i].gen as int,
    ) && after[i].gen < gen + 1 by {
        if i < prefix.len() {
            assert(after[i] == prefix[i]);
            let w = choose|w: int| 0 <= w < s.len() && s[w] == prefix[i];
        } else {
            assert(after[i] == after.last());
        }
    }
}

/// Builds the reserved metadata file name.
pub fn metadata_string() -> (s: String)
    ensures
        s@ == metadata_name(),
{
    String::from_str("metadata")
}

/// Whether a client-chosen file id collides with the reserved metadata name
/// and must be rejected.
pub fn is_metadata_file_name(name: &String) -> (b: bool)
    ensures
        b == (name@ == metadata_name()),
{
    let m = metadata_string();
    *name == m
}

/// The path prefix of a folder inside the store.
pub fn get_folder_name_prefix(folder_entity: &FolderEntity) -> (r: String)
    ensures
        r@ == seq!['/'] + spec_decimal(folder_entity.folder_id as int),
{
    let mut s = String::from_str("/");
    proof {
        reveal_strlit("/");
    }
    let digits = u64_to_string(folder_entity.folder_id);
    s.append(digits.as_str());
    proof {
        assert(s@ =~= seq!['/'] + spec_decimal(folder_entity.folder_id as int));
    }
    s
}

/// The full path of a file inside the store: the folder prefix, a
/// separator, and the client-chosen file id.
pub fn get_location_for_file(folder_entity: &FolderEntity, file_id: &String) -> (r: String)
    ensures
        r@ == seq!['/'] + spec_decimal(folder_entity.folder_id as int) + seq!['/'] + file_id@,
{
    let mut s = get_folder_name_prefix(folder_entity);
    proof {
        reveal_strlit("/");
    }
    s.append("/");
    s.append(file_id.as_str());
    proof {
        assert(s@ =~= seq!['/'] + spec_decimal(folder_entity.folder_id as int) + seq!['/']
            + file_id@);
    }
    s
}

/// Finds the index of the object stored under `(folder_id, file_id)`.
fn find_object_vec(objects: &Vec<StoredObject>, folder_id: u64, file_id: &String) -> (r: Option<
    usize,
>)
    ensures
        match r {
            None => find_object(object_views(objects@), folder_id, file_id@) is None,
            Some(i) => i < objects@.len() && find_object(object_views(objects@), folder_id, file_id@)
                == Some(object_views(objects@)[i as int]),
        },
{
    let ghost full = object_views(objects@);
    let ghost pred = pred_object(folder_id, file_id@);
    let mut i: usize = 0;
    while i < objects.len()
        invariant
            i <= full.len(),
            full == object_views(objects@),
            pred == pred_object(folder_id, file_id@),
            first_where(full.take(i as int), pred) is None,
        decreases full.len() - i,
    {
        proof {
            assert(full.take(i + 1).drop_last() =~= full.take(i as int));
            assert(full.take(i + 1).last() == full[i as int]);
        }
        if objects[i].folder_id == folder_id && objects[i].file_id == *file_id {
            proof {
                assert(first_where(full.take(i + 1), pred) == Some(full[i as int]));
                lemma_first_where_extend(full, pred, i + 1);
            }
            return Some(i);
        }
        i = i + 1;
    }
    proof {
        assert(full.take(full.len() as int) =~= full);
    }
    None
}

/// The objects surviving the removal of one path.
fn retain_objects(objects: &Vec<StoredObject>, folder_id: u64, file_id: &String) -> (r: Vec<
    StoredObject,
>)
    ensures
        object_views(r@) == remove_object(object_views(objects@), folder_id, file_id@),
{
    let ghost full = object_views(objects@);
    let mut r: Vec<StoredObject> = Vec::new();
    let mut i: usize = 0;
    while i < objects.len()
        invariant
            i <= full.len(),
            full == object_views(objects@),
            object_views(r@) == remove_object(full.take(i as int), folder_id, file_id@),
        decreases full.len() - i,
    {
        proof {
            assert(full.take(i + 1).drop_last() =~= full.take(i as int));
            assert(full.take(i + 1).last() == full[i as int]);
        }
        let ghost prev = object_views(r@);
        if !(objects[i].folder_id == folder_id && objects[i].file_id == *file_id) {
            r.push(
                StoredObject {
                    folder_id: objects[i].folder_id,
                    file_id: objects[i].file_id.clone(),
                    data: copy_bytes(&objects[i].data),
                    gen: objects[i].gen,
                    etag: objects[i].etag.clone(),
                },
            );
            proof {
                assert(object_views(r@) =~= prev.push(full[i as int]));
            }
        }
        i = i + 1;
    }
    proof {
        assert(full.take(full.len() as int) =~= full);
    }
    r
}

impl DynamicStore {
    /// Writes a new version of the folder's metadata object under the given
    /// precondition — parent tokens present means update, absent means
    /// create — and, on success, the file that rides along.  The returned
    /// token is the fresh generation of the metadata object and is never
    /// empty.
    pub fn write(&mut self, input: WriteInput) -> (r: Result<
        (Option<String>, Option<String>),
        StoreError,
    >)
        requires
            old(self).wf(),
            input.file_to_write is Some ==> input.file_id@ != metadata_name(),
        ensures
            final(self).wf(),
            ({
                let fid = input.folder_entity.folder_id;
                let cur = find_object(old(self).objects_v(), fid, metadata_name());
                let has_parent = input.parent_etag is Some || input.parent_version is Some;
                let pe = opt_view(input.parent_etag);
                let pv = opt_view(input.parent_version);
                &&& (r is Ok <==> old(self).next_gen < u64::MAX && (if has_parent {
                    cur matches Some(c) && update_matches(c, pe, pv)
                } else {
                    cur is None
                }))
                &&& (r matches Ok((e, v)) ==> (e matches Some(es) && es@ == spec_decimal(
                    old(self).next_gen as int,
                ) && es@.len() >= 1 && v is None))
                &&& (r is Ok ==> {
                    let with_md = object_after_write(
                        old(self).objects_v(),
                        fid,
                        metadata_name(),
                        input.metadata_file@,
                        old(self).next_gen,
                    );
                    &&& final(self).objects_v() == (match input.file_to_write {
                        None => with_md,
                        Some(fb) => object_after_write(
                            with_md,
                            fid,
                            input.file_id@,
                            fb@,
                            old(self).next_gen,
                        ),
                    })
                    &&& final(self).next_gen == old(self).next_gen + 1
                })
                &&& (r matches Err(err) ==> *final(self) == *old(self) && (err is Internal <==> old(
                    self,
                ).next_gen == u64::MAX) && (err is Precondition <==> old(self).next_gen < u64::MAX
                    && has_parent && !(cur matches Some(c) && update_matches(c, pe, pv))) && (
                err is AlreadyExists <==> old(self).next_gen < u64::MAX && !has_parent
                    && cur is Some) && !(err is NotFound))
            }),
    {
        let fid = input.folder_entity.folder_id;
        if self.next_gen == u64::MAX {
            return Err(StoreError::Internal);
        }
        let md_name = metadata_string();
        let cur_idx = find_object_vec(&self.objects, fid, &md_name);
        let has_parent = input.parent_etag.is_some() || input.parent_version.is_some();
        if has_parent {
            match cur_idx {
                None => {
                    return Err(StoreError::Precondition);
                },
                Some(i) => {
                    let ok_e = match &input.parent_etag {
                        None => true,
                        Some(e) => *e == self.objects[i].etag,
                    };
                    let ok_v = input.parent_version.is_none();
                    if !(ok_e && ok_v) {
                        return Err(StoreError::Precondition);
                    }
                },
            }
        } else {
            match cur_idx {
                Some(_) => {
                    return Err(StoreError::AlreadyExists);
                },
                None => {},
            }
        }
        let ghost pre = *self;
        let g = self.next_gen;
        let etag_s = u64_to_string(g);
        let new_objects = retain_objects(&self.objects, fid, &md_name);
        self.objects = new_objects;
        self.objects.push(
            StoredObject {
                folder_id: fid,
                file_id: md_name,
                data: copy_bytes(&input.metadata_file),
                gen: g,
                etag: etag_s.clone(),
            },
        );
        proof {
            assert(self.objects_v() =~= object_after_write(
                pre.objects_v(),
                fid,
                metadata_name(),
                input.metadata_file@,
                g,
            ));
            lemma_upsert_wf(pre.objects_v(), fid, metadata_name(), input.metadata_file@, g);
        }
        let ghost mid_objects = self.objects_v();
        match &input.file_to_write {
            Some(fb) => {
                let newer = retain_objects(&self.objects, fid, &input.file_id);
                self.objects = newer;
                self.objects.push(
                    StoredObject {
                        folder_id: fid,
                        file_id: input.file_id.clone(),
                        data: copy_bytes(fb),
                        gen: g,
                        etag: etag_s.clone(),
                    },
                );
                proof {
                    assert(self.objects_v() =~= object_after_write(
                        mid_objects,
                        fid,
                        input.file_id@,
                        fb@,
                        g,
                    ));
                    lemma_upsert_wf(mid_objects, fid, input.file_id@, fb@, g);
                }
            },
            None => {},
        }
        self.next_gen = g + 1;
        proof {
            lemma_spec_decimal_len(g as int);
        }
        Ok((Some(etag_s), None))
    }

    /// Creates the initial metadata object of a fresh folder, returning its
    /// first token.
    pub fn init_metadata(&mut self, folder_entity: FolderEntity, metadata_file: Vec<u8>) -> (r:
        Result<(Option<String>, Option<String>), StoreError>)
        requires
            old(self).wf(),
        ensures
            final(self).wf(),
            r is Ok <==> old(self).next_gen < u64::MAX && find_object(
                old(self).objects_v(),
                folder_entity.folder_id,
                metadata_name(),
            ) is None,
            r matches Ok((e, v)) ==> (e matches Some(es) && es@ == spec_decimal(
                old(self).next_gen as int,
            ) && es@.len() >= 1 && v is None),
            r is Ok ==> final(self).objects_v() == object_after_write(
                old(self).objects_v(),
                folder_entity.folder_id,
                metadata_name(),
                metadata_file@,
                old(self).next_gen,
            ) && final(self).next_gen == old(self).next_gen + 1,
            r is Err ==> *final(self) == *old(self),
    {
        self.write(
            WriteInput {
                folder_entity,
                file_id: String::new(),
                file_to_write: None,
                metadata_file,
                parent_etag: None,
                parent_version: None,
            },
        )
    }

    /// Reads a file object: its bytes and its current token.
    pub fn read_file(&self, folder_entity: &FolderEntity, file_id: &String) -> (r: Result<
        (Vec<u8>, StoreMeta),
        StoreError,
    >)
        ensures
            r is Ok <==> find_object(
                self.objects_v(),
                folder_entity.folder_id,
                file_id@,
            ) is Some,
            r matches Ok((bytes, meta)) ==> ({
                let row = find_object(self.objects_v(), folder_entity.folder_id, file_id@)->0;
                &&& bytes@ == row.data
                &&& meta.e_tag matches Some(e) && e@ == row.etag
                &&& meta.version is None
            }),
            r is Err ==> r == Err::<(Vec<u8>, StoreMeta), StoreError>(StoreError::NotFound),
    {
        match find_object_vec(&self.objects, folder_entity.folder_id, file_id) {
            None => Err(StoreError::NotFound),
            Some(i) => Ok(
                (
                    copy_bytes(&self.objects[i].data),
                    StoreMeta { e_tag: Some(self.objects[i].etag.clone()), version: None },
                ),
            ),
        }
    }

    /// Reads the folder's metadata object: its bytes and its current token.
    pub fn read_metadata(&self, folder_entity: &FolderEntity) -> (r: Result<
        (Vec<u8>, StoreMeta),
        StoreError,
    >)
        ensures
            r is Ok <==> find_object(
                self.objects_v(),
                folder_entity.folder_id,
                metadata_name(),
            ) is Some,
            r matches Ok((bytes, meta)) ==> ({
                let row = find_object(
                    self.objects_v(),
                    folder_entity.folder_id,
                    metadata_name(),
                )->0;
                &&& bytes@ == row.data
                &&& meta.e_tag matches Some(e) && e@ == row.etag
                &&& meta.version is None
            }),
            r is Err ==> r == Err::<(Vec<u8>, StoreMeta), StoreError>(StoreError::NotFound),
    {
        let md_name = metadata_string();
        self.read_file(folder_entity, &md_name)
    }
}

/// At most one writer succeeds per parent token: a successful conditional
/// update against parent token `pe` gives the metadata object a token other
/// than `pe`, so every later update naming `pe` is refused with a
/// precondition failure.
pub proof fn lemma_single_writer_per_token(
    pre: DynamicStore,
    post: DynamicStore,
    folder_id: u64,
    pe: Seq<char>,
    md_data: Seq<u8>,
    file_write: Option<(Seq<char>, Seq<u8>)>,
)
    requires
        pre.wf(),
        find_object(pre.objects_v(), folder_id, metadata_name()) matches Some(cur) && cur.etag
            == pe,
        pre.next_gen < u64::MAX,
        file_write matches Some(fw) ==> fw.0 != metadata_name(),
        post.objects_v() == (match file_write {
            None => object_after_write(
                pre.objects_v(),
                folder_id,
                metadata_name(),
                md_data,
                pre.next_gen,
            ),
            Some(fw) => object_after_write(
                object_after_write(
                    pre.objects_v(),
                    folder_id,
                    metadata_name(),
                    md_data,
                    pre.next_gen,
                ),
                folder_id,
                fw.0,
                fw.1,
                pre.next_gen,
            ),
        }),
    ensures
        find_object(post.objects_v(), folder_id, metadata_name()) matches Some(cur2) && cur2.etag
            != pe && (forall|pv: Option<Seq<char>>| !update_matches(cur2, Some(pe), pv)),
{
    let cur = find_object(pre.objects_v(), folder_id, metadata_name())->0;
    let md_new = StoredRow {
        folder_id,
        file_id: metadata_name(),
        data: md_data,
        gen: pre.next_gen,
        etag: spec_decimal(pre.next_gen as int),
    };
    lemma_find_after_upsert(pre.objects_v(), folder_id, metadata_name(), md_new);
    match file_write {
        None => {},
        Some(fw) => {
            let with_md = object_after_write(
                pre.objects_v(),
                folder_id,
                metadata_name(),
                md_data,
                pre.next_gen,
            );
            let file_new = StoredRow {
                folder_id,
                file_id: fw.0,
                data: fw.1,
                gen: pre.next_gen,
                etag: spec_decimal(pre.next_gen as int),
            };
            lemma_find_after_upsert_other(
                with_md,
                folder_id,
                fw.0,
                file_new,
                folder_id,
                metadata_name(),
            );
        },
    }
    lemma_first_where_found(pre.objects_v(), pred_object(folder_id, metadata_name()));
    let w = choose|w: int| 0 <= w < pre.objects_v().len() && pre.objects_v()[w] == cur;
    assert(cur.etag == spec_decimal(cur.gen as int));
    assert(cur.gen < pre.next_gen);
    if spec_decimal(pre.next_gen as int) == pe {
        lemma_spec_decimal_injective(pre.next_gen as int, cur.gen as int);
    }
}

/// A combined upload followed by a read of the file returns the uploaded
/// bytes unchanged, under the very token the write response carried.
pub proof fn lemma_write_then_read(
    pre: DynamicStore,
    post: DynamicStore,
    folder_id: u64,
    file_id: Seq<char>,
    file_data: Seq<u8>,
    md_data: Seq<u8>,
)
    requires
        file_id != metadata_name(),
        post.objects_v() == object_after_write(
            object_after_write(
                pre.objects_v(),
                folder_id,
                metadata_name(),
                md_data,
                pre.next_gen,
            ),
            folder_id,
            file_id,
            file_data,
            pre.next_gen,
        ),
    ensures
        find_object(post.objects_v(), folder_id, file_id) == Some(
            StoredRow {
                folder_id,
                file_id,
                data: file_data,
                gen: pre.next_gen,
                etag: spec_decimal(pre.next_gen as int),
            },
        ),
        find_object(post.objects_v(), folder_id, metadata_name()) == Some(
            StoredRow {
                folder_id,
                file_id: metadata_name(),
                data: md_data,
                gen: pre.next_gen,
                etag: spec_decimal(pre.next_gen as int),
            },
        ),
{
    let with_md = object_after_write(
        pre.objects_v(),
        folder_id,
        metadata_name(),
        md_data,
        pre.next_gen,
    );
    let file_new = StoredRow {
        folder_id,
        file_id,
        data: file_data,
        gen: pre.next_gen,
        etag: spec_decimal(pre.next_gen as int),
    };
    let md_new = StoredRow {
        folder_id,
        file_id: metadata_name(),
        data: md_data,
        gen: pre.next_gen,
        etag: spec_decimal(pre.next_gen as int),
    };
    lemma_find_after_upsert(with_md, folder_id, file_id, file_new);
    lemma_find_after_upsert(pre.objects_v(), folder_id, metadata_name(), md_new);
    lemma_find_after_upsert_other(with_md, folder_id, file_id, file_new, folder_id, metadata_name());
}

} // verus!

