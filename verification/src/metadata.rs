//! The client-side folder metadata document and its byte encoding.
//!
//! A folder's metadata maps each member identity to the folder key encrypted
//! for them, and each file id to the file's encrypted per-file metadata.
//! The server never reads the document — it stores the bytes opaquely — so
//! the encoding is the clients' own: two association lists, each item
//! length-prefixed with a little-endian `u64`.
//!
//! [`lemma_metadata_round_trip`] is the codec law: decoding an encoded
//! document gives the document back, so [`deserialize`] inverts
//! [`serialize`].

use vstd::prelude::*;

use vstd::bytes::lemma_auto_spec_u64_to_from_le_bytes;
use vstd::bytes::spec_u64_from_le_bytes;
use vstd::bytes::spec_u64_to_le_bytes;
use vstd::bytes::u64_from_le_bytes;
use vstd::bytes::u64_to_le_bytes;

use crate::db::copy_bytes;

verus! {

/// The decrypted per-file metadata a client keeps inside the document.
pub struct FileMetadata {
    /// The file key, encrypted for the reader.
    pub file_key: String,
    /// The display name of the file.
    pub file_name: String,
}

/// One association of a member identity with the folder key encrypted for
/// them.
pub struct FolderKeyEntry {
    pub user_identity: Vec<u8>,
    pub encrypted_folder_key: Vec<u8>,
}

/// One association of a file id with the file's encrypted metadata.
pub struct FileMetadataEntry {
    pub file_id: Vec<u8>,
    pub encrypted_file_metadata: Vec<u8>,
}

/// The folder metadata document.
pub struct Metadata {
    /// The folder key, encrypted once per member, indexed by identity.
    pub folder_keys_by_user: Vec<FolderKeyEntry>,
    /// The encrypted metadata of each file, indexed by file id.
    pub file_metadatas: Vec<FileMetadataEntry>,
}

/// The pair views of the folder-key list.
pub open spec fn folder_key_views(s: Seq<FolderKeyEntry>) -> Seq<(Seq<u8>, Seq<u8>)> {
    Seq::new(s.len(), |i: int| (s[i].user_identity@, s[i].encrypted_folder_key@))
}

/// The pair views of the file-metadata list.
pub open spec fn file_entry_views(s: Seq<FileMetadataEntry>) -> Seq<(Seq<u8>, Seq<u8>)> {
    Seq::new(s.len(), |i: int| (s[i].file_id@, s[i].encrypted_file_metadata@))
}

/// A byte string under its little-endian length prefix.
pub open spec fn enc_bytes(b: Seq<u8>) -> Seq<u8>
    recommends
        b.len() <= u64::MAX,
{
    spec_u64_to_le_bytes(b.len() as u64) + b
}

/// An association pair: key, then value.
pub open spec fn enc_pair(p: (Seq<u8>, Seq<u8>)) -> Seq<u8> {
    enc_bytes(p.0) + enc_bytes(p.1)
}

/// An association list, first entry first.
pub open spec fn enc_entries(s: Seq<(Seq<u8>, Seq<u8>)>) -> Seq<u8>
    decreases s.len(),
{
    if s.len() == 0 {
        Seq::empty()
    } else {
        enc_pair(s[0]) + enc_entries(s.drop_first())
    }
}

/// Whether every component of the document fits its length prefix.
pub open spec fn entries_fit(s: Seq<(Seq<u8>, Seq<u8>)>) -> bool {
    forall|i: int|
        0 <= i < s.len() ==> (#[trigger] s[i]).0.len() <= u64::MAX && s[i].1.len() <= u64::MAX
}

/// The whole document: both lists, each under its length prefix.
pub open spec fn enc_metadata(fk: Seq<(Seq<u8>, Seq<u8>)>, fm: Seq<(Seq<u8>, Seq<u8>)>) -> Seq<
    u8,
>
    recommends
        fk.len() <= u64::MAX,
        fm.len() <= u64::MAX,
{
    spec_u64_to_le_bytes(fk.len() as u64) + enc_entries(fk) + spec_u64_to_le_bytes(fm.len() as u64)
        + enc_entries(fm)
}

/// Reads a length prefix; what follows is returned as the rest.
pub open spec fn dec_len(b: Seq<u8>) -> Option<(u64, Seq<u8>)> {
    if b.len() < 8 {
        None
    } else {
        Some((spec_u64_from_le_bytes(b.take(8)), b.skip(8)))
    }
}

/// Reads one length-prefixed byte string.
pub open spec fn dec_bytes(b: Seq<u8>) -> Option<(Seq<u8>, Seq<u8>)> {
    match dec_len(b) {
        None => None,
        Some((n, rest)) => if rest.len() < n {
            None
        } else {
            Some((rest.take(n as int), rest.skip(n as int)))
        },
    }
}

/// Reads one association pair.
pub open spec fn dec_pair(b: Seq<u8>) -> Option<((Seq<u8>, Seq<u8>), Seq<u8>)> {
    match dec_bytes(b) {
        None => None,
        Some((k, rest)) => match dec_bytes(rest) {
            None => None,
            Some((v, rest2)) => Some(((k, v), rest2)),
        },
    }
}

/// Reads `count` association pairs.
pub open spec fn dec_entries(b: Seq<u8>, count: nat) -> Option<(Seq<(Seq<u8>, Seq<u8>)>, Seq<u8>)>
    decreases count,
{
    if count == 0 {
        Some((Seq::empty(), b))
    } else {
        match dec_pair(b) {
            None => None,
            Some((p, rest)) => match dec_entries(rest, (count - 1) as nat) {
                None => None,
                Some((tail, fin)) => Some((seq![p] + tail, fin)),
            },
        }
    }
}

/// Reads a whole document; trailing bytes make the document invalid.
pub open spec fn dec_metadata(b: Seq<u8>) -> Option<
    (Seq<(Seq<u8>, Seq<u8>)>, Seq<(Seq<u8>, Seq<u8>)>),
> {
    match dec_len(b) {
        None => None,
        Some((c1, b1)) => match dec_entries(b1, c1 as nat) {
            None => None,
            Some((fk, b2)) => match dec_len(b2) {
                None => None,
                Some((c2, b3)) => match dec_entries(b3, c2 as nat) {
                    None => None,
                    Some((fm, b4)) => if b4.len() == 0 {
                        Some((fk, fm))
                    } else {
                        None
                    },
                },
            },
        },
    }
}

/// Reading a length prefix undoes writing one.
proof fn lemma_dec_len_enc(n: u64, rest: Seq<u8>)
    ensures
        dec_len(spec_u64_to_le_bytes(n) + rest) == Some((n, rest)),
{
    lemma_auto_spec_u64_to_from_le_bytes();
    let b = spec_u64_to_le_bytes(n) + rest;
    assert(b.take(8) =~= spec_u64_to_le_bytes(n));
    assert(b.skip(8) =~= rest);
}

/// Reading a byte string undoes writing one.
proof fn lemma_dec_bytes_enc(v: Seq<u8>, rest: Seq<u8>)
    requires
        v.len() <= u64::MAX,
    ensures
        dec_bytes(enc_bytes(v) + rest) == Some((v, rest)),
{
    lemma_dec_len_enc(v.len() as u64, v + rest);
    assert(enc_bytes(v) + rest =~= spec_u64_to_le_bytes(v.len() as u64) + (v + rest));
    assert((v + rest).take(v.len() as int) =~= v);
    assert((v + rest).skip(v.len() as int) =~= rest);
}

/// Reading a pair undoes writing one.
proof fn lemma_dec_pair_enc(p: (Seq<u8>, Seq<u8>), rest: Seq<u8>)
    requires
        p.0.len() <= u64::MAX,
        p.1.len() <= u64::MAX,
    ensures
        dec_pair(enc_pair(p) + rest) == Some((p, rest)),
{
    assert(enc_pair(p) + rest =~= enc_bytes(p.0) + (enc_bytes(p.1) + rest));
    lemma_dec_bytes_enc(p.0, enc_bytes(p.1) + rest);
    lemma_dec_bytes_enc(p.1, rest);
}

/// Reading a list undoes writing one.
proof fn lemma_dec_entries_enc(s: Seq<(Seq<u8>, Seq<u8>)>, rest: Seq<u8>)
    requires
        entries_fit(s),
    ensures
        dec_entries(enc_entries(s) + rest, s.len()) == Some((s, rest)),
    decreases s.len(),
{
    if s.len() == 0 {
        assert(enc_entries(s) + rest =~= rest);
    } else {
        assert(enc_entries(s) + rest =~= enc_pair(s[0]) + (enc_entries(s.drop_first()) + rest));
        lemma_dec_pair_enc(s[0], enc_entries(s.drop_first()) + rest);
        assert(entries_fit(s.drop_first())) by {
            assert(forall|i: int|
                0 <= i < s.drop_first().len() ==> #[trigger] s.drop_first()[i] == s[i + 1]);
        }
        lemma_dec_entries_enc(s.drop_first(), rest);
        assert(seq![s[0]] + s.drop_first() =~= s);
    }
}

/// The codec law: decoding an encoded document gives the document back.
pub proof fn lemma_metadata_round_trip(fk: Seq<(Seq<u8>, Seq<u8>)>, fm: Seq<(Seq<u8>, Seq<u8>)>)
    requires
        fk.len() <= u64::MAX,
        fm.len() <= u64::MAX,
        entries_fit(fk),
        entries_fit(fm),
    ensures
        dec_metadata(enc_metadata(fk, fm)) == Some((fk, fm)),
{
    let tail = enc_entries(fk) + spec_u64_to_le_bytes(fm.len() as u64) + enc_entries(fm);
    assert(enc_metadata(fk, fm) =~= spec_u64_to_le_bytes(fk.len() as u64) + tail);
    lemma_dec_len_enc(fk.len() as u64, tail);
    assert(tail =~= enc_entries(fk) + (spec_u64_to_le_bytes(fm.len() as u64) + enc_entries(fm)));
    lemma_dec_entries_enc(fk, spec_u64_to_le_bytes(fm.len() as u64) + enc_entries(fm));
    lemma_dec_len_enc(fm.len() as u64, enc_entries(fm));
    assert(enc_entries(fm) =~= enc_entries(fm) + Seq::<u8>::empty());
    lemma_dec_entries_enc(fm, Seq::<u8>::empty());
}

/// Appends a length-prefixed byte string.
fn push_prefixed(out: &mut Vec<u8>, v: &Vec<u8>)
    ensures
        final(out)@ == old(out)@ + enc_bytes(v@),
{
    let ghost pre = out@;
    let mut prefix = u64_to_le_bytes(v.len() as u64);
    out.append(&mut prefix);
    let mut body = copy_bytes(v);
    out.append(&mut body);
    proof {
        assert(out@ =~= pre + enc_bytes(v@));
    }
}

/// Serializes the document: both lists, each item length-prefixed.
pub fn serialize(metadata: Metadata) -> (r: Result<Vec<u8>, String>)
    ensures
        r is Ok,
        r matches Ok(bytes) ==> bytes@ == enc_metadata(
            folder_key_views(metadata.folder_keys_by_user@),
            file_entry_views(metadata.file_metadatas@),
        ),
{
    let ghost fk = folder_key_views(metadata.folder_keys_by_user@);
    let ghost fm = file_entry_views(metadata.file_metadatas@);
    let mut out: Vec<u8> = u64_to_le_bytes(metadata.folder_keys_by_user.len() as u64);
    let mut i: usize = 0;
    while i < metadata.folder_keys_by_user.len()
        invariant
            i <= fk.len(),
            fk == folder_key_views(metadata.folder_keys_by_user@),
            out@ == spec_u64_to_le_bytes(fk.len() as u64) + enc_entries(fk.take(i as int)),
        decreases fk.len() - i,
    {
        let ghost pre = out@;
        push_prefixed(&mut out, &metadata.folder_keys_by_user[i].user_identity);
        push_prefixed(&mut out, &metadata.folder_keys_by_user[i].encrypted_folder_key);
        proof {
            lemma_enc_entries_snoc(fk, i as int);
            assert(out@ =~= spec_u64_to_le_bytes(fk.len() as u64) + enc_entries(fk.take(i + 1)));
        }
        i = i + 1;
    }
    proof {
        assert(fk.take(fk.len() as int) =~= fk);
    }
    let mut prefix2 = u64_to_le_bytes(metadata.file_metadatas.len() as u64);
    out.append(&mut prefix2);
    let ghost mid = out@;
    let mut j: usize = 0;
    while j < metadata.file_metadatas.len()
        invariant
            j <= fm.len(),
            fm == file_entry_views(metadata.file_metadatas@),
            out@ == mid + enc_entries(fm.take(j as int)),
            mid == spec_u64_to_le_bytes(fk.len() as u64) + enc_entries(fk) + spec_u64_to_le_bytes(
                fm.len() as u64,
            ),
        decreases fm.len() - j,
    {
        let ghost pre = out@;
        push_prefixed(&mut out, &metadata.file_metadatas[j].file_id);
        push_prefixed(&mut out, &metadata.file_metadatas[j].encrypted_file_metadata);
        proof {
            lemma_enc_entries_snoc(fm, j as int);
            assert(out@ =~= mid + enc_entries(fm.take(j + 1)));
        }
        j = j + 1;
    }
    proof {
        assert(fm.take(fm.len() as int) =~= fm);
        assert(out@ =~= enc_metadata(fk, fm));
    }
    Ok(out)
}

/// Extending a list by one entry appends that entry's encoding.
proof fn lemma_enc_entries_snoc(s: Seq<(Seq<u8>, Seq<u8>)>, i: int)
    requires
        0 <= i < s.len(),
    ensures
        enc_entries(s.take(i + 1)) == enc_entries(s.take(i)) + enc_pair(s[i]),
{
    lemma_enc_entries_add(s.take(i), seq![s[i]]);
    assert(s.take(i + 1) =~= s.take(i) + seq![s[i]]);
    assert(enc_entries(seq![s[i]]) =~= enc_pair(s[i])) by {
        assert(seq![s[i]].drop_first() =~= Seq::<(Seq<u8>, Seq<u8>)>::empty());
        assert(enc_entries(Seq::<(Seq<u8>, Seq<u8>)>::empty()) =~= Seq::<u8>::empty());
        assert(seq![s[i]][0] == s[i]);
        assert(enc_pair(s[i]) + Seq::<u8>::empty() =~= enc_pair(s[i]));
    }
}

/// The encoding of a concatenation is the concatenation of the encodings.
proof fn lemma_enc_entries_add(a: Seq<(Seq<u8>, Seq<u8>)>, b: Seq<(Seq<u8>, Seq<u8>)>)
    ensures
        enc_entries(a + b) == enc_entries(a) + enc_entries(b),
    decreases a.len(),
{
    if a.len() == 0 {
        assert(a + b =~= b);
        assert(enc_entries(a) + enc_entries(b) =~= enc_entries(b));
    } else {
        assert((a + b)[0] == a[0]);
        assert((a + b).drop_first() =~= a.drop_first() + b);
        lemma_enc_entries_add(a.drop_first(), b);
        assert(enc_pair(a[0]) + (enc_entries(a.drop_first()) + enc_entries(b)) =~= (enc_pair(a[0])
            + enc_entries(a.drop_first())) + enc_entries(b));
    }
}

/// Reads eight bytes at `idx` as a little-endian `u64`.
fn read_u64(bytes: &[u8], idx: usize) -> (r: Option<u64>)
    ensures
        match r {
            None => bytes@.len() - idx < 8,
            Some(n) => idx + 8 <= bytes@.len() && n == spec_u64_from_le_bytes(
                bytes@.skip(idx as int).take(8),
            ),
        },
{
    let blen = bytes.len();
    if blen < 8 || idx > blen - 8 {
        return None;
    }
    let mut buf: Vec<u8> = Vec::new();
    let mut k: usize = 0;
    while k < 8
        invariant
            k <= 8,
            blen == bytes@.len(),
            idx + 8 <= blen,
            buf@ == bytes@.skip(idx as int).take(k as int),
        decreases 8 - k,
    {
        buf.push(bytes[idx + k]);
        proof {
            assert(buf@ =~= bytes@.skip(idx as int).take(k + 1));
        }
        k = k + 1;
    }
    Some(u64_from_le_bytes(buf.as_slice()))
}

/// Copies `n` bytes starting at `idx`.
fn read_bytes(bytes: &[u8], idx: usize, n: usize) -> (r: Vec<u8>)
    requires
        idx + n <= bytes@.len(),
    ensures
        r@ == bytes@.skip(idx as int).take(n as int),
{
    let blen = bytes.len();
    let mut out: Vec<u8> = Vec::new();
    let mut k: usize = 0;
    while k < n
        invariant
            k <= n,
            blen == bytes@.len(),
            idx + n <= blen,
            out@ == bytes@.skip(idx as int).take(k as int),
        decreases n - k,
    {
        out.push(bytes[idx + k]);
        proof {
            assert(out@ =~= bytes@.skip(idx as int).take(k + 1));
        }
        k = k + 1;
    }
    out
}

/// Reads one length-prefixed byte string at `idx`, returning it and the
/// index just past it.
fn read_prefixed(bytes: &[u8], idx: usize) -> (r: Option<(Vec<u8>, usize)>)
    requires
        idx <= bytes@.len(),
    ensures
        match r {
            None => dec_bytes(bytes@.skip(idx as int)) is None,
            Some((v, idx2)) => idx2 <= bytes@.len() && dec_bytes(bytes@.skip(idx as int)) == Some(
                (v@, bytes@.skip(idx2 as int)),
            ),
        },
{
    let n = match read_u64(bytes, idx) {
        None => {
            return None;
        },
        Some(n) => n,
    };
    proof {
        assert(bytes@.skip(idx as int).skip(8) =~= bytes@.skip(idx + 8));
    }
    if n > (bytes.len() - (idx + 8)) as u64 {
        return None;
    }
    let n_us = n as usize;
    let v = read_bytes(bytes, idx + 8, n_us);
    proof {
        assert(bytes@.skip(idx + 8).take(n as int) =~= bytes@.skip(idx as int).skip(8).take(
            n as int,
        ));
        assert(bytes@.skip(idx + 8).skip(n as int) =~= bytes@.skip(idx + 8 + n_us));
        assert(bytes@.skip(idx as int).skip(8).skip(n as int) =~= bytes@.skip(idx + 8).skip(
            n as int,
        ));
    }
    Some((v, idx + 8 + n_us))
}

/// Deserializes a document; any malformed or trailing bytes are rejected.
pub fn deserialize(metadata: &[u8]) -> (r: Result<Metadata, String>)
    ensures
        r is Ok <==> dec_metadata(metadata@) is Some,
        r matches Ok(m) ==> dec_metadata(metadata@) == Some(
            (folder_key_views(m.folder_keys_by_user@), file_entry_views(m.file_metadatas@)),
        ),
{
    let blen = metadata.len();
    proof {
        assert(metadata@.len() <= usize::MAX);
    }
    let c1 = match read_u64(metadata, 0) {
        None => {
            proof {
                assert(metadata@.skip(0) =~= metadata@);
            }
            return Err(String::from_str("truncated metadata document"));
        },
        Some(n) => n,
    };
    proof {
        assert(metadata@.skip(0) =~= metadata@);
        assert(metadata@.take(8) =~= metadata@.skip(0).take(8));
    }
    let mut idx: usize = 8;
    let mut folder_keys: Vec<FolderKeyEntry> = Vec::new();
    let mut got1: u64 = 0;
    while got1 < c1
        invariant
            metadata@.len() <= usize::MAX,
            idx <= metadata@.len(),
            got1 <= c1,
            folder_keys@.len() == got1,
            dec_len(metadata@) == Some((c1, metadata@.skip(8))),
            ({
                let full = dec_entries(metadata@.skip(8), c1 as nat);
                match dec_entries(metadata@.skip(idx as int), (c1 - got1) as nat) {
                    None => full is None,
                    Some((tail, fin)) => full == Some(
                        (folder_key_views(folder_keys@) + tail, fin),
                    ),
                }
            }),
        decreases c1 - got1,
    {
        let ghost rest0 = metadata@.skip(idx as int);
        let (k, idx2) = match read_prefixed(metadata, idx) {
            None => {
                return Err(String::from_str("truncated metadata document"));
            },
            Some(p) => p,
        };
        let (v, idx3) = match read_prefixed(metadata, idx2) {
            None => {
                return Err(String::from_str("truncated metadata document"));
            },
            Some(p) => p,
        };
        let ghost prev = folder_key_views(folder_keys@);
        folder_keys.push(FolderKeyEntry { user_identity: k, encrypted_folder_key: v });
        proof {
            assert(folder_key_views(folder_keys@) =~= prev.push(
                (folder_keys@.last().user_identity@, folder_keys@.last().encrypted_folder_key@),
            ));
            let p = (dec_pair(rest0)->0).0;
            let tail_entries = dec_entries(metadata@.skip(idx3 as int), (c1 - got1 - 1) as nat);
            match tail_entries {
                None => {},
                Some((tail, fin)) => {
                    assert(prev.push(p) + tail =~= prev + (seq![p] + tail));
                },
            }
        }
        idx = idx3;
        got1 = got1 + 1;
    }
    proof {
        assert(folder_key_views(folder_keys@) + Seq::<(Seq<u8>, Seq<u8>)>::empty()
            =~= folder_key_views(folder_keys@));
    }
    let c2 = match read_u64(metadata, idx) {
        None => {
            return Err(String::from_str("truncated metadata document"));
        },
        Some(n) => n,
    };
    proof {
        assert(metadata@.skip(idx as int).skip(8) =~= metadata@.skip(idx + 8));
        assert(metadata@.skip(idx as int).take(8) =~= metadata@.skip(idx as int).take(8));
    }
    let mut idy: usize = idx + 8;
    let mut files: Vec<FileMetadataEntry> = Vec::new();
    let mut got2: u64 = 0;
    while got2 < c2
        invariant
            metadata@.len() <= usize::MAX,
            idy <= metadata@.len(),
            got2 <= c2,
            files@.len() == got2,
            dec_len(metadata@) == Some((c1, metadata@.skip(8))),
            dec_entries(metadata@.skip(8), c1 as nat) matches Some(fk1) && fk1.0
                == folder_key_views(folder_keys@) && dec_len(fk1.1) == Some(
                (c2, metadata@.skip(idx + 8)),
            ),
            ({
                let full = dec_entries(metadata@.skip(idx + 8), c2 as nat);
                match dec_entries(metadata@.skip(idy as int), (c2 - got2) as nat) {
                    None => full is None,
                    Some((tail, fin)) => full == Some((file_entry_views(files@) + tail, fin)),
                }
            }),
        decreases c2 - got2,
    {
        let ghost rest0 = metadata@.skip(idy as int);
        let (k, idy2) = match read_prefixed(metadata, idy) {
            None => {
                return Err(String::from_str("truncated metadata document"));
            },
            Some(p) => p,
        };
        let (v, idy3) = match read_prefixed(metadata, idy2) {
            None => {
                return Err(String::from_str("truncated metadata document"));
            },
            Some(p) => p,
        };
        let ghost prev = file_entry_views(files@);
        files.push(FileMetadataEntry { file_id: k, encrypted_file_metadata: v });
        proof {
            assert(file_entry_views(files@) =~= prev.push(
                (files@.last().file_id@, files@.last().encrypted_file_metadata@),
            ));
            let p = (dec_pair(rest0)->0).0;
            let tail_entries = dec_entries(metadata@.skip(idy3 as int), (c2 - got2 - 1) as nat);
            match tail_entries {
                None => {},
                Some((tail, fin)) => {
                    assert(prev.push(p) + tail =~= prev + (seq![p] + tail));
                },
            }
        }
        idy = idy3;
        got2 = got2 + 1;
    }
    proof {
        assert(file_entry_views(files@) + Seq::<(Seq<u8>, Seq<u8>)>::empty() =~= file_entry_views(
            files@,
        ));
    }
    if idy < metadata.len() {
        return Err(String::from_str("trailing bytes after metadata document"));
    }
    proof {
        assert(metadata@.skip(idy as int).len() == 0);
    }
    Ok(Metadata { folder_keys_by_user: folder_keys, file_metadatas: files })
}

} // verus!
