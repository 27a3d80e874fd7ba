//! What is read out of a bucket: objects, pages of listings, uploads and their parts.

use crate::clock::Timestamp;
use crate::digest::md5_digest;
use crate::numbers::{decimal_text, hex_text};
use crate::protocol::types::{CommonPrefixes, ObjectInfo, Part, PartInfo, S3Object, StorageClass};
use crate::s3::listing::{
    delimiter_cuts, groups_view, keys_can_be_cut, list_keys, listing, listing_shows_selected,
    next_token, page, selected, ListEntry,
};
use crate::s3::model::{
    joined_etag, joined_parts, new_bucket, numbers_after, object_line, object_lines, object_page,
    part_line, part_page, parts_size, prefix_lines, size_sum, PartState,
    S3Error,
};
use crate::s3::parts::{lemma_sorted_numbers_is, sorted_keys};
use crate::s3::storage::{
    new_objects, new_uploads, objects_of, part_names, uploads_of, Bucket, MultipartUpload,
    ObjectList, PartData, PartsList,
};
use crate::table::{table_keys, table_read};
use crate::text::{text_eq, texts};
use dashmap::DashMap;
use std::collections::BTreeMap;
use vstd::prelude::*;
use vstd::string::*;

verus! {

/// The sizes of the parts of an upload together, up to what 64 bits hold.
pub(crate) fn size_of_upload(b: &Bucket, key: &str, id: &str) -> (r: Result<u64, S3Error>)
    ensures
        match r {
            Ok(n) => upload_in(*b, key@, id@) && n == size_counted(b@.uploads[id@].parts),
            Err(e) => e == S3Error::NoSuchUpload && !upload_in(*b, key@, id@),
        },
{
    read_upload(
        b,
        key,
        id,
        |u: &MultipartUpload| -> (n: u64)
            ensures
                n == size_counted(u@.parts),
            { sum_sizes(&u.parts) }
    )
}

/// A copy of the object for a key.
pub(crate) fn copy_from(objects: &DashMap<String, S3Object>, key: &str) -> (r: Option<S3Object>)
    ensures
        match r {
            Some(object) => objects_of(*objects).contains_key(key@) && object@ == objects_of(
                *objects,
            )[key@]@,
            None => !objects_of(*objects).contains_key(key@),
        },
{
    table_read(
        objects,
        key,
        |o: &S3Object| -> (c: S3Object)
            ensures
                c@ == o@,
            { o.clone() }
    )
}

/// A bucket that holds nothing.
pub(crate) fn fresh_bucket(name: &str, now: Timestamp) -> (b: Bucket)
    ensures
        b@ == new_bucket(name@, now),
{
    let b = Bucket {
        name: name.to_string(),
        creation_date: now,
        objects: new_objects(),
        multipart_uploads: new_uploads(),
    };
    assert(b@.objects =~= Map::empty());
    assert(b@.uploads =~= Map::empty());
    b
}

/// A page of the listing of a bucket.
pub(crate) fn list_bucket(
    b: &Bucket,
    prefix: &str,
    delimiter: &str,
    skip: &str,
    max_keys: u32,
) -> (r: ObjectList)
    requires
        delimiter_cuts(selected(b@.objects.dom(), prefix@, skip@), prefix@, delimiter@),
    ensures
        r@ == object_page(
            listing(b@.objects.dom(), prefix@, delimiter@, skip@),
            max_keys,
            b@.objects,
        ),
{
    let keys = table_keys(&b.objects);
    assert(b@.objects.dom() =~= objects_of(b.objects).dom());
    let ghost all = b@.objects.dom();
    proof {
        vstd::seq_lib::seq_to_set_is_finite(texts(keys@));
    }
    let groups = list_keys(keys, prefix, delimiter, skip);
    let ghost lines = listing(all, prefix@, delimiter@, skip@);
    assert(groups_view(groups@) == lines);
    let limit: usize = if max_keys == 0 {
        1
    } else {
        max_keys as usize
    };
    let is_truncated = groups.len() > limit;
    let shown: usize = if is_truncated {
        limit
    } else {
        groups.len()
    };
    let next_continuation_token = if is_truncated {
        assert(lines[limit - 1] == groups@[limit - 1]@);
        groups[limit - 1].last.clone()
    } else {
        String::new()
    };
    assert(next_continuation_token@ =~= next_token(lines, limit as nat));
    assert(lines.take(shown as int) =~= page(lines, limit as nat));
    let mut contents: Vec<ObjectInfo> = Vec::new();
    let mut common_prefixes: Vec<CommonPrefixes> = Vec::new();
    let mut i: usize = 0;
    assert(contents@.map_values(|o: ObjectInfo| o@) =~= object_lines(lines.take(0), b@.objects));
    assert(common_prefixes@.map_values(|p: CommonPrefixes| p@) =~= prefix_lines(lines.take(0)));
    while i < shown
        invariant
            i <= shown <= groups.len(),
            lines == listing(all, prefix@, delimiter@, skip@),
            all == b@.objects.dom(),
            all.finite(),
            groups_view(groups@) == lines,
            contents.len() + common_prefixes.len() == i,
            contents@.map_values(|o: ObjectInfo| o@) == object_lines(
                lines.take(i as int),
                b@.objects,
            ),
            common_prefixes@.map_values(|p: CommonPrefixes| p@) == prefix_lines(
                lines.take(i as int),
            ),
        decreases shown - i,
    {
        let ghost before = contents@.map_values(|o: ObjectInfo| o@);
        let ghost prefixes = common_prefixes@.map_values(|p: CommonPrefixes| p@);
        assert(lines.take(i as int + 1).drop_last() =~= lines.take(i as int));
        assert(lines.take(i as int + 1).last() == groups@[i as int]@);
        assert(lines[i as int] == groups@[i as int]@);
        match &groups[i].entry {
            ListEntry::Prefix(prefix) => {
                let line = CommonPrefixes { prefix: prefix.clone() };
                common_prefixes.push(line);
                assert(common_prefixes@.map_values(|p: CommonPrefixes| p@) =~= prefixes.push(
                    prefix@,
                ));
            },
            ListEntry::Object(key) => {
                proof {
                    listing_shows_selected(all, prefix@, delimiter@, skip@, i as int);
                }
                let line = table_read(
                    &b.objects,
                    key.as_str(),
                    |o: &S3Object| -> (line: ObjectInfo)
                        ensures
                            line@ == object_line(key@, o@),
                        { object_info(key, o) }
                );
                assert(b@.objects.contains_key(key@));
                if let Some(line) = line {
                    contents.push(line);
                    assert(contents@.map_values(|o: ObjectInfo| o@) =~= before.push(line@));
                }
            },
        }
        i += 1;
    }
    let key_count: u32 = (contents.len() + common_prefixes.len()) as u32;
    ObjectList { is_truncated, next_continuation_token, contents, common_prefixes, key_count }
}

/// The line for an object.
fn object_info(key: &String, o: &S3Object) -> (line: ObjectInfo)
    ensures
        line@ == object_line(key@, o@),
{
    ObjectInfo {
        key: key.clone(),
        last_modified: o.last_modified,
        etag: o.etag.clone(),
        size: o.content_length() as u64,
        storage_class: StorageClass::STANDARD,
        owner: None,
    }
}

/// Reads an upload of a bucket, given its key and identifier.
fn read_upload<R, F: FnOnce(&MultipartUpload) -> R>(
    b: &Bucket,
    key: &str,
    id: &str,
    read: F,
) -> (r: Result<R, S3Error>)
    requires
        forall|u: &MultipartUpload| call_requires(read, (u,)),
    ensures
        match r {
            Ok(out) => upload_in(*b, key@, id@) && call_ensures(
                read,
                (&uploads_of(b.multipart_uploads)[id@],),
                out,
            ),
            Err(e) => e == S3Error::NoSuchUpload && !upload_in(*b, key@, id@),
        },
{
    let found = table_read(
        &b.multipart_uploads,
        id,
        |u: &MultipartUpload| -> (r: Option<R>)
            ensures
                match r {
                    Some(out) => u@.key == key@ && call_ensures(read, (u,), out),
                    None => u@.key != key@,
                },
            {
                if text_eq(u.key.as_str(), key) {
                    Some(read(u))
                } else {
                    None
                }
            }
    );
    match found {
        Some(Some(out)) => Ok(out),
        _ => Err(S3Error::NoSuchUpload),
    }
}

/// Whether the bucket has the upload, and it is for the key.
pub open spec fn upload_in(b: Bucket, key: Seq<char>, id: Seq<char>) -> bool {
    b@.uploads.contains_key(id) && b@.uploads[id].key == key
}

/// The number of parts of an upload.
pub(crate) fn count_parts(b: &Bucket, key: &str, id: &str) -> (r: Result<usize, S3Error>)
    ensures
        match r {
            Ok(n) => upload_in(*b, key@, id@) && n == b@.uploads[id@].parts.dom().len(),
            Err(e) => e == S3Error::NoSuchUpload && !upload_in(*b, key@, id@),
        },
{
    read_upload(
        b,
        key,
        id,
        |u: &MultipartUpload| -> (n: usize)
            ensures
                n == u@.parts.dom().len(),
            {
                assert(u@.parts.dom() =~= u.parts@.dom());
                u.parts.len()
            }
    )
}

/// The bytes of the parts named, in order.
fn join_parts(stored: &BTreeMap<u32, PartData>, names: &[Part]) -> (r: Result<Vec<u8>, S3Error>)
    ensures
        match r {
            Ok(data) => joined_parts(
                part_names(names@),
                stored@.map_values(|p: PartData| p@),
                0,
            ) == Ok::<Seq<u8>, S3Error>(data@),
            Err(e) => joined_parts(part_names(names@), stored@.map_values(|p: PartData| p@), 0)
                == Err::<Seq<u8>, S3Error>(e),
        },
{
    let ghost parts = stored@.map_values(|p: PartData| p@);
    let ghost all = part_names(names@);
    let mut data: Vec<u8> = Vec::new();
    let mut above: u32 = 0;
    let mut i: usize = 0;
    assert(all.skip(0) =~= all);
    proof {
        match joined_parts(all, parts, 0) {
            Ok(rest) => {
                assert(data@ + rest =~= rest);
            },
            Err(_) => {},
        }
    }
    while i < names.len()
        invariant
            i <= names.len(),
            all == part_names(names@),
            parts == stored@.map_values(|p: PartData| p@),
            joined_parts(all, parts, 0) == (match joined_parts(all.skip(i as int), parts, above) {
                Ok(rest) => Ok(data@ + rest),
                Err(e) => Err(e),
            }),
        decreases names.len() - i,
    {
        let name = &names[i];
        assert(all.skip(i as int)[0] == name@);
        assert(all.skip(i as int).drop_first() =~= all.skip(i as int + 1));
        if name.part_number <= above {
            return Err(S3Error::InvalidPartOrder);
        }
        let part = match stored.get(&name.part_number) {
            Some(part) => part,
            None => {
                return Err(S3Error::InvalidPart);
            },
        };
        assert(parts[name.part_number] == part@);
        if !text_eq(part.etag.as_str(), name.etag.as_str()) {
            return Err(S3Error::InvalidPart);
        }
        let ghost before = data@;
        let bytes: &[u8] = &part.data;
        data.extend_from_slice(bytes);
        assert(data@ =~= before + part@.data);
        above = name.part_number;
        i += 1;
        proof {
            match joined_parts(all.skip(i as int), parts, above) {
                Ok(rest) => {
                    assert(before + (part@.data + rest) =~= data@ + rest);
                },
                Err(_) => {},
            }
        }
    }
    assert(all.skip(i as int).len() == 0);
    assert(data@ + Seq::<u8>::empty() =~= data@);
    Ok(data)
}

/// The bytes of the parts named, out of an upload of a bucket.
pub(crate) fn join_from(b: &Bucket, key: &str, id: &str, names: &[Part]) -> (r: Result<
    Vec<u8>,
    S3Error,
>)
    ensures
        match r {
            Ok(data) => upload_in(*b, key@, id@) && joined_parts(
                part_names(names@),
                b@.uploads[id@].parts,
                0,
            ) == Ok::<Seq<u8>, S3Error>(data@),
            Err(e) => if upload_in(*b, key@, id@) {
                joined_parts(part_names(names@), b@.uploads[id@].parts, 0) == Err::<
                    Seq<u8>,
                    S3Error,
                >(e)
            } else {
                e == S3Error::NoSuchUpload
            },
        },
{
    let joined = read_upload(
        b,
        key,
        id,
        |u: &MultipartUpload| -> (r: Result<Vec<u8>, S3Error>)
            ensures
                match r {
                    Ok(data) => joined_parts(part_names(names@), u@.parts, 0) == Ok::<
                        Seq<u8>,
                        S3Error,
                    >(data@),
                    Err(e) => joined_parts(part_names(names@), u@.parts, 0) == Err::<
                        Seq<u8>,
                        S3Error,
                    >(e),
                },
            { join_parts(&u.parts, names) }
    );
    match joined {
        Ok(r) => r,
        Err(e) => Err(e),
    }
}

/// The entity tag of an object made of parts.
pub(crate) fn joined_etag_text(data: &[u8], count: usize) -> (s: String)
    ensures
        s@ == joined_etag(data@, count as nat),
{
    let sum = md5_digest(data);
    let mut s = String::new();
    s.push('"');
    s.append(hex_text(sum.as_slice()).as_str());
    s.push('-');
    s.append(decimal_text(count as u64).as_str());
    s.push('"');
    assert(s@ =~= joined_etag(data@, count as nat));
    s
}

/// A number, or the largest of 64 bits where it is more.
pub open spec fn at_most_u64(n: int) -> int {
    if n <= u64::MAX {
        n
    } else {
        u64::MAX as int
    }
}

/// The sizes of all parts together, up to what 64 bits hold.
pub open spec fn size_counted(parts: Map<u32, PartState>) -> int {
    at_most_u64(parts_size(parts))
}

/// The sizes of all parts together, up to what 64 bits hold.
fn sum_sizes(parts: &BTreeMap<u32, PartData>) -> (n: u64)
    ensures
        n == size_counted(parts@.map_values(|p: PartData| p@)),
{
    let ghost states = parts@.map_values(|p: PartData| p@);
    let numbers = sorted_keys(parts);
    assert(states.dom() =~= parts@.dom());
    let mut n: u64 = 0;
    let mut i: usize = 0;
    assert(numbers@.take(0) =~= Seq::empty());
    while i < numbers.len()
        invariant
            i <= numbers.len(),
            states == parts@.map_values(|p: PartData| p@),
            states.dom() == parts@.dom(),
            forall|j: int|
                0 <= j < numbers.len() ==> parts@.dom().contains(#[trigger] numbers@[j]),
            n == at_most_u64(size_sum(numbers@.take(i as int), states)),
            size_sum(numbers@.take(i as int), states) >= 0,
        decreases numbers.len() - i,
    {
        let number: u32 = numbers[i];
        assert(parts@.dom().contains(numbers@[i as int]));
        assert(numbers@.take(i as int + 1).drop_last() =~= numbers@.take(i as int));
        if let Some(part) = parts.get(&number) {
            assert(states[number] == part@);
            n = n.saturating_add(part.size);
        }
        i += 1;
    }
    assert(numbers@.take(numbers@.len() as int) =~= numbers@);
    n
}

/// A page of the list of parts.
fn list_numbers(parts: &BTreeMap<u32, PartData>, max_parts: u32, marker: u32) -> (r: PartsList)
    ensures
        r@ == part_page(
            numbers_after(parts@.map_values(|p: PartData| p@), marker),
            parts@.map_values(|p: PartData| p@),
            max_parts,
        ),
{
    let ghost states = parts@.map_values(|p: PartData| p@);
    assert(states.dom() =~= parts@.dom());
    let numbers = sorted_keys(parts);
    let mut from: usize = 0;
    while from < numbers.len() && numbers[from] <= marker
        invariant
            from <= numbers.len(),
            forall|j: int| 0 <= j < from ==> numbers@[j] <= marker,
        decreases numbers.len() - from,
    {
        from += 1;
    }
    let ghost after = numbers@.skip(from as int);
    proof {
        let set = parts@.dom().filter(|n: u32| n > marker);
        assert(states.dom().filter(|n: u32| n > marker) =~= set);
        assert forall|i: int| 0 <= i < after.len() implies set.contains(#[trigger] after[i]) by {
            assert(parts@.dom().contains(numbers@[from + i]));
            if i > 0 {
                assert(numbers@[from as int] < numbers@[from + i]);
            }
        }
        assert forall|n: u32| #[trigger] set.contains(n) implies after.contains(n) by {
            assert(parts@.dom().contains(n));
            assert(numbers@.contains(n));
            let i = choose|i: int| 0 <= i < numbers@.len() && numbers@[i] == n;
            assert(after[i - from] == n);
        }
        lemma_sorted_numbers_is(after, set);
    }
    let total: usize = numbers.len() - from;
    let take: usize = if max_parts as usize <= total {
        max_parts as usize
    } else {
        total
    };
    let is_truncated = take < total;
    let ghost shown = after.take(take as int);
    let mut infos: Vec<PartInfo> = Vec::new();
    let mut i: usize = 0;
    assert(infos@.map_values(|p: PartInfo| p@) =~= shown.take(0).map_values(
        |n: u32| part_line(n, states[n]),
    ));
    while i < take
        invariant
            i <= take,
            from + take <= numbers.len(),
            states == parts@.map_values(|p: PartData| p@),
            after == numbers@.skip(from as int),
            shown == after.take(take as int),
            forall|j: int|
                0 <= j < numbers.len() ==> parts@.dom().contains(#[trigger] numbers@[j]),
            infos@.map_values(|p: PartInfo| p@) == shown.take(i as int).map_values(
                |n: u32| part_line(n, states[n]),
            ),
        decreases take - i,
    {
        let number: u32 = numbers[from + i];
        assert(shown[i as int] == number);
        assert(parts@.dom().contains(numbers@[from + i]));
        let ghost before = infos@.map_values(|p: PartInfo| p@);
        if let Some(p) = parts.get(&number) {
            assert(states[number] == p@);
            let info = PartInfo {
                part_number: number,
                last_modified: p.last_modified,
                etag: p.etag.clone(),
                size: p.size,
            };
            infos.push(info);
            assert(infos@.map_values(|p: PartInfo| p@) =~= before.push(info@));
        }
        i += 1;
        assert(infos@.map_values(|p: PartInfo| p@) =~= shown.take(i as int).map_values(
            |n: u32| part_line(n, states[n]),
        ));
    }
    assert(shown.take(take as int) =~= shown);
    assert(is_truncated == (max_parts < after.len()));
    assert(!is_truncated ==> shown =~= after);
    let next_part_number_marker = if is_truncated && take > 0 {
        decimal_text(numbers[from + take - 1] as u64)
    } else {
        String::new()
    };
    let r = PartsList { parts: infos, is_truncated, next_part_number_marker };
    assert(r@.parts =~= part_page(after, states, max_parts).parts);
    assert(r@.next_part_number_marker =~= part_page(
        after,
        states,
        max_parts,
    ).next_part_number_marker);
    r
}

/// A page of the list of parts of an upload of a bucket.
pub(crate) fn list_from(b: &Bucket, key: &str, id: &str, max_parts: u32, marker: u32) -> (r: Result<
    PartsList,
    S3Error,
>)
    ensures
        match r {
            Ok(list) => upload_in(*b, key@, id@) && list@ == part_page(
                numbers_after(b@.uploads[id@].parts, marker),
                b@.uploads[id@].parts,
                max_parts,
            ),
            Err(e) => e == S3Error::NoSuchUpload && !upload_in(*b, key@, id@),
        },
{
    read_upload(
        b,
        key,
        id,
        |u: &MultipartUpload| -> (list: PartsList)
            ensures
                list@ == part_page(
                    numbers_after(u@.parts, marker),
                    u@.parts,
                    max_parts,
                ),
            { list_numbers(&u.parts, max_parts, marker) }
    )
}

/// Whether the delimiter can cut the keys that a listing of the bucket selects.
pub(crate) fn bucket_listable(b: &Bucket, prefix: &str, delimiter: &str, skip: &str) -> (r: bool)
    ensures
        r == delimiter_cuts(
            selected(b@.objects.dom(), prefix@, skip@),
            prefix@,
            delimiter@,
        ),
{
    assert(b@.objects.dom() =~= objects_of(b.objects).dom());
    keys_can_be_cut(&table_keys(&b.objects), prefix, delimiter, skip)
}

} // verus!
