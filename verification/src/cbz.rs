//! The pages of a CBZ (ZIP-based comic book archive) held in memory.
use vstd::prelude::*;
use std::io::Cursor;
use zip::result::ZipError;
use zip::ZipArchive;
use crate::archive::is_image_name;
use crate::text::{decimal, owned, push_decimal, push_str, string_from_chars};

verus! {

/// A ZIP archive of the `zip` crate.
#[verifier::external_type_specification]
#[verifier::external_body]
#[verifier::reject_recursive_types(R)]
pub struct ExZipArchive<R>(ZipArchive<R>);

/// std's in-memory reader.
#[verifier::external_type_specification]
#[verifier::external_body]
#[verifier::reject_recursive_types(T)]
pub struct ExCursor<T>(Cursor<T>);

/// An error of the `zip` crate.
#[verifier::external_type_specification]
#[verifier::external_body]
pub struct ExZipError(ZipError);

/// What a ZIP member is, by index: its name (`None` where the member cannot be
/// opened or its name cannot be decoded), whether it is a directory, and its
/// decompressed bytes (`None` where they cannot be read).
pub type MemberView = (Option<Seq<char>>, bool, Option<Seq<u8>>);

/// The members of an opened ZIP archive, in the order of its central directory.
pub uninterp spec fn zip_members(a: ZipArchive<Cursor<Vec<u8>>>) -> Seq<MemberView>;

/// What `ZipArchive::new` reads from `bytes`: the members, or `None` where the bytes
/// are not a ZIP archive.
pub uninterp spec fn zip_read(bytes: Seq<u8>) -> Option<Seq<MemberView>>;

/// `ZipArchive::new` over an in-memory reader of `bytes`.
#[verifier::external_body]
fn zip_open(bytes: Vec<u8>) -> (r: Result<ZipArchive<Cursor<Vec<u8>>>, ZipError>)
    ensures
        match r {
            Ok(a) => zip_read(bytes@) == Some(zip_members(a)),
            Err(_) => zip_read(bytes@) is None,
        },
{
    ZipArchive::new(Cursor::new(bytes))
}

/// `ZipArchive::len`: the number of members.
#[verifier::external_body]
fn zip_len(a: &ZipArchive<Cursor<Vec<u8>>>) -> (n: usize)
    ensures
        n == zip_members(*a).len(),
{
    a.len()
}

/// `ZipArchive::by_index` followed by `ZipFile::name` and `ZipFile::is_dir`: the
/// member's name and whether it is a directory. Opening a member leaves the
/// members as they are.
#[verifier::external_body]
fn zip_member_info(a: &mut ZipArchive<Cursor<Vec<u8>>>, i: usize) -> (r: Result<(String, bool), ZipError>)
    requires
        i < zip_members(*old(a)).len(),
    ensures
        zip_members(*final(a)) == zip_members(*old(a)),
        match r {
            Ok((name, is_dir)) => zip_members(*old(a))[i as int].0 == Some(name@)
                && zip_members(*old(a))[i as int].1 == is_dir,
            Err(_) => zip_members(*old(a))[i as int].0 is None,
        },
{
    let file = a.by_index(i)?;
    let name = file.name()?.to_string();
    Ok((name, file.is_dir()))
}

/// `ZipArchive::by_index` followed by `Read::read_to_end`: the member's
/// decompressed bytes. Reading a member leaves the members as they are.
#[verifier::external_body]
fn zip_member_data(a: &mut ZipArchive<Cursor<Vec<u8>>>, i: usize) -> (r: Result<Vec<u8>, ZipError>)
    requires
        i < zip_members(*old(a)).len(),
    ensures
        zip_members(*final(a)) == zip_members(*old(a)),
        match r {
            Ok(data) => zip_members(*old(a))[i as int].2 == Some(data@),
            Err(_) => zip_members(*old(a))[i as int].2 is None,
        },
{
    let mut file = a.by_index(i)?;
    let mut data: Vec<u8> = Vec::new();
    std::io::Read::read_to_end(&mut file, &mut data)?;
    Ok(data)
}

/// The pages of a CBZ whose members are `ms[i..]`: the image files, in order, with
/// their bytes; or the error of the first member that cannot be opened, or the
/// first image that cannot be read.
pub open spec fn cbz_pages_from(ms: Seq<MemberView>, i: nat) -> Result<Seq<(Seq<char>, Seq<u8>)>, Seq<char>>
    decreases ms.len() - i,
{
    if i >= ms.len() {
        Ok(Seq::empty())
    } else {
        match ms[i as int].0 {
            None => Err("Failed to access file index "@ + decimal(i) + " in CBZ"@),
            Some(n) => if ms[i as int].1 || !is_image_name(n) {
                cbz_pages_from(ms, i + 1)
            } else {
                match ms[i as int].2 {
                    None => Err("Failed to read "@ + n + " from CBZ"@),
                    Some(d) => match cbz_pages_from(ms, i + 1) {
                        Ok(rest) => Ok(seq![(n, d)] + rest),
                        Err(e) => Err(e),
                    },
                }
            },
        }
    }
}

/// The pages of a CBZ held as `bytes` (see [`cbz_pages_from`]).
pub open spec fn cbz_pages(bytes: Seq<u8>) -> Result<Seq<(Seq<char>, Seq<u8>)>, Seq<char>> {
    match zip_read(bytes) {
        None => Err("Failed to read CBZ as ZIP archive"@),
        Some(ms) => cbz_pages_from(ms, 0),
    }
}

/// The message for a member that cannot be opened.
fn access_error(i: usize) -> (e: String)
    ensures
        e@ == "Failed to access file index "@ + decimal(i as nat) + " in CBZ"@,
{
    let mut v: Vec<char> = Vec::new();
    push_str(&mut v, "Failed to access file index ");
    push_decimal(&mut v, i as u64);
    push_str(&mut v, " in CBZ");
    string_from_chars(&v)
}

/// The message for an image that cannot be read.
fn read_error(name: &str) -> (e: String)
    ensures
        e@ == "Failed to read "@ + name@ + " from CBZ"@,
{
    let mut v: Vec<char> = Vec::new();
    push_str(&mut v, "Failed to read ");
    push_str(&mut v, name);
    push_str(&mut v, " from CBZ");
    string_from_chars(&v)
}

/// Extract the image entries of a CBZ (a ZIP archive) held in memory: the image
/// files among its members, in archive order, with their bytes. Directories and
/// files that do not look like images are skipped.
pub fn extract_cbz(bytes: Vec<u8>) -> (r: Result<Vec<(String, Vec<u8>)>, String>)
    ensures
        match cbz_pages(bytes@) {
            Ok(pages) => r is Ok && Seq::new(r->Ok_0@.len(), |k: int| (r->Ok_0@[k].0@, r->Ok_0@[k].1@)) == pages,
            Err(e) => r is Err && r->Err_0@ == e,
        },
{
    let ghost b = bytes@;
    let mut archive = match zip_open(bytes) {
        Ok(a) => a,
        Err(_) => return Err(owned("Failed to read CBZ as ZIP archive")),
    };
    let ghost ms = zip_members(archive);
    let n = zip_len(&archive);
    let mut entries: Vec<(String, Vec<u8>)> = Vec::new();
    let mut i: usize = 0;
    while i < n
        invariant
            n == ms.len(),
            i <= n,
            zip_members(archive) == ms,
            zip_read(b) == Some(ms),
            b == bytes@,
            cbz_pages_from(ms, 0) == match cbz_pages_from(ms, i as nat) {
                Ok(rest) => Ok(Seq::new(entries@.len(), |k: int| (entries@[k].0@, entries@[k].1@)) + rest),
                Err(e) => Err(e),
            },
        decreases n - i,
    {
        let ghost acc = Seq::new(entries@.len(), |k: int| (entries@[k].0@, entries@[k].1@));
        let (name, is_dir) = match zip_member_info(&mut archive, i) {
            Ok(info) => info,
            Err(_) => {
                let e = access_error(i);
                assert(cbz_pages_from(ms, i as nat) == Err::<Seq<(Seq<char>, Seq<u8>)>, Seq<char>>(e@));
                return Err(e);
            },
        };
        let keep = !is_dir && crate::archive::is_image_filename(name.as_str());
        if keep {
            let data = match zip_member_data(&mut archive, i) {
                Ok(d) => d,
                Err(_) => {
                    let e = read_error(name.as_str());
                    assert(cbz_pages_from(ms, i as nat) == Err::<Seq<(Seq<char>, Seq<u8>)>, Seq<char>>(e@));
                    return Err(e);
                },
            };
            let ghost item = (name@, data@);
            entries.push((name, data));
            proof {
                let acc2 = Seq::new(entries@.len(), |k: int| (entries@[k].0@, entries@[k].1@));
                assert(acc2 =~= acc.push(item));
                match cbz_pages_from(ms, (i + 1) as nat) {
                    Ok(rest) => {
                        assert(acc + (seq![item] + rest) =~= acc2 + rest);
                    },
                    Err(_) => {},
                }
            }
        }
        i = i + 1;
    }
    assert(Seq::new(entries@.len(), |k: int| (entries@[k].0@, entries@[k].1@)) + Seq::<(Seq<char>, Seq<u8>)>::empty()
        =~= Seq::new(entries@.len(), |k: int| (entries@[k].0@, entries@[k].1@)));
    Ok(entries)
}

} // verus!
