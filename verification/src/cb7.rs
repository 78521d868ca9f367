//! The pages of a CB7 (7z-based comic book archive): which listed files are
//! pages, and which of the entries read from the archive are kept.
//!
//! Reading a 7z archive (its listing, then the decoding of its entries) is the
//! `sevenz_rust` crate's work and is done by the caller: its reader indexes the
//! tables of an archive's header without checking them and panics on some
//! malformed archives, which no condition on the bytes can rule out beforehand,
//! while every function here returns. The library decides what is read and what
//! comes out.
use vstd::prelude::*;
use crate::archive::is_image_name;
use crate::text::{concat2, str_eq};

verus! {

/// The names held in `names`.
pub open spec fn names_view(names: Seq<String>) -> Seq<Seq<char>> {
    Seq::new(names.len(), |k: int| names[k]@)
}

/// Names and bytes of entries.
pub open spec fn pairs_view(entries: Seq<(String, Vec<u8>)>) -> Seq<(Seq<char>, Seq<u8>)> {
    Seq::new(entries.len(), |k: int| (entries[k].0@, entries[k].1@))
}

/// Names and directory flags of listed files.
pub open spec fn listing_view(files: Seq<(String, bool)>) -> Seq<(Seq<char>, bool)> {
    Seq::new(files.len(), |k: int| (files[k].0@, files[k].1))
}

/// Whether `name` is one of `wanted`: whether an entry of that name is to be read.
pub fn is_wanted(wanted: &Vec<String>, name: &str) -> (r: bool)
    ensures
        r == exists|j: int| 0 <= j < wanted@.len() && wanted@[j]@ == name@,
{
    let mut j: usize = 0;
    while j < wanted.len()
        invariant
            j <= wanted@.len(),
            forall|i: int| 0 <= i < j ==> wanted@[i]@ != name@,
        decreases wanted@.len() - j,
    {
        if str_eq(wanted[j].as_str(), name) {
            return true;
        }
        j = j + 1;
    }
    false
}

/// A listed file that is a page: not a directory, with a name that looks like an
/// image.
pub open spec fn is_page_file(f: (Seq<char>, bool)) -> bool {
    !f.1 && is_image_name(f.0)
}

/// The names of the page files of a listing, in order.
pub open spec fn page_file_names(files: Seq<(Seq<char>, bool)>) -> Seq<Seq<char>> {
    files.filter(|f: (Seq<char>, bool)| is_page_file(f)).map_values(|f: (Seq<char>, bool)| f.0)
}

/// The names of the page files of a listing, in order.
pub fn page_names(files: Vec<(String, bool)>) -> (names: Vec<String>)
    ensures
        names_view(names@)
            == page_file_names(listing_view(files@)),
{
    let ghost input = listing_view(files@);
    let mut files = files;
    let mut names: Vec<String> = Vec::new();
    let ghost mut taken: int = 0;
    proof {
        reveal(Seq::filter);
        assert(input.take(0) =~= Seq::<(Seq<char>, bool)>::empty());
        assert(listing_view(files@) =~= input.skip(0));
        assert(names_view(names@) =~= page_file_names(input.take(0)));
    }
    while files.len() > 0
        invariant
            taken + files@.len() == input.len(),
            0 <= taken <= input.len(),
            listing_view(files@) == input.skip(taken),
            names_view(names@) == page_file_names(input.take(taken)),
        decreases files@.len(),
    {
        let ghost before = listing_view(files@);
        let ghost files_before = files@;
        let ghost names_before = names_view(names@);
        let (name, is_dir) = files.remove(0);
        let ghost f = (name@, is_dir);
        proof {
            assert(before[0] == f);
            assert(input[taken] == f);
            assert forall|k: int| 0 <= k < files@.len() implies #[trigger] listing_view(files@)[k] == input.skip(taken + 1)[k] by {
                assert(files@[k] == files_before[k + 1]);
                assert(before[k + 1] == input.skip(taken)[k + 1]);
            }
            assert(listing_view(files@) =~= input.skip(taken + 1));
            assert(input.take(taken + 1).drop_last() =~= input.take(taken));
            assert(input.take(taken + 1).last() == f);
            reveal(Seq::filter);
            let p = |g: (Seq<char>, bool)| is_page_file(g);
            let pre = input.take(taken).filter(p);
            if is_page_file(f) {
                assert(input.take(taken + 1).filter(p) == pre.push(f));
                assert(pre.push(f).map_values(|g: (Seq<char>, bool)| g.0)
                    =~= pre.map_values(|g: (Seq<char>, bool)| g.0).push(f.0));
            } else {
                assert(input.take(taken + 1).filter(p) == pre);
            }
        }
        if !is_dir && crate::archive::is_image_filename(name.as_str()) {
            names.push(name);
            proof {
                assert(names_view(names@) =~= names_before.push(f.0));
            }
        } else {
            proof {
                assert(names_view(names@) =~= names_before);
            }
        }
        proof {
            taken = taken + 1;
        }
    }
    assert(input.take(taken) =~= input);
    names
}

/// The entries of `v` whose names are among `wanted`, in their order.
pub open spec fn wanted_entries(v: Seq<(Seq<char>, Seq<u8>)>, wanted: Seq<Seq<char>>) -> Seq<(Seq<char>, Seq<u8>)> {
    v.filter(|e: (Seq<char>, Seq<u8>)| wanted.contains(e.0))
}

/// Keep the entries whose names are among `wanted`, in their order.
fn keep_wanted(v: Vec<(String, Vec<u8>)>, wanted: &Vec<String>) -> (kept: Vec<(String, Vec<u8>)>)
    ensures
        pairs_view(kept@) == wanted_entries(pairs_view(v@), names_view(wanted@)),
{
    let ghost input = pairs_view(v@);
    let ghost wv = names_view(wanted@);
    let mut v = v;
    let mut kept: Vec<(String, Vec<u8>)> = Vec::new();
    let ghost mut taken: int = 0;
    proof {
        reveal(Seq::filter);
        assert(input.take(0) =~= Seq::<(Seq<char>, Seq<u8>)>::empty());
        assert(pairs_view(v@) =~= input.skip(0));
    }
    while v.len() > 0
        invariant
            taken + v@.len() == input.len(),
            0 <= taken <= input.len(),
            wv == names_view(wanted@),
            pairs_view(v@) == input.skip(taken),
            pairs_view(kept@) == wanted_entries(input.take(taken), wv),
        decreases v@.len(),
    {
        let ghost before = pairs_view(v@);
        let ghost v_before = v@;
        let ghost kept_before = pairs_view(kept@);
        let e = v.remove(0);
        let ghost ev = (e.0@, e.1@);
        proof {
            assert(before[0] == ev);
            assert(input[taken] == ev);
            assert forall|k: int| 0 <= k < v@.len() implies #[trigger] pairs_view(v@)[k] == input.skip(taken + 1)[k] by {
                assert(v@[k] == v_before[k + 1]);
                assert(before[k + 1] == input.skip(taken)[k + 1]);
            }
            assert(pairs_view(v@) =~= input.skip(taken + 1));
            assert(input.take(taken + 1).drop_last() =~= input.take(taken));
            assert(input.take(taken + 1).last() == ev);
            reveal(Seq::filter);
        }
        let w = is_wanted(wanted, e.0.as_str());
        proof {
            assert(w == wv.contains(ev.0)) by {
                if w {
                    let j = choose|j: int| 0 <= j < wanted@.len() && wanted@[j]@ == ev.0;
                    assert(wv[j] == ev.0);
                }
                if wv.contains(ev.0) {
                    let j = choose|j: int| 0 <= j < wv.len() && wv[j] == ev.0;
                    assert(wanted@[j]@ == ev.0);
                }
            }
        }
        if w {
            kept.push(e);
            proof {
                assert(pairs_view(kept@) =~= kept_before.push(ev));
            }
        }
        proof {
            taken = taken + 1;
        }
    }
    assert(input.take(taken) =~= input);
    kept
}

/// The pages of a CB7 whose listing was read as `listing` (each file's name and
/// whether it is a directory, or the reader's error): the names of its page files
/// are handed to `read`, which decodes the archive's entries and gives those it
/// read, in the order of decoding (or its error); of those, the ones named among
/// the page files come out. The errors are those of opening the archive and of
/// reading its entries.
pub fn extract_cb7<F>(listing: Result<Vec<(String, bool)>, String>, read: F) -> (r: Result<Vec<(String, Vec<u8>)>, String>)
    where
        F: FnOnce(&Vec<String>) -> Result<Vec<(String, Vec<u8>)>, String>,
    requires
        forall|w: &Vec<String>| read.requires((w,)),
    ensures
        match listing {
            Err(e) => r is Err && r->Err_0@ == "Failed to read CB7 archive: "@ + e@,
            Ok(files) => exists|w: Vec<String>, raw: Result<Vec<(String, Vec<u8>)>, String>| {
                &&& names_view(w@) == page_file_names(listing_view(files@))
                &&& read.ensures((&w,), raw)
                &&& match raw {
                    Err(e) => r is Err && r->Err_0@ == "Failed to read entries from CB7 archive: "@ + e@,
                    Ok(v) => r is Ok && pairs_view(r->Ok_0@) == wanted_entries(pairs_view(v@), names_view(w@)),
                }
            },
        },
        r is Ok ==> forall|k: int| 0 <= k < r->Ok_0@.len() ==> is_image_name((#[trigger] r->Ok_0@[k]).0@),
{
    let files = match listing {
        Ok(f) => f,
        Err(e) => return Err(concat2("Failed to read CB7 archive: ", e.as_str())),
    };
    let ghost lv = listing_view(files@);
    let wanted = page_names(files);
    let ghost wv = names_view(wanted@);
    let raw = read(&wanted);
    match raw {
        Ok(v) => {
            let kept = keep_wanted(v, &wanted);
            proof {
                broadcast use vstd::seq_lib::group_filter_ensures;
                let p = |g: (Seq<char>, bool)| is_page_file(g);
                let fl = lv.filter(p);
                assert(wv == fl.map_values(|g: (Seq<char>, bool)| g.0));
                assert forall|k: int| 0 <= k < kept@.len() implies is_image_name((#[trigger] kept@[k]).0@) by {
                    assert(pairs_view(kept@)[k].0 == kept@[k].0@);
                    assert(wv.contains(kept@[k].0@));
                    let j = choose|j: int| 0 <= j < wv.len() && wv[j] == kept@[k].0@;
                    assert(wv[j] == fl[j].0);
                    assert(p(fl[j]));
                }
            }
            Ok(kept)
        },
        Err(e) => Err(concat2("Failed to read entries from CB7 archive: ", e.as_str())),
    }
}

} // verus!
