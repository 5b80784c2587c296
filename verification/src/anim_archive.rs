//! Reading a `.anim` file: a zip archive whose members ending in
//! `skeleton.atlas`, `skeleton.json` and `skeleton.png` hold a Spine
//! skeleton. The archive is read with the `zip` crate.
use vstd::prelude::*;
use crate::prefab_types::strings_view;
use crate::text::{chars_of, concat, ends_with, vec_ends_with};

verus! {

/// The member names joined with `, `.
pub open spec fn joined(names: Seq<Seq<char>>) -> Seq<char>
    decreases names.len(),
{
    if names.len() == 0 {
        Seq::empty()
    } else if names.len() == 1 {
        names[0]
    } else {
        joined(names.drop_last()) + ", "@ + names.last()
    }
}

/// Index of the first member name ending with `suffix`.
pub open spec fn member_with_suffix(names: Seq<Seq<char>>, suffix: Seq<char>, i: int) -> Option<int>
    decreases names.len() - i,
{
    if i < 0 || i >= names.len() {
        None
    } else if ends_with(names[i], suffix) {
        Some(i)
    } else {
        member_with_suffix(names, suffix, i + 1)
    }
}

/// The member a skeleton part is read from: the first whose name ends with
/// `suffix`; else the error naming what the archive holds.
pub open spec fn archive_member_of(names: Seq<Seq<char>>, suffix: Seq<char>) -> Result<Seq<char>, Seq<char>> {
    match member_with_suffix(names, suffix, 0) {
        Some(i) => Ok(names[i]),
        None => Err("Missing "@ + suffix + " in .anim. Found: "@ + joined(names)),
    }
}

fn join_names(names: &Vec<String>) -> (r: String)
    ensures
        r@ == joined(strings_view(names@)),
{
    let ghost sv = strings_view(names@);
    let mut out = String::new();
    let mut i: usize = 0;
    while i < names.len()
        invariant
            i <= names@.len(),
            sv == strings_view(names@),
            out@ == joined(sv.take(i as int)),
        decreases names@.len() - i,
    {
        if i > 0 {
            out.append(", ");
        }
        out.append(names[i].as_str());
        proof {
            let t = sv.take(i + 1);
            assert(t.drop_last() =~= sv.take(i as int));
            assert(sv[i as int] == names@[i as int]@);
            if i == 0 {
                assert(out@ =~= joined(t));
            } else {
                assert(out@ =~= joined(t));
            }
        }
        i += 1;
    }
    proof {
        assert(sv.take(names@.len() as int) =~= sv);
    }
    out
}

/// The name of the archive member holding a skeleton part.
pub fn archive_member(names: &Vec<String>, suffix: &str) -> (r: Result<String, String>)
    ensures
        match r {
            Ok(n) => archive_member_of(strings_view(names@), suffix@) == Ok::<Seq<char>, Seq<char>>(n@),
            Err(e) => archive_member_of(strings_view(names@), suffix@) == Err::<Seq<char>, Seq<char>>(e@),
        },
{
    let ghost sv = strings_view(names@);
    let sfx = chars_of(suffix);
    let mut i: usize = 0;
    while i < names.len()
        invariant
            i <= names@.len(),
            sv == strings_view(names@),
            sfx@ == suffix@,
            member_with_suffix(sv, suffix@, 0) == member_with_suffix(sv, suffix@, i as int),
        decreases names@.len() - i,
    {
        if vec_ends_with(&chars_of(names[i].as_str()), &sfx) {
            assert(sv[i as int] == names@[i as int]@);
            return Ok(names[i].clone());
        }
        assert(sv[i as int] == names@[i as int]@);
        i += 1;
    }
    let a = concat("Missing ", suffix);
    let b = concat(a.as_str(), " in .anim. Found: ");
    let j = join_names(names);
    Err(concat(b.as_str(), j.as_str()))
}

// ─── the zip archive ───────────────────────────────────────────────────────

/// What `zip::ZipArchive::new` makes of these bytes: the number of entries
/// of the archive, or the text of the error.
pub uninterp spec fn zip_opened(bytes: Seq<u8>) -> Result<usize, Seq<char>>;

/// `ZipArchive::new` over the bytes, then `len`; the error as its text.
#[verifier::external_body]
fn open_zip(bytes: &[u8]) -> (r: Result<usize, String>)
    ensures
        match r {
            Ok(n) => zip_opened(bytes@) == Ok::<usize, Seq<char>>(n),
            Err(e) => zip_opened(bytes@) == Err::<usize, Seq<char>>(e@),
        },
{
    match zip::ZipArchive::new(std::io::Cursor::new(bytes)) {
        Ok(archive) => Ok(archive.len()),
        Err(e) => Err(e.to_string()),
    }
}

/// The name of entry `i` of the archive in these bytes, when the archive
/// opens and `by_index` and `name` succeed for it.
pub uninterp spec fn zip_entry_name_of(bytes: Seq<u8>, i: usize) -> Option<Seq<char>>;

/// `ZipArchive::by_index(i)` then `ZipFile::name`, on the archive in the
/// bytes; nothing when a step fails.
#[verifier::external_body]
fn zip_entry_name(bytes: &[u8], i: usize) -> (r: Option<String>)
    ensures
        match r {
            Some(n) => zip_entry_name_of(bytes@, i) == Some(n@),
            None => zip_entry_name_of(bytes@, i) is None,
        },
{
    let mut archive = zip::ZipArchive::new(std::io::Cursor::new(bytes)).ok()?;
    let file = archive.by_index(i).ok()?;
    let name = file.name().ok()?.to_string();
    Some(name)
}

/// The content of the member named `name` of the archive in these bytes,
/// or the text of the error met opening, finding or reading it.
pub uninterp spec fn zip_member_of(bytes: Seq<u8>, name: Seq<char>) -> Result<Seq<u8>, Seq<char>>;

/// `ZipArchive::by_name` then reading the member to its end, on the archive
/// in the bytes; an error as its text.
#[verifier::external_body]
fn read_zip_member(bytes: &[u8], name: &str) -> (r: Result<Vec<u8>, String>)
    ensures
        match r {
            Ok(b) => zip_member_of(bytes@, name@) == Ok::<Seq<u8>, Seq<char>>(b@),
            Err(e) => zip_member_of(bytes@, name@) == Err::<Seq<u8>, Seq<char>>(e@),
        },
{
    let mut archive = zip::ZipArchive::new(std::io::Cursor::new(bytes)).map_err(|e| e.to_string())?;
    let mut file = archive.by_name(name).map_err(|e| e.to_string())?;
    let mut buf = Vec::new();
    std::io::Read::read_to_end(&mut file, &mut buf).map_err(|e| e.to_string())?;
    Ok(buf)
}

/// What `String::from_utf8` makes of these bytes: the text, or the text of
/// the error.
pub uninterp spec fn utf8_of(bytes: Seq<u8>) -> Result<Seq<char>, Seq<char>>;

/// `String::from_utf8`; the error as its text.
#[verifier::external_body]
fn utf8_string(bytes: Vec<u8>) -> (r: Result<String, String>)
    ensures
        match r {
            Ok(t) => utf8_of(bytes@) == Ok::<Seq<char>, Seq<char>>(t@),
            Err(e) => utf8_of(bytes@) == Err::<Seq<char>, Seq<char>>(e@),
        },
{
    String::from_utf8(bytes).map_err(|e| e.to_string())
}

/// The names of the entries `0..k` of the archive that can be named, in
/// order.
pub open spec fn names_upto(bytes: Seq<u8>, k: int) -> Seq<Seq<char>>
    decreases k,
{
    if k <= 0 {
        Seq::empty()
    } else {
        let before = names_upto(bytes, k - 1);
        match zip_entry_name_of(bytes, (k - 1) as usize) {
            Some(n) => before.push(n),
            None => before,
        }
    }
}

/// The content of the member holding a skeleton part, or the error.
pub open spec fn part_of(bytes: Seq<u8>, names: Seq<Seq<char>>, suffix: Seq<char>) -> Result<Seq<u8>, Seq<char>> {
    match archive_member_of(names, suffix) {
        Ok(name) => zip_member_of(bytes, name),
        Err(e) => Err(e),
    }
}

/// The three parts of a Spine skeleton read from a `.anim` file.
pub struct AnimArchive {
    pub atlas_text: String,
    pub json_text: String,
    pub png_bytes: Vec<u8>,
}

/// Model of the parts.
pub struct AnimArchiveView {
    pub atlas_text: Seq<char>,
    pub json_text: Seq<char>,
    pub png_bytes: Seq<u8>,
}

impl View for AnimArchive {
    type V = AnimArchiveView;

    open spec fn view(&self) -> AnimArchiveView {
        AnimArchiveView { atlas_text: self.atlas_text@, json_text: self.json_text@, png_bytes: self.png_bytes@ }
    }
}

/// What reading a `.anim` file gives: after opening the archive, the atlas,
/// the skeleton and the image are read in that order, then the atlas and
/// the skeleton are decoded as UTF-8; the first failure is the answer.
pub open spec fn unpacked_of(bytes: Seq<u8>) -> Result<AnimArchiveView, Seq<char>> {
    match zip_opened(bytes) {
        Err(e) => Err("Failed to open .anim as a zip: "@ + e),
        Ok(n) => {
            let names = names_upto(bytes, n as int);
            match part_of(bytes, names, "skeleton.atlas"@) {
                Err(e) => Err(e),
                Ok(atlas) => match part_of(bytes, names, "skeleton.json"@) {
                    Err(e) => Err(e),
                    Ok(json) => match part_of(bytes, names, "skeleton.png"@) {
                        Err(e) => Err(e),
                        Ok(png) => match utf8_of(atlas) {
                            Err(e) => Err("skeleton.atlas is not valid UTF-8: "@ + e),
                            Ok(a) => match utf8_of(json) {
                                Err(e) => Err("skeleton.json is not valid UTF-8: "@ + e),
                                Ok(j) => Ok(AnimArchiveView { atlas_text: a, json_text: j, png_bytes: png }),
                            },
                        },
                    },
                },
            }
        },
    }
}

fn read_part(bytes: &[u8], names: &Vec<String>, suffix: &str) -> (r: Result<Vec<u8>, String>)
    ensures
        match r {
            Ok(b) => part_of(bytes@, strings_view(names@), suffix@) == Ok::<Seq<u8>, Seq<char>>(b@),
            Err(e) => part_of(bytes@, strings_view(names@), suffix@) == Err::<Seq<u8>, Seq<char>>(e@),
        },
{
    match archive_member(names, suffix) {
        Ok(name) => read_zip_member(bytes, name.as_str()),
        Err(e) => Err(e),
    }
}

/// Reads the skeleton parts out of a `.anim` file (see [`unpacked_of`]).
#[verifier::spinoff_prover]
#[verifier::rlimit(40)]
pub fn unpack_anim_zip(bytes: &[u8]) -> (r: Result<AnimArchive, String>)
    ensures
        match r {
            Ok(a) => unpacked_of(bytes@) == Ok::<AnimArchiveView, Seq<char>>(a@),
            Err(e) => unpacked_of(bytes@) == Err::<AnimArchiveView, Seq<char>>(e@),
        },
{
    let n = match open_zip(bytes) {
        Ok(n) => n,
        Err(e) => {
            return Err(concat("Failed to open .anim as a zip: ", e.as_str()));
        },
    };
    let mut names: Vec<String> = Vec::new();
    let mut i: usize = 0;
    assert(strings_view(names@) =~= names_upto(bytes@, 0));
    while i < n
        invariant
            i <= n,
            strings_view(names@) == names_upto(bytes@, i as int),
        decreases n - i,
    {
        match zip_entry_name(bytes, i) {
            Some(name) => {
                let ghost before = strings_view(names@);
                names.push(name);
                assert(strings_view(names@) =~= before.push(name@));
            },
            None => {},
        }
        i += 1;
    }
    let atlas = match read_part(bytes, &names, "skeleton.atlas") {
        Ok(b) => b,
        Err(e) => {
            return Err(e);
        },
    };
    let json = match read_part(bytes, &names, "skeleton.json") {
        Ok(b) => b,
        Err(e) => {
            return Err(e);
        },
    };
    let png_bytes = match read_part(bytes, &names, "skeleton.png") {
        Ok(b) => b,
        Err(e) => {
            return Err(e);
        },
    };
    let atlas_text = match utf8_string(atlas) {
        Ok(t) => t,
        Err(e) => {
            return Err(concat("skeleton.atlas is not valid UTF-8: ", e.as_str()));
        },
    };
    let json_text = match utf8_string(json) {
        Ok(t) => t,
        Err(e) => {
            return Err(concat("skeleton.json is not valid UTF-8: ", e.as_str()));
        },
    };
    Ok(AnimArchive { atlas_text, json_text, png_bytes })
}

} // verus!
