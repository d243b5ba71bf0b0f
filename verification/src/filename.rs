//! Filenames as raw bytes.

use crate::common::{bytes_equal, copy_range};
use crate::constants::DATA_FILENAME_MAX_LENGTH;
use crate::runtime::JdvrifError;
use vstd::prelude::*;
use vstd::slice::slice_subrange;
use vstd::string::*;

verus! {

pub const SLASH: u8 = 0x2F;

pub const BACKSLASH: u8 = 0x5C;

pub const DOT: u8 = 0x2E;

pub const DASH: u8 = 0x2D;

/// The position of the first byte behind the last `byte` in `s`; zero where
/// there is none.
pub open spec fn after_last(s: Seq<u8>, byte: u8) -> int
    decreases s.len(),
{
    if s.len() == 0 || s.last() == byte {
        s.len() as int
    } else {
        after_last(s.drop_last(), byte)
    }
}

/// The last `byte` is found where no other follows it.
pub proof fn lemma_after_last(s: Seq<u8>, byte: u8, i: int)
    requires
        0 <= i <= s.len(),
        i > 0 ==> s[i - 1] == byte,
        forall|j: int| i <= j < s.len() ==> s[j] != byte,
    ensures
        after_last(s, byte) == i,
    decreases s.len(),
{
    if s.len() > i {
        lemma_after_last(s.drop_last(), byte, i);
    }
}

fn find_after_last(s: &[u8], byte: u8) -> (r: usize)
    ensures
        r == after_last(s@, byte),
        r <= s@.len(),
        r > 0 ==> s@[r - 1] == byte,
{
    let mut i: usize = s.len();
    while i > 0 && s[i - 1] != byte
        invariant
            i <= s@.len(),
            forall|j: int| i <= j < s@.len() ==> s@[j] != byte,
        decreases i,
    {
        i -= 1;
    }
    proof {
        lemma_after_last(s@, byte, i as int);
    }
    i
}

/// The last component of a path, where it is a name: slashes at the end and
/// components of a single dot do not count, and two dots are no name.
pub open spec fn path_file_name(path: Seq<u8>) -> Option<Seq<u8>>
    decreases path.len(),
{
    if path.len() == 0 {
        None
    } else if path.last() == SLASH {
        path_file_name(path.drop_last())
    } else {
        let name = path.skip(after_last(path, SLASH));
        if name == seq![DOT] {
            path_file_name(path.drop_last())
        } else if name == seq![DOT, DOT] {
            None
        } else {
            Some(name)
        }
    }
}

proof fn lemma_after_last_clear(s: Seq<u8>, byte: u8)
    ensures
        0 <= after_last(s, byte) <= s.len(),
        forall|j: int| after_last(s, byte) <= j < s.len() ==> s[j] != byte,
    decreases s.len(),
{
    if s.len() > 0 && s.last() != byte {
        lemma_after_last_clear(s.drop_last(), byte);
        assert forall|j: int| after_last(s, byte) <= j < s.len() implies s[j] != byte by {
            if j < s.len() - 1 {
                assert(s[j] == s.drop_last()[j]);
            }
        }
    }
}

/// The last component of a path is not empty and holds no slash.
pub proof fn lemma_file_name_has_no_slash(path: Seq<u8>)
    ensures
        path_file_name(path) matches Some(name) ==> name.len() > 0 && forall|i: int|
            0 <= i < name.len() ==> name[i] != SLASH,
    decreases path.len(),
{
    if path.len() > 0 {
        lemma_file_name_has_no_slash(path.drop_last());
        lemma_after_last_clear(path, SLASH);
        if path.last() != SLASH {
            let at = after_last(path, SLASH);
            let name = path.skip(at);
            assert(at < path.len()) by {
                lemma_after_last_clear(path.drop_last(), SLASH);
            }
            assert forall|i: int| 0 <= i < name.len() implies name[i] != SLASH by {
                assert(name[i] == path[at + i]);
            }
        }
    }
}

/// A path that ends neither in a slash nor in a dot has a last component.
pub proof fn lemma_last_component(path: Seq<u8>)
    requires
        path.len() > 0,
        path.last() != SLASH,
        path.last() != DOT,
    ensures
        path_file_name(path) is Some,
{
    let at = after_last(path, SLASH);
    let name = path.skip(at);
    lemma_after_last_clear(path, SLASH);
    lemma_after_last_clear(path.drop_last(), SLASH);
    assert(name.last() == path.last());
    assert(seq![DOT].last() == DOT && seq![DOT, DOT].last() == DOT);
}

/// A name of three bytes or more without a slash is its own last component.
pub proof fn lemma_name_is_its_file_name(name: Seq<u8>)
    requires
        name.len() >= 3,
        forall|i: int| 0 <= i < name.len() ==> name[i] != SLASH,
    ensures
        path_file_name(name) == Some(name),
{
    lemma_after_last(name, SLASH, 0);
    assert(name.skip(0) =~= name);
    assert(seq![DOT].len() == 1 && seq![DOT, DOT].len() == 2);
}

/// The last component of a path, where it is a name.
pub fn file_name(path: &[u8]) -> (r: Option<Vec<u8>>)
    ensures
        match path_file_name(path@) {
            Some(name) => r is Some && r->0@ == name,
            None => r is None,
        },
{
    let mut end: usize = path.len();
    assert(path@.take(end as int) =~= path@);
    while end > 0
        invariant
            end <= path.len(),
            path_file_name(path@) == path_file_name(path@.take(end as int)),
        decreases end,
    {
        let ghost here: Seq<u8> = path@.take(end as int);
        assert(here.drop_last() =~= path@.take(end - 1));
        if path[end - 1] == SLASH {
            end -= 1;
        } else {
            let head: &[u8] = slice_subrange(path, 0, end);
            assert(head@ =~= here);
            let begin: usize = find_after_last(head, SLASH);
            let ghost name: Seq<u8> = here.skip(begin as int);
            assert(name =~= path@.subrange(begin as int, end as int));
            if end - begin == 1 && path[begin] == DOT {
                assert(name =~= seq![DOT]);
                end -= 1;
            } else if end - begin == 2 && path[begin] == DOT && path[begin + 1] == DOT {
                assert(name =~= seq![DOT, DOT]);
                assert(name[1] == DOT && name.len() == 2);
                assert(name != seq![DOT]) by {
                    assert(seq![DOT].len() == 1);
                }
                return None;
            } else {
                proof {
                    if name == seq![DOT] {
                        assert(name.len() == 1 && name[0] == DOT);
                    }
                    if name == seq![DOT, DOT] {
                        assert(name.len() == 2 && name[0] == DOT && name[1] == DOT);
                    }
                }
                return Some(copy_range(path, begin, end));
            }
        }
    }
    None
}

/// A byte that a filename may hold: no separator and no control character.
pub open spec fn is_filename_byte(c: u8) -> bool {
    c >= 0x20 && c != 0x7F && c != SLASH && c != BACKSLASH
}

/// A name that can be stored in an image and restored from it: it is not empty,
/// does not begin with a dot or a dash, and holds no separator and no control
/// character.
pub open spec fn is_safe_filename(name: Seq<u8>) -> bool {
    &&& name.len() > 0
    &&& name[0] != DOT
    &&& name[0] != DASH
    &&& forall|i: int| 0 <= i < name.len() ==> is_filename_byte(#[trigger] name[i])
}

pub fn has_safe_embedded_filename(name: &[u8]) -> (r: bool)
    ensures
        r == is_safe_filename(name@),
{
    if name.len() == 0 || name[0] == DOT || name[0] == DASH {
        return false;
    }
    let mut i: usize = 0;
    while i < name.len()
        invariant
            i <= name@.len(),
            forall|j: int| 0 <= j < i ==> is_filename_byte(#[trigger] name@[j]),
        decreases name@.len() - i,
    {
        let c: u8 = name[i];
        if c < 0x20 || c == 0x7F || c == SLASH || c == BACKSLASH {
            assert(!is_filename_byte(name@[i as int]));
            return false;
        }
        i += 1;
    }
    true
}

/// The name that a data file will be stored under: the last component of its
/// path, raw byte for raw byte.
pub fn validate_data_filename(data_file_path: &[u8]) -> (r: Result<Vec<u8>, JdvrifError>)
    ensures
        match path_file_name(data_file_path@) {
            None => r == Err::<Vec<u8>, JdvrifError>(JdvrifError::DataFilenameUnsafe),
            Some(name) => if !is_safe_filename(name) {
                r == Err::<Vec<u8>, JdvrifError>(JdvrifError::DataFilenameUnsafe)
            } else if name.len() > DATA_FILENAME_MAX_LENGTH {
                r == Err::<Vec<u8>, JdvrifError>(JdvrifError::DataFilenameTooLong)
            } else {
                r is Ok && r->Ok_0@ == name
            },
        },
        r is Ok <==> (path_file_name(data_file_path@) matches Some(name) && is_safe_filename(name)
            && name.len() <= 20),
{
    let name: Vec<u8> = match file_name(data_file_path) {
        Some(name) => name,
        None => {
            return Err(JdvrifError::DataFilenameUnsafe);
        },
    };
    if !has_safe_embedded_filename(&name) {
        return Err(JdvrifError::DataFilenameUnsafe);
    }
    if name.len() > DATA_FILENAME_MAX_LENGTH {
        return Err(JdvrifError::DataFilenameTooLong);
    }
    Ok(name)
}

/// The length of a name in front of its extension; a dot at the very beginning
/// begins no extension.
pub open spec fn stem_len(name: Seq<u8>) -> int {
    if after_last(name, DOT) <= 1 {
        name.len() as int
    } else {
        after_last(name, DOT) - 1
    }
}

pub proof fn lemma_stem_len(name: Seq<u8>)
    ensures
        0 <= stem_len(name) <= name.len(),
{
    lemma_after_last_clear(name, DOT);
}

/// The extension of a name, without its dot.
pub open spec fn extension(name: Seq<u8>) -> Option<Seq<u8>> {
    if stem_len(name) == name.len() {
        None
    } else {
        Some(name.skip(stem_len(name) + 1))
    }
}

/// The length of a name in front of its extension.
pub fn file_stem_len(name: &[u8]) -> (r: usize)
    ensures
        r == stem_len(name@),
        r <= name@.len(),
        r < name@.len() ==> name@[r as int] == DOT,
{
    let after: usize = find_after_last(name, DOT);
    if after <= 1 {
        name.len()
    } else {
        after - 1
    }
}

/// The letter case of ASCII letters does not count.
pub open spec fn ascii_lower(c: u8) -> u8 {
    if 0x41 <= c <= 0x5A {
        (c + 0x20) as u8
    } else {
        c
    }
}

pub open spec fn lowercase(s: Seq<u8>) -> Seq<u8> {
    s.map_values(|c: u8| ascii_lower(c))
}

fn to_lowercase(s: &[u8]) -> (r: Vec<u8>)
    ensures
        r@ == lowercase(s@),
{
    let mut out: Vec<u8> = Vec::new();
    let mut i: usize = 0;
    while i < s.len()
        invariant
            i <= s@.len(),
            out@ =~= lowercase(s@.take(i as int)),
        decreases s@.len() - i,
    {
        let c: u8 = s[i];
        out.push(
            if 0x41 <= c && c <= 0x5A {
                c + 0x20
            } else {
                c
            },
        );
        i += 1;
        assert(s@.take(i as int) =~= s@.take(i - 1).push(c));
    }
    assert(s@.take(i as int) =~= s@);
    out
}

/// Extensions of file types that are compressed already.
pub open spec fn is_compressed_type(ext: Seq<u8>) -> bool {
    ||| ext == "zip".spec_bytes()
    ||| ext == "jar".spec_bytes()
    ||| ext == "rar".spec_bytes()
    ||| ext == "7z".spec_bytes()
    ||| ext == "bz2".spec_bytes()
    ||| ext == "gz".spec_bytes()
    ||| ext == "xz".spec_bytes()
    ||| ext == "lz".spec_bytes()
    ||| ext == "lz4".spec_bytes()
    ||| ext == "cab".spec_bytes()
    ||| ext == "rpm".spec_bytes()
    ||| ext == "deb".spec_bytes()
    ||| ext == "mp4".spec_bytes()
    ||| ext == "mp3".spec_bytes()
    ||| ext == "exe".spec_bytes()
    ||| ext == "jpg".spec_bytes()
    ||| ext == "jpeg".spec_bytes()
    ||| ext == "jfif".spec_bytes()
    ||| ext == "png".spec_bytes()
    ||| ext == "webp".spec_bytes()
    ||| ext == "gif".spec_bytes()
    ||| ext == "ogg".spec_bytes()
    ||| ext == "flac".spec_bytes()
}

fn is_compressed_extension(ext: &[u8]) -> (r: bool)
    ensures
        r == is_compressed_type(ext@),
{
    bytes_equal(ext, "zip".as_bytes()) || bytes_equal(ext, "jar".as_bytes()) || bytes_equal(
        ext,
        "rar".as_bytes(),
    ) || bytes_equal(ext, "7z".as_bytes()) || bytes_equal(ext, "bz2".as_bytes()) || bytes_equal(
        ext,
        "gz".as_bytes(),
    ) || bytes_equal(ext, "xz".as_bytes()) || bytes_equal(ext, "lz".as_bytes()) || bytes_equal(
        ext,
        "lz4".as_bytes(),
    ) || bytes_equal(ext, "cab".as_bytes()) || bytes_equal(ext, "rpm".as_bytes()) || bytes_equal(
        ext,
        "deb".as_bytes(),
    ) || bytes_equal(ext, "mp4".as_bytes()) || bytes_equal(ext, "mp3".as_bytes()) || bytes_equal(
        ext,
        "exe".as_bytes(),
    ) || bytes_equal(ext, "jpg".as_bytes()) || bytes_equal(ext, "jpeg".as_bytes()) || bytes_equal(
        ext,
        "jfif".as_bytes(),
    ) || bytes_equal(ext, "png".as_bytes()) || bytes_equal(ext, "webp".as_bytes()) || bytes_equal(
        ext,
        "gif".as_bytes(),
    ) || bytes_equal(ext, "ogg".as_bytes()) || bytes_equal(ext, "flac".as_bytes())
}

/// Whether a path names a file of a type that is compressed already.
pub open spec fn names_compressed_file(path: Seq<u8>) -> bool {
    match path_file_name(path) {
        None => false,
        Some(name) => match extension(name) {
            None => false,
            Some(ext) => is_compressed_type(lowercase(ext)),
        },
    }
}

/// Whether a path names a file of a type that is compressed already.
pub fn has_compressed_extension(path: &[u8]) -> (r: bool)
    ensures
        r == names_compressed_file(path@),
{
    let name: Vec<u8> = match file_name(path) {
        Some(name) => name,
        None => {
            return false;
        },
    };
    let stem: usize = file_stem_len(&name);
    if stem == name.len() {
        return false;
    }
    let ext: &[u8] = slice_subrange(&name, stem + 1, name.len());
    assert(ext@ =~= name@.skip(stem + 1));
    let lower: Vec<u8> = to_lowercase(ext);
    is_compressed_extension(&lower)
}

} // verus!
