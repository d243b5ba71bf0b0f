//! Names in bytes: what a path names, which names are safe, which files count as
//! compressed, and what recovered and staged files are called.

use crate::decimal::{decimal, decimal_text};
use crate::filename::{
    extension, is_safe_filename, lemma_after_last, lowercase, names_compressed_file,
    path_file_name, stem_len,
};
use crate::paths::{hex_token, joined, staged_prefix, UniquePathSearch};
use crate::recover::output::candidate;
use vstd::prelude::*;
use vstd::string::*;

verus! {

/// Bytes without a slash among them.
pub open spec fn is_component(name: Seq<u8>) -> bool {
    name.len() > 0 && forall|i: int| 0 <= i < name.len() ==> #[trigger] name[i] != 0x2F
}

/// Nothing, or bytes that end in a slash.
pub open spec fn is_directory(dir: Seq<u8>) -> bool {
    dir.len() == 0 || dir[dir.len() - 1] == 0x2F
}

pub open spec fn all_slashes(tail: Seq<u8>) -> bool {
    forall|i: int| 0 <= i < tail.len() ==> #[trigger] tail[i] == 0x2F
}

proof fn lemma_trailing_slashes(path: Seq<u8>, tail: Seq<u8>)
    requires
        all_slashes(tail),
    ensures
        path_file_name(path + tail) == path_file_name(path),
    decreases tail.len(),
{
    if tail.len() == 0 {
        assert(path + tail =~= path);
    } else {
        let whole = path + tail;
        assert(whole.last() == tail[tail.len() - 1]);
        assert(whole.drop_last() =~= path + tail.drop_last());
        lemma_trailing_slashes(path, tail.drop_last());
    }
}

/// A path names its last component. Slashes behind it do not count; a single dot
/// leaves the question to the directory, two dots and no component at all are no
/// name.
pub proof fn law_last_component(dir: Seq<u8>, name: Seq<u8>, tail: Seq<u8>)
    requires
        is_directory(dir),
        is_component(name),
        all_slashes(tail),
    ensures
        name != seq![0x2Eu8] && name != seq![0x2Eu8, 0x2Eu8] ==> path_file_name(dir + name + tail)
            == Some(name),
        name == seq![0x2Eu8] ==> path_file_name(dir + name + tail) == path_file_name(dir),
        name == seq![0x2Eu8, 0x2Eu8] ==> path_file_name(dir + name + tail) is None,
        path_file_name(tail) is None,
{
    let path = dir + name;
    lemma_trailing_slashes(path, tail);
    lemma_trailing_slashes(Seq::empty(), tail);
    assert(Seq::<u8>::empty() + tail =~= tail);
    assert(path.last() == name[name.len() - 1]);
    assert forall|j: int| dir.len() <= j < path.len() implies path[j] != 0x2F by {
        assert(path[j] == name[j - dir.len()]);
    }
    lemma_after_last(path, 0x2F, dir.len() as int);
    assert(path.skip(dir.len() as int) =~= name);
    if name == seq![0x2Eu8] {
        assert(path.drop_last() =~= dir);
    }
}

/// A name is safe exactly when it is not empty, begins with neither a dot nor a
/// dash, and holds no control character, no slash and no backslash.
pub proof fn law_safe_names(name: Seq<u8>)
    ensures
        is_safe_filename(name) <==> name.len() > 0 && name[0] != 0x2E && name[0] != 0x2D
            && forall|i: int|
            0 <= i < name.len() ==> #[trigger] name[i] >= 0x20 && name[i] != 0x7F && name[i] != 0x2F
                && name[i] != 0x5C,
{
    if name.len() > 0 && name[0] != 0x2E && name[0] != 0x2D && forall|i: int|
        0 <= i < name.len() ==> #[trigger] name[i] >= 0x20 && name[i] != 0x7F && name[i] != 0x2F
            && name[i] != 0x5C {
        assert(is_safe_filename(name));
    }
    if is_safe_filename(name) {
        assert forall|i: int| 0 <= i < name.len() implies #[trigger] name[i] >= 0x20 && name[i]
            != 0x7F && name[i] != 0x2F && name[i] != 0x5C by {
            assert(crate::filename::is_filename_byte(name[i]));
        }
    }
}

/// `lower` is `s` with its capital letters made small.
pub open spec fn is_lowercase_of(lower: Seq<u8>, s: Seq<u8>) -> bool {
    &&& lower.len() == s.len()
    &&& forall|i: int|
        0 <= i < s.len() ==> #[trigger] lower[i] == (if 0x41 <= s[i] <= 0x5A {
            s[i] + 0x20
        } else {
            s[i] as int
        })
}

/// A file with an extension counts as compressed exactly when the extension, in
/// small letters, is one of these.
pub proof fn law_compressed_types(dir: Seq<u8>, stem: Seq<u8>, ext: Seq<u8>, lower: Seq<u8>)
    requires
        is_directory(dir),
        is_component(stem),
        is_component(ext),
        forall|i: int| 0 <= i < ext.len() ==> #[trigger] ext[i] != 0x2E,
        is_lowercase_of(lower, ext),
    ensures
        names_compressed_file(dir + (stem + seq![0x2Eu8] + ext)) <==> {
            ||| lower == "zip".spec_bytes()
            ||| lower == "jar".spec_bytes()
            ||| lower == "rar".spec_bytes()
            ||| lower == "7z".spec_bytes()
            ||| lower == "bz2".spec_bytes()
            ||| lower == "gz".spec_bytes()
            ||| lower == "xz".spec_bytes()
            ||| lower == "lz".spec_bytes()
            ||| lower == "lz4".spec_bytes()
            ||| lower == "cab".spec_bytes()
            ||| lower == "rpm".spec_bytes()
            ||| lower == "deb".spec_bytes()
            ||| lower == "mp4".spec_bytes()
            ||| lower == "mp3".spec_bytes()
            ||| lower == "exe".spec_bytes()
            ||| lower == "jpg".spec_bytes()
            ||| lower == "jpeg".spec_bytes()
            ||| lower == "jfif".spec_bytes()
            ||| lower == "png".spec_bytes()
            ||| lower == "webp".spec_bytes()
            ||| lower == "gif".spec_bytes()
            ||| lower == "ogg".spec_bytes()
            ||| lower == "flac".spec_bytes()
        },
{
    let name = stem + seq![0x2Eu8] + ext;
    lemma_extension(stem, ext);
    lemma_component_of_two(stem, ext);
    law_last_component(dir, name, Seq::empty());
    assert(dir + name + Seq::<u8>::empty() =~= dir + name);
    assert(lowercase(ext) =~= lower);
}

/// A file without an extension does not count as compressed; a dot in front of the
/// name begins none.
pub proof fn law_no_extension(dir: Seq<u8>, name: Seq<u8>)
    requires
        is_directory(dir),
        is_component(name),
        name != seq![0x2Eu8],
        forall|i: int| 1 <= i < name.len() ==> #[trigger] name[i] != 0x2E,
    ensures
        !names_compressed_file(dir + name),
{
    law_last_component(dir, name, Seq::empty());
    assert(dir + name + Seq::<u8>::empty() =~= dir + name);
    lemma_no_extension(name);
    if name == seq![0x2Eu8, 0x2Eu8] {
        assert(name[1] == 0x2E);
    }
}

proof fn lemma_no_extension(name: Seq<u8>)
    requires
        name.len() > 0,
        forall|i: int| 1 <= i < name.len() ==> #[trigger] name[i] != 0x2E,
    ensures
        stem_len(name) == name.len(),
        extension(name) is None,
{
    if name[0] == 0x2E {
        lemma_after_last(name, 0x2E, 1);
    } else {
        lemma_after_last(name, 0x2E, 0);
    }
}

proof fn lemma_extension(stem: Seq<u8>, ext: Seq<u8>)
    requires
        stem.len() > 0,
        forall|i: int| 0 <= i < ext.len() ==> #[trigger] ext[i] != 0x2E,
    ensures
        stem_len(stem + seq![0x2Eu8] + ext) == stem.len(),
        extension(stem + seq![0x2Eu8] + ext) == Some(ext),
{
    let name = stem + seq![0x2Eu8] + ext;
    let at = stem.len() as int + 1;
    assert forall|j: int| at <= j < name.len() implies name[j] != 0x2E by {
        assert(name[j] == ext[j - at]);
    }
    lemma_after_last(name, 0x2E, at);
    assert(name.skip(at) =~= ext);
}

proof fn lemma_component_of_two(stem: Seq<u8>, ext: Seq<u8>)
    requires
        is_component(stem),
        is_component(ext),
    ensures
        is_component(stem + seq![0x2Eu8] + ext),
        (stem + seq![0x2Eu8] + ext).len() >= 3,
{
    let name = stem + seq![0x2Eu8] + ext;
    assert forall|i: int| 0 <= i < name.len() implies #[trigger] name[i] != 0x2F by {
        if i < stem.len() {
            assert(name[i] == stem[i]);
        } else if i > stem.len() {
            assert(name[i] == ext[i - stem.len() - 1]);
        }
    }
}

/// Where the name of a recovered file is taken, an underscore and the number of the
/// attempt come behind it, in front of the extension; the first attempt is the name
/// itself.
pub proof fn law_recovered_names(stem: Seq<u8>, ext: Seq<u8>, attempt: nat)
    requires
        is_component(stem),
        is_component(ext),
        forall|i: int| 0 <= i < ext.len() ==> #[trigger] ext[i] != 0x2E,
        attempt > 0,
    ensures
        candidate(stem + seq![0x2Eu8] + ext, 0) == stem + seq![0x2Eu8] + ext,
        candidate(stem + seq![0x2Eu8] + ext, attempt) == stem + seq![0x5Fu8] + decimal(attempt)
            + seq![0x2Eu8] + ext,
        stem != seq![0x2Eu8] && (forall|i: int|
            1 <= i < stem.len() ==> #[trigger] stem[i] != 0x2E) ==> candidate(stem, attempt) == stem
            + seq![0x5Fu8] + decimal(attempt),
{
    let name = stem + seq![0x2Eu8] + ext;
    let none = Seq::<u8>::empty();
    lemma_extension(stem, ext);
    lemma_component_of_two(stem, ext);
    law_last_component(none, name, none);
    assert(none + name + none =~= name);
    assert(candidate(name, attempt) =~= stem + seq![0x5Fu8] + decimal(attempt) + seq![0x2Eu8]
        + ext);
    if stem != seq![0x2Eu8] && forall|i: int| 1 <= i < stem.len() ==> #[trigger] stem[i] != 0x2E {
        lemma_no_extension(stem);
        if stem == seq![0x2Eu8, 0x2Eu8] {
            assert(stem[1] == 0x2E);
        }
        law_last_component(none, stem, none);
        assert(none + stem + none =~= stem);
        assert(candidate(stem, attempt) =~= stem + seq![0x5Fu8] + decimal(attempt));
    }
}

/// A numeral is that of the tens with the last digit behind it; below ten it is the
/// digit alone.
pub proof fn law_numerals(tens: nat, digit: nat)
    requires
        digit < 10,
    ensures
        decimal(digit) == seq![(0x30 + digit) as u8],
        tens > 0 ==> decimal(tens * 10 + digit) == decimal(tens).push((0x30 + digit) as u8),
        decimal_text(digit) == seq![(0x30 + digit) as char],
        tens > 0 ==> decimal_text(tens * 10 + digit) == decimal_text(tens).push(
            (0x30 + digit) as char,
        ),
{
    let n = tens * 10 + digit;
    assert(n / 10 == tens && n % 10 == digit);
}

/// A name in a directory names the file there: the directory in front, one slash
/// between them. Without a directory, and where the name is a path from the root, it
/// is the name alone.
pub proof fn law_joined_paths(parent: Seq<u8>, name: Seq<u8>)
    requires
        is_component(name),
        name != seq![0x2Eu8],
        name != seq![0x2Eu8, 0x2Eu8],
    ensures
        path_file_name(joined(parent, name)) == Some(name),
        joined(Seq::empty(), name) == name,
        parent.len() > 0 && parent[parent.len() - 1] == 0x2F ==> joined(parent, name) == parent
            + name,
        parent.len() > 0 && parent[parent.len() - 1] != 0x2F ==> joined(parent, name) == parent
            + seq![0x2Fu8] + name,
        joined(parent, seq![0x2Fu8] + name) == seq![0x2Fu8] + name,
{
    let none = Seq::<u8>::empty();
    let dir = if parent.len() == 0 || parent[parent.len() - 1] == 0x2F {
        parent
    } else {
        parent + seq![0x2Fu8]
    };
    assert(name[0] != 0x2F);
    assert(joined(parent, name) =~= dir + name);
    law_last_component(dir, name, none);
    assert(dir + name + none =~= dir + name);
}

/// The number that a hexadecimal digit in small letters stands for.
pub open spec fn hex_value(c: u8) -> int {
    if 0x30 <= c <= 0x39 {
        c - 0x30
    } else if 0x61 <= c <= 0x66 {
        c - 0x61 + 10
    } else {
        -1
    }
}

/// A token spells the bytes out, high digit first, and is cut off where it is to be
/// shorter.
pub proof fn law_tokens_spell_the_bytes(bytes: Seq<u8>, n: nat, i: int)
    requires
        n <= 2 * bytes.len(),
        0 <= i,
        2 * i + 1 < n,
    ensures
        hex_token(bytes, n).len() == n,
        hex_value(hex_token(bytes, n)[2 * i]) * 16 + hex_value(hex_token(bytes, n)[2 * i + 1])
            == bytes[i],
        0 <= hex_value(hex_token(bytes, n)[2 * i + 1]) < 16,
        hex_token(bytes, n) == hex_token(bytes, 2 * bytes.len()).take(n as int),
{
    assert((2 * i) / 2 == i && (2 * i) % 2 == 0);
    assert((2 * i + 1) / 2 == i && (2 * i + 1) % 2 == 1);
    assert(hex_token(bytes, n) =~= hex_token(bytes, 2 * bytes.len()).take(n as int));
}

/// A candidate for a new file is a name in the directory of the search: the prefix,
/// so many hexadecimal digits in small letters, the suffix.
pub proof fn law_candidates(search: UniquePathSearch, path: Seq<u8>)
    requires
        search.is_candidate(path),
        is_component(search.prefix@),
        search.prefix@ != seq![0x2Eu8],
        forall|i: int| 0 <= i < search.suffix@.len() ==> #[trigger] search.suffix@[i] != 0x2F,
        search.token_hex_chars > 0,
    ensures
        path_file_name(path) matches Some(name) && {
            let n = search.prefix@.len() as int;
            let m = n + search.token_hex_chars;
            &&& name.len() == m + search.suffix@.len()
            &&& path == joined(search.parent_dir@, name)
            &&& name.take(n) == search.prefix@
            &&& forall|i: int| n <= i < m ==> 0 <= hex_value(#[trigger] name[i]) < 16
            &&& name.skip(m) == search.suffix@
        },
{
    let prefix = search.prefix@;
    let suffix = search.suffix@;
    let token = choose|token: Seq<u8>|
        {
            &&& token.len() == search.token_hex_chars
            &&& forall|i: int|
                0 <= i < token.len() ==> crate::paths::is_hex_digit(#[trigger] token[i])
            &&& path == #[trigger] joined(search.parent_dir@, prefix + token + suffix)
        };
    let name = prefix + token + suffix;
    let n = prefix.len() as int;
    let m = n + token.len();
    assert forall|i: int| n <= i < m implies 0 <= hex_value(#[trigger] name[i]) < 16 by {
        assert(name[i] == token[i - n]);
        assert(crate::paths::is_hex_digit(token[i - n]));
    }
    assert forall|i: int| 0 <= i < name.len() implies #[trigger] name[i] != 0x2F by {
        if i < n {
            assert(name[i] == prefix[i]);
        } else if i >= m {
            assert(name[i] == suffix[i - m]);
        } else {
            assert(0 <= hex_value(name[i]) < 16);
        }
    }
    assert(name[n] == token[0]);
    assert(0 <= hex_value(name[n]) < 16);
    assert(name != seq![0x2Eu8]);
    if name == seq![0x2Eu8, 0x2Eu8] {
        assert(name[n] == 0x2E);
    }
    law_joined_paths(search.parent_dir@, name);
    assert(name.take(n) =~= prefix);
    assert(name.skip(m) =~= suffix);
}

/// A staged file is hidden, and named after the file that it will be.
pub proof fn law_staged_names(name: Seq<u8>)
    ensures
        staged_prefix(name)[0] == 0x2E,
        staged_prefix(name).subrange(1, 1 + name.len() as int) == name,
        staged_prefix(name).skip(1 + name.len() as int) == ".jdvrif_tmp_".spec_bytes(),
{
    assert(staged_prefix(name).subrange(1, 1 + name.len() as int) =~= name);
    assert(staged_prefix(name).skip(1 + name.len() as int) =~= ".jdvrif_tmp_".spec_bytes());
}

} // verus!
