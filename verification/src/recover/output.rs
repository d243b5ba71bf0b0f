//! The name of the recovered file.

use crate::common::{append, append_range, copy_range};
use crate::decimal::{
    decimal, decimal_text, is_digit, lemma_decimal, lemma_decimal_injective, push_decimal,
    push_decimal_text,
};
use crate::filename::{
    file_name, file_stem_len, has_safe_embedded_filename, is_safe_filename,
    lemma_file_name_has_no_slash, lemma_last_component, lemma_name_is_its_file_name,
    lemma_stem_len, path_file_name, stem_len, SLASH,
};
use crate::runtime::JdvrifError;
use vstd::prelude::*;
use vstd::string::*;

verus! {

/// The last number that is tried behind the name of a recovered file.
pub const MAX_RECOVERY_ATTEMPT: usize = 10000;

/// The name that the recovered file is to be written under. It is handled as raw
/// bytes, so that names that are no text are restored byte for byte.
pub fn safe_recovery_path(decrypted_filename: Vec<u8>) -> (r: Result<Vec<u8>, JdvrifError>)
    ensures
        if is_safe_filename(decrypted_filename@) {
            r is Ok && r->Ok_0@ == decrypted_filename@
        } else {
            r == Err::<Vec<u8>, JdvrifError>(JdvrifError::RecoveredFilenameUnsafe)
        },
{
    if !has_safe_embedded_filename(&decrypted_filename) {
        return Err(JdvrifError::RecoveredFilenameUnsafe);
    }
    Ok(decrypted_filename)
}

/// The name with a number between its stem and its extension.
pub open spec fn numbered(name: Seq<u8>, number: nat) -> Seq<u8> {
    name.take(stem_len(name)) + seq![0x5Fu8] + decimal(number) + name.skip(stem_len(name))
}

/// The name that is tried at an attempt: first the name itself, then its last
/// component with a number, or a name of our own where there is none.
pub open spec fn candidate(name: Seq<u8>, attempt: nat) -> Seq<u8> {
    if attempt == 0 {
        name
    } else {
        match path_file_name(name) {
            Some(file) => numbered(file, attempt),
            None => "recovered".spec_bytes() + seq![0x5Fu8] + decimal(attempt),
        }
    }
}

pub fn recovery_candidate(base_name: &[u8], attempt: usize) -> (r: Vec<u8>)
    ensures
        r@ == candidate(base_name@, attempt as nat),
{
    if attempt == 0 {
        let r: Vec<u8> = copy_range(base_name, 0, base_name.len());
        assert(r@ =~= base_name@);
        return r;
    }
    let mut out: Vec<u8> = Vec::new();
    match file_name(base_name) {
        Some(file) => {
            let stem: usize = file_stem_len(&file);
            append_range(&mut out, &file, 0, stem);
            out.push(0x5F);
            push_decimal(&mut out, attempt as u64);
            append_range(&mut out, &file, stem, file.len());
        },
        None => {
            append(&mut out, "recovered".as_bytes());
            out.push(0x5F);
            push_decimal(&mut out, attempt as u64);
        },
    }
    assert(out@ =~= candidate(base_name@, attempt as nat));
    out
}

/// A numbered name is another one than the name itself.
proof fn lemma_candidate_is_new(name: Seq<u8>, a: nat)
    requires
        a > 0,
    ensures
        candidate(name, a) != name,
{
    let c = candidate(name, a);
    lemma_decimal(a);
    match path_file_name(name) {
        Some(file) => {
            let s = stem_len(file);
            let n = decimal(a).len();
            lemma_stem_len(file);
            lemma_file_name_has_no_slash(name);
            assert(c.len() == file.len() + 1 + n);
            assert forall|i: int| 0 <= i < c.len() implies c[i] != SLASH by {
                if i < s {
                    assert(c[i] == file[i]);
                } else if s < i < s + 1 + n {
                    assert(c[i] == decimal(a)[i - s - 1]);
                    assert(is_digit(decimal(a)[i - s - 1]));
                } else if i > s {
                    assert(c[i] == file[i - 1 - n]);
                }
            }
            lemma_name_is_its_file_name(c);
        },
        None => {
            assert(c.last() == decimal(a).last());
            assert(is_digit(decimal(a)[decimal(a).len() - 1]));
            lemma_last_component(c);
        },
    }
}

/// No name is tried twice.
pub proof fn law_candidates_differ(name: Seq<u8>, a: nat, b: nat)
    requires
        a != b,
    ensures
        candidate(name, a) != candidate(name, b),
{
    lemma_decimal(a);
    lemma_decimal(b);
    if a == 0 {
        lemma_candidate_is_new(name, b);
    } else if b == 0 {
        lemma_candidate_is_new(name, a);
    } else if candidate(name, a) == candidate(name, b) {
        let ca = candidate(name, a);
        let cb = candidate(name, b);
        let rest = match path_file_name(name) {
            Some(file) => file.skip(stem_len(file)),
            None => Seq::<u8>::empty(),
        };
        let stem = match path_file_name(name) {
            Some(file) => file.take(stem_len(file)),
            None => "recovered".spec_bytes(),
        };
        let s = stem.len() as int;
        assert(ca =~= stem + seq![0x5Fu8] + decimal(a) + rest);
        assert(cb =~= stem + seq![0x5Fu8] + decimal(b) + rest);
        assert(ca.len() == s + 1 + decimal(a).len() + rest.len());
        assert(cb.len() == s + 1 + decimal(b).len() + rest.len());
        assert(ca.subrange(s + 1, s + 1 + decimal(a).len()) =~= decimal(a));
        assert(cb.subrange(s + 1, s + 1 + decimal(b).len()) =~= decimal(b));
        lemma_decimal_injective(a, b);
    }
}

/// The search for a free name: the caller tries to give the recovered file the
/// name, which never replaces an existing file.
pub struct RecoveryNames {
    pub base_name: Vec<u8>,
    pub attempt: usize,
}

impl RecoveryNames {
    pub fn new(base_name: Vec<u8>) -> (r: Self)
        ensures
            r.base_name@ == base_name@,
            r.attempt == 0,
    {
        RecoveryNames { base_name, attempt: 0 }
    }

    /// The next name to try, until the numbers are used up.
    pub fn next_name(&mut self) -> (r: Result<Vec<u8>, JdvrifError>)
        ensures
            final(self).base_name@ == old(self).base_name@,
            if old(self).attempt <= MAX_RECOVERY_ATTEMPT {
                &&& r is Ok
                &&& r->Ok_0@ == candidate(old(self).base_name@, old(self).attempt as nat)
                &&& final(self).attempt == old(self).attempt + 1
            } else {
                &&& r == Err::<Vec<u8>, JdvrifError>(JdvrifError::OutputNameExhausted)
                &&& final(self).attempt == old(self).attempt
            },
            r is Ok <==> old(self).attempt <= 10000,
    {
        if self.attempt > MAX_RECOVERY_ATTEMPT {
            return Err(JdvrifError::OutputNameExhausted);
        }
        let name: Vec<u8> = recovery_candidate(&self.base_name, self.attempt);
        self.attempt = self.attempt + 1;
        Ok(name)
    }
}

/// The notice that the file was recovered.
pub open spec fn recovered_notice(output_path: Seq<char>, size: usize) -> Seq<char> {
    "\nExtracted hidden file: "@ + output_path + " ("@ + decimal_text(size as nat)
        + " bytes).\n\nComplete! Please check your file.\n\n"@
}

pub fn recovery_success_text(output_path: &str, output_size: usize) -> (r: String)
    ensures
        r@ == recovered_notice(output_path@, output_size),
{
    let mut out: String = "\nExtracted hidden file: ".to_owned();
    out.append(output_path);
    out.append(" (");
    push_decimal_text(&mut out, output_size as u64);
    out.append(" bytes).\n\nComplete! Please check your file.\n\n");
    out
}

} // verus!
