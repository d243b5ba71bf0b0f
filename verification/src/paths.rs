//! Names for output files.

use crate::common::append;
use crate::crypto::randombytes_into;
use crate::runtime::JdvrifError;
use vstd::prelude::*;
use vstd::string::*;

verus! {

/// The hexadecimal digit of a value.
pub open spec fn hex_digit(v: int) -> u8 {
    if v < 10 {
        (0x30 + v) as u8
    } else {
        (0x61 + v - 10) as u8
    }
}

pub open spec fn is_hex_digit(c: u8) -> bool {
    0x30 <= c <= 0x39 || 0x61 <= c <= 0x66
}

/// The first `n` hexadecimal digits of a byte string.
pub open spec fn hex_token(bytes: Seq<u8>, n: nat) -> Seq<u8> {
    Seq::new(
        n,
        |i: int|
            hex_digit(
                if i % 2 == 0 {
                    bytes[i / 2] as int / 16
                } else {
                    bytes[i / 2] as int % 16
                },
            ),
    )
}

/// The first hexadecimal digits of a byte string.
pub fn token_from_bytes(bytes: &[u8], token_hex_chars: usize) -> (r: Vec<u8>)
    requires
        token_hex_chars <= 2 * bytes@.len(),
    ensures
        r@ == hex_token(bytes@, token_hex_chars as nat),
{
    let mut token: Vec<u8> = Vec::new();
    let mut i: usize = 0;
    while i < token_hex_chars
        invariant
            i <= token_hex_chars,
            token_hex_chars <= 2 * bytes@.len(),
            token@ == hex_token(bytes@, i as nat),
        decreases token_hex_chars - i,
    {
        let value: u8 = if i % 2 == 0 {
            bytes[i / 2] / 16
        } else {
            bytes[i / 2] % 16
        };
        token.push(
            if value < 10 {
                0x30 + value
            } else {
                0x61 + (value - 10)
            },
        );
        i += 1;
        assert(token@ =~= hex_token(bytes@, i as nat));
    }
    token
}

/// A random string of hexadecimal digits.
pub fn random_path_token(token_hex_chars: usize) -> (r: Result<Vec<u8>, JdvrifError>)
    ensures
        token_hex_chars == 0 ==> r is Ok,
        match r {
            Ok(token) => {
                &&& token@.len() == token_hex_chars
                &&& forall|i: int| 0 <= i < token@.len() ==> is_hex_digit(#[trigger] token@[i])
            },
            Err(e) => e is RandomPathToken,
        },
{
    if token_hex_chars == 0 {
        return Ok(Vec::new());
    }
    let byte_count: usize = token_hex_chars / 2 + token_hex_chars % 2;
    let mut random_bytes: Vec<u8> = vec![0u8; byte_count];
    match randombytes_into(&mut random_bytes) {
        Ok(_) => {},
        Err(_) => {
            return Err(JdvrifError::RandomPathToken);
        },
    }
    Ok(token_from_bytes(&random_bytes, token_hex_chars))
}

/// A name in a directory; no directory is the current one.
pub open spec fn joined(parent: Seq<u8>, name: Seq<u8>) -> Seq<u8> {
    if parent.len() == 0 || (name.len() > 0 && name[0] == 0x2F) {
        name
    } else if parent.last() == 0x2F {
        parent + name
    } else {
        parent.push(0x2F) + name
    }
}

pub fn join_path(parent: &[u8], name: &[u8]) -> (r: Vec<u8>)
    ensures
        r@ == joined(parent@, name@),
{
    let mut out: Vec<u8> = Vec::new();
    if parent.len() > 0 && !(name.len() > 0 && name[0] == 0x2F) {
        append(&mut out, parent);
        if parent[parent.len() - 1] != 0x2F {
            out.push(0x2F);
        }
    }
    append(&mut out, name);
    assert(out@ =~= joined(parent@, name@));
    out
}

/// A search for a name that is not taken yet. The caller looks whether a
/// candidate exists; the search hands out only so many.
pub struct UniquePathSearch {
    pub parent_dir: Vec<u8>,
    pub prefix: Vec<u8>,
    pub suffix: Vec<u8>,
    pub token_hex_chars: usize,
    pub attempts_left: usize,
}

impl UniquePathSearch {
    /// A candidate is the prefix, a random token and the suffix, in the
    /// directory of the search.
    pub open spec fn is_candidate(self, path: Seq<u8>) -> bool {
        exists|token: Seq<u8>|
            {
                &&& token.len() == self.token_hex_chars
                &&& forall|i: int| 0 <= i < token.len() ==> is_hex_digit(#[trigger] token[i])
                &&& path == #[trigger] joined(
                    self.parent_dir@,
                    self.prefix@ + token + self.suffix@,
                )
            }
    }

    /// The next candidate; none once the attempts are used up, or where the
    /// token would be empty.
    pub fn next_candidate(&mut self) -> (r: Result<Option<Vec<u8>>, JdvrifError>)
        ensures
            final(self).parent_dir == old(self).parent_dir,
            final(self).prefix == old(self).prefix,
            final(self).suffix == old(self).suffix,
            final(self).token_hex_chars == old(self).token_hex_chars,
            if old(self).attempts_left == 0 || old(self).token_hex_chars == 0 {
                r == Ok::<Option<Vec<u8>>, JdvrifError>(None) && final(self).attempts_left == old(
                    self,
                ).attempts_left
            } else {
                final(self).attempts_left == old(self).attempts_left - 1 && match r {
                    Ok(Some(path)) => old(self).is_candidate(path@),
                    Ok(None) => false,
                    Err(e) => e is RandomPathToken,
                }
            },
    {
        if self.attempts_left == 0 || self.token_hex_chars == 0 {
            return Ok(None);
        }
        self.attempts_left = self.attempts_left - 1;
        let token: Vec<u8> = match random_path_token(self.token_hex_chars) {
            Ok(token) => token,
            Err(e) => {
                return Err(e);
            },
        };
        let mut name: Vec<u8> = Vec::new();
        append(&mut name, &self.prefix);
        append(&mut name, &token);
        append(&mut name, &self.suffix);
        assert(name@ =~= self.prefix@ + token@ + self.suffix@);
        Ok(Some(join_path(&self.parent_dir, &name)))
    }
}

/// The beginning of the hidden name that an output is staged under.
pub open spec fn staged_prefix(name: Seq<u8>) -> Seq<u8> {
    seq![0x2Eu8] + name + ".jdvrif_tmp_".spec_bytes()
}

pub fn staged_name_prefix(name: &[u8]) -> (r: Vec<u8>)
    ensures
        r@ == staged_prefix(name@),
{
    let mut out: Vec<u8> = Vec::new();
    out.push(0x2E);
    append(&mut out, name);
    append(&mut out, ".jdvrif_tmp_".as_bytes());
    assert(out@ =~= staged_prefix(name@));
    out
}

} // verus!
