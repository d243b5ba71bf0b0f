//! The filename prefix in front of every decrypted payload: one length byte,
//! then the name.

use crate::common::append_range;
use crate::runtime::JdvrifError;
use vstd::prelude::*;

verus! {

/// Whether the text begins with a name of no length, which no payload does.
pub open spec fn has_empty_name(text: Seq<u8>) -> bool {
    text.len() > 0 && text[0] == 0
}

/// The name in front of the payload, once all of it is there.
pub open spec fn prefixed_name(text: Seq<u8>) -> Option<Seq<u8>> {
    if text.len() > 0 && text.len() >= 1 + text[0] {
        Some(text.subrange(1, 1 + text[0]))
    } else {
        None
    }
}

/// What follows the name.
pub open spec fn payload_of(text: Seq<u8>) -> Seq<u8> {
    if text.len() > 0 && text.len() >= 1 + text[0] {
        text.skip(1 + text[0])
    } else {
        Seq::empty()
    }
}

/// A name of a length that one byte can tell, and the payload behind it.
pub open spec fn with_name(name: Seq<u8>, payload: Seq<u8>) -> Seq<u8> {
    seq![name.len() as u8] + name + payload
}

/// Name and payload can be told apart again.
pub proof fn lemma_with_name(name: Seq<u8>, payload: Seq<u8>)
    requires
        0 < name.len() < 256,
    ensures
        !has_empty_name(with_name(name, payload)),
        prefixed_name(with_name(name, payload)) == Some(name),
        payload_of(with_name(name, payload)) == payload,
{
    let text = with_name(name, payload);
    assert(text[0] == name.len());
    assert(text.subrange(1, 1 + name.len() as int) =~= name);
    assert(text.skip(1 + name.len() as int) =~= payload);
}

/// The payload of a longer text begins with that of a shorter one.
pub proof fn lemma_payload_prefix(text: Seq<u8>, longer: Seq<u8>)
    requires
        text.is_prefix_of(longer),
    ensures
        payload_of(text).is_prefix_of(payload_of(longer)),
        has_empty_name(text) ==> has_empty_name(longer),
{
    if text.len() > 0 {
        assert(text[0] == longer[0]);
        if text.len() >= 1 + text[0] {
            assert(payload_of(text) =~= payload_of(longer).take(payload_of(text).len() as int));
        }
    }
}

/// Splits a text that arrives in pieces into the filename and the payload.
pub struct FilenamePrefixExtractor {
    has_length: bool,
    expected_len: usize,
    filename: Vec<u8>,
    seen: Ghost<Seq<u8>>,
}

impl FilenamePrefixExtractor {
    /// The whole text so far.
    pub closed spec fn seen(self) -> Seq<u8> {
        self.seen@
    }

    pub closed spec fn wf(self) -> bool {
        &&& self.has_length == (self.seen@.len() > 0)
        &&& self.has_length ==> self.expected_len == self.seen@[0] && self.expected_len > 0
        &&& self.has_length ==> self.filename@ == self.seen@.subrange(
            1,
            if 1 + self.expected_len <= self.seen@.len() {
                1 + self.expected_len as int
            } else {
                self.seen@.len() as int
            },
        )
        &&& !self.has_length ==> self.filename@.len() == 0
    }

    pub proof fn lemma_wf(self)
        requires
            self.wf(),
        ensures
            !has_empty_name(self.seen()),
    {
    }

    pub fn new() -> (r: Self)
        ensures
            r.wf(),
            r.seen() == Seq::<u8>::empty(),
    {
        FilenamePrefixExtractor {
            has_length: false,
            expected_len: 0,
            filename: Vec::new(),
            seen: Ghost(Seq::empty()),
        }
    }

    /// Takes the next piece of the text and returns where in it the payload
    /// goes on; an empty name is refused.
    pub fn consume(&mut self, chunk: &[u8]) -> (r: Result<usize, JdvrifError>)
        requires
            old(self).wf(),
        ensures
            has_empty_name(old(self).seen() + chunk@) ==> r == Err::<usize, JdvrifError>(
                JdvrifError::CorruptFile,
            ),
            !has_empty_name(old(self).seen() + chunk@) ==> {
                &&& r is Ok
                &&& final(self).wf()
                &&& final(self).seen() == old(self).seen() + chunk@
                &&& r->Ok_0 <= chunk@.len()
                &&& payload_of(final(self).seen()) == payload_of(old(self).seen()) + chunk@.skip(
                    r->Ok_0 as int,
                )
            },
    {
        let ghost seen0: Seq<u8> = self.seen@;
        let ghost all: Seq<u8> = seen0 + chunk@;
        let mut pos: usize = 0;
        if !self.has_length {
            if chunk.len() == 0 {
                assert(all =~= seen0);
                assert(chunk@.skip(0) =~= Seq::<u8>::empty());
                assert(payload_of(all) =~= payload_of(seen0) + chunk@.skip(0));
                return Ok(0);
            }
            assert(all[0] == chunk@[0]);
            if chunk[0] == 0 {
                return Err(JdvrifError::CorruptFile);
            }
            self.expected_len = chunk[0] as usize;
            self.has_length = true;
            pos = 1;
        } else {
            assert(all[0] == seen0[0]);
        }
        if self.filename.len() < self.expected_len {
            let need: usize = self.expected_len - self.filename.len();
            let have: usize = chunk.len() - pos;
            let take: usize = if need < have {
                need
            } else {
                have
            };
            append_range(&mut self.filename, chunk, pos, pos + take);
            pos += take;
        }
        self.seen = Ghost(all);
        proof {
            let e = self.expected_len as int;
            assert(self.filename@ =~= all.subrange(
                1,
                if 1 + e <= all.len() {
                    1 + e
                } else {
                    all.len() as int
                },
            ));
            assert(payload_of(all) =~= payload_of(seen0) + chunk@.skip(pos as int));
        }
        Ok(pos)
    }

    pub fn is_complete(&self) -> (r: bool)
        requires
            self.wf(),
        ensures
            r == (prefixed_name(self.seen()) is Some),
    {
        self.has_length && self.filename.len() == self.expected_len
    }

    /// The raw bytes of the name. Whether they are safe to use as a filename is
    /// for the caller to judge.
    pub fn into_filename(self) -> (r: Result<Vec<u8>, JdvrifError>)
        requires
            self.wf(),
        ensures
            match prefixed_name(self.seen()) {
                Some(name) => r is Ok && r->Ok_0@ == name,
                None => r == Err::<Vec<u8>, JdvrifError>(JdvrifError::CorruptFile),
            },
    {
        if !self.is_complete() {
            return Err(JdvrifError::CorruptFile);
        }
        Ok(self.filename)
    }
}

/// How the text is cut into pieces makes no difference to where its payload
/// lies: the payload of two pieces is what the first gives, followed by what the
/// second adds.
pub proof fn law_prefix_ignores_chunking(first: Seq<u8>, second: Seq<u8>)
    ensures
        payload_of(first).is_prefix_of(payload_of(first + second)),
        prefixed_name(first) is Some ==> prefixed_name(first + second) == prefixed_name(first)
            && payload_of(first + second) == payload_of(first) + second,
{
    let all = first + second;
    assert(first =~= all.take(first.len() as int));
    lemma_payload_prefix(first, all);
    if prefixed_name(first) is Some {
        assert(all[0] == first[0]);
        assert(all.subrange(1, 1 + all[0]) =~= first.subrange(1, 1 + first[0]));
        assert(payload_of(all) =~= payload_of(first) + second);
    }
}

} // verus!
