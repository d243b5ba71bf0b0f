//! Writing the output image: buffering, streaming and the final commit.

use crate::common::{append, copy_range};
use crate::runtime::JdvrifError;
use vstd::prelude::*;

verus! {

/// A buffer in front of a file, which coalesces small writes. Each operation
/// hands out the bytes that are to be written to the file now.
pub struct OutputFile {
    buffer: Vec<u8>,
    capacity: usize,
}

impl OutputFile {
    /// The bytes that are not in the file yet.
    pub closed spec fn pending(self) -> Seq<u8> {
        self.buffer@
    }

    pub closed spec fn capacity(self) -> int {
        self.capacity as int
    }

    /// What is pending fits into the buffer.
    pub closed spec fn wf(self) -> bool {
        0 < self.capacity && self.buffer@.len() <= self.capacity
    }

    pub fn create(buffer_capacity: usize) -> (r: Self)
        ensures
            r.wf(),
            r.pending() == Seq::<u8>::empty(),
            r.capacity() == if buffer_capacity == 0 {
                1
            } else {
                buffer_capacity as int
            },
    {
        OutputFile {
            buffer: Vec::new(),
            capacity: if buffer_capacity == 0 {
                1
            } else {
                buffer_capacity
            },
        }
    }

    /// Hands out all that is pending.
    pub fn drain(&mut self) -> (r: Vec<u8>)
        requires
            old(self).wf(),
        ensures
            final(self).wf(),
            final(self).capacity() == old(self).capacity(),
            r@ == old(self).pending(),
            final(self).pending() == Seq::<u8>::empty(),
    {
        let out: Vec<u8> = copy_range(&self.buffer, 0, self.buffer.len());
        self.buffer.clear();
        assert(out@ =~= old(self).buffer@);
        out
    }

    /// Takes bytes for the file. A write that does not fit drives out what is
    /// pending; one as large as the buffer goes straight to the file.
    pub fn write(&mut self, bytes: &[u8]) -> (r: Vec<u8>)
        requires
            old(self).wf(),
        ensures
            final(self).wf(),
            final(self).capacity() == old(self).capacity(),
            r@ + final(self).pending() == old(self).pending() + bytes@,
            ({
                let pending = old(self).pending();
                if bytes@.len() >= old(self).capacity() {
                    r@ == pending + bytes@
                } else if pending.len() + bytes@.len() > old(self).capacity() {
                    r@ == pending
                } else {
                    r@.len() == 0
                }
            }),
    {
        let ghost pending: Seq<u8> = self.buffer@;
        if bytes.len() >= self.capacity {
            let mut out: Vec<u8> = self.drain();
            append(&mut out, bytes);
            assert(out@ + self.buffer@ =~= pending + bytes@);
            return out;
        }
        let mut out: Vec<u8> = Vec::new();
        if self.buffer.len() > self.capacity - bytes.len() {
            out = self.drain();
        }
        append(&mut self.buffer, bytes);
        assert(out@ + self.buffer@ =~= pending + bytes@);
        out
    }
}

/// A region of the encrypted file.
#[derive(Clone, Copy, PartialEq, Eq, Structural, Debug)]
pub struct FileRegion {
    pub offset: usize,
    pub length: usize,
}

/// What is to be done for a piece of the payload: first write these bytes to the
/// file, then append the region of the encrypted file to it, or report that there
/// is none.
pub struct PayloadCopy {
    pub flush: Vec<u8>,
    pub send: Result<FileRegion, JdvrifError>,
}

/// A two-part payload source: an in-memory template prefix, then the encrypted
/// file.
pub struct PayloadSource<'a> {
    template: &'a [u8],
    template_offset: usize,
    encrypted_fd: i32,
    encrypted_offset: usize,
    encrypted_left: usize,
}

impl<'a> PayloadSource<'a> {
    pub closed spec fn template(self) -> Seq<u8> {
        self.template@
    }

    pub closed spec fn encrypted_size(self) -> int {
        self.encrypted_offset + self.encrypted_left
    }

    /// How many bytes of the payload have been handed out.
    pub closed spec fn position(self) -> int {
        self.template_offset + self.encrypted_offset
    }

    /// Descriptor of the encrypted file.
    pub closed spec fn fd(self) -> i32 {
        self.encrypted_fd
    }

    /// Nothing of the encrypted file is handed out before the template is.
    pub closed spec fn wf(self) -> bool {
        &&& self.template_offset <= self.template@.len()
        &&& self.encrypted_offset + self.encrypted_left <= usize::MAX
        &&& self.encrypted_offset > 0 ==> self.template_offset == self.template@.len()
    }

    pub fn new(template: &'a [u8], encrypted_fd: i32, encrypted_size: usize) -> (r: Self)
        ensures
            r.wf(),
            r.template() == template@,
            r.encrypted_size() == encrypted_size,
            r.fd() == encrypted_fd,
            r.position() == 0,
    {
        PayloadSource {
            template,
            template_offset: 0,
            encrypted_fd,
            encrypted_offset: 0,
            encrypted_left: encrypted_size,
        }
    }

    pub fn encrypted_fd(&self) -> (r: i32)
        ensures
            r == self.fd(),
    {
        self.encrypted_fd
    }

    /// The next `size` bytes of the payload: what is left of the template goes
    /// through the buffer, the rest is a region of the encrypted file, in front
    /// of which the buffer is emptied. Where the encrypted file is too short,
    /// only the template part has been taken, and goes to the output all the same.
    pub fn copy_to(&mut self, out: &mut OutputFile, size: usize) -> (r: PayloadCopy)
        requires
            old(self).wf(),
            old(out).wf(),
        ensures
            final(self).wf(),
            final(out).wf(),
            final(out).capacity() == old(out).capacity(),
            final(self).template() == old(self).template(),
            final(self).encrypted_size() == old(self).encrypted_size(),
            final(self).fd() == old(self).fd(),
            r.flush@ + final(out).pending() == old(out).pending() + template_part(
                old(self).template(),
                old(self).position(),
                size as int,
            ),
            ({
                let template_len = old(self).template().len() as int;
                let begin = old(self).position();
                if begin + size > template_len + old(self).encrypted_size() {
                    &&& r.send == Err::<FileRegion, JdvrifError>(JdvrifError::PayloadShort)
                    &&& final(self).position() == if begin < template_len {
                        template_len
                    } else {
                        begin
                    }
                } else {
                    &&& final(self).position() == begin + size
                    &&& r.send matches Ok(region)
                    &&& region.length == payload_from_file(template_len, begin, size as int)
                    &&& region.length > 0 ==> region.offset + template_len == begin + size
                        - region.length
                    &&& region.length > 0 ==> final(out).pending().len() == 0
                }
            }),
    {
        let ghost begin: int = self.template_offset + self.encrypted_offset;
        let mut left: usize = size;
        let mut flush: Vec<u8> = Vec::new();
        let ghost pending: Seq<u8> = out.pending();
        let ghost part: Seq<u8> = template_part(self.template@, begin, size as int);
        if self.template_offset < self.template.len() {
            let rest: usize = self.template.len() - self.template_offset;
            let take: usize = if left < rest {
                left
            } else {
                rest
            };
            let piece: Vec<u8> = copy_range(
                self.template,
                self.template_offset,
                self.template_offset + take,
            );
            assert(piece@ =~= part);
            flush = out.write(&piece);
            self.template_offset = self.template_offset + take;
            left = left - take;
        } else {
            assert(part =~= Seq::<u8>::empty());
            assert(flush@ + out.pending() =~= pending + part);
        }
        let offset: usize = self.encrypted_offset;
        if left > 0 {
            if left > self.encrypted_left {
                return PayloadCopy { flush, send: Err(JdvrifError::PayloadShort) };
            }
            let mut buffered: Vec<u8> = out.drain();
            flush.append(&mut buffered);
            assert(flush@ + out.pending() =~= pending + part);
            self.encrypted_offset = self.encrypted_offset + left;
            self.encrypted_left = self.encrypted_left - left;
        }
        PayloadCopy { flush, send: Ok(FileRegion { offset, length: left }) }
    }

    pub fn exhausted(&self) -> (r: bool)
        requires
            self.wf(),
        ensures
            r == (self.position() == self.template().len() + self.encrypted_size()),
    {
        self.template_offset == self.template.len() && self.encrypted_left == 0
    }
}

/// The bytes of the template among `size` payload bytes from `begin` on.
pub open spec fn template_part(template: Seq<u8>, begin: int, size: int) -> Seq<u8> {
    if begin >= template.len() {
        Seq::empty()
    } else if begin + size <= template.len() {
        template.subrange(begin, begin + size)
    } else {
        template.skip(begin)
    }
}

/// How many of `size` payload bytes from `begin` on come from the encrypted
/// file.
pub open spec fn payload_from_file(template_len: int, begin: int, size: int) -> int {
    if begin >= template_len {
        size
    } else if begin + size <= template_len {
        0
    } else {
        begin + size - template_len
    }
}

/// The template part and the region of the encrypted file together are the next
/// bytes of the payload, which is the template followed by the encrypted file.
pub proof fn law_payload_is_template_then_file(
    template: Seq<u8>,
    encrypted: Seq<u8>,
    begin: int,
    size: int,
)
    requires
        0 <= begin,
        0 <= size,
        begin + size <= template.len() + encrypted.len(),
    ensures
        ({
            let n = payload_from_file(template.len() as int, begin, size);
            let from = begin + size - n - template.len();
            template_part(template, begin, size) + (if n == 0 {
                Seq::empty()
            } else {
                encrypted.subrange(from, from + n)
            }) == (template + encrypted).subrange(begin, begin + size)
        }),
{
    let n = payload_from_file(template.len() as int, begin, size);
    let from = begin + size - n - template.len();
    let tail = if n == 0 {
        Seq::empty()
    } else {
        encrypted.subrange(from, from + n)
    };
    assert(template_part(template, begin, size) + tail =~= (template + encrypted).subrange(
        begin,
        begin + size,
    ));
}

/// The most that one `sendfile` call moves.
pub const SENDFILE_MAX: usize = 0x7fff_f000;

/// How an attempt to move bytes from one file to another ended.
#[derive(Clone, Copy, PartialEq, Eq, Structural, Debug)]
pub enum SendResult {
    Sent(usize),
    Interrupted,
    /// The kernel cannot do it between these files.
    Unsupported,
    Failed,
}

/// What to do after such an attempt.
#[derive(Clone, Copy, PartialEq, Eq, Structural, Debug)]
pub enum SendStep {
    /// Go on with what is left.
    Again,
    Done,
    /// Copy all of it by reading and writing.
    Fallback,
    Failed(JdvrifError),
}

/// A region of a file that is being appended to the output.
pub struct FileSend {
    offset: usize,
    left: usize,
    length: usize,
}

impl FileSend {
    /// Where the part that is left begins.
    pub closed spec fn offset(self) -> int {
        self.offset as int
    }

    /// How much is left.
    pub closed spec fn left(self) -> int {
        self.left as int
    }

    pub closed spec fn length(self) -> int {
        self.length as int
    }

    /// What was sent and what is left make up the region.
    pub closed spec fn wf(self) -> bool {
        self.left <= self.length && self.offset + self.left <= usize::MAX
    }

    pub fn new(in_offset: usize, length: usize) -> (r: Self)
        requires
            in_offset + length <= usize::MAX,
        ensures
            r.wf(),
            r.offset() == in_offset,
            r.left() == length,
            r.length() == length,
    {
        FileSend { offset: in_offset, left: length, length }
    }

    pub fn is_done(&self) -> (r: bool)
        ensures
            r == (self.left() == 0),
    {
        self.left == 0
    }

    /// Where to send from, and how much at most.
    pub fn next_piece(&self, limit: usize) -> (r: (usize, usize))
        ensures
            r.0 == self.offset(),
            r.1 == if self.left() < limit {
                self.left()
            } else {
                limit as int
            },
    {
        (
            self.offset,
            if self.left < limit {
                self.left
            } else {
                limit
            },
        )
    }

    /// Settles an attempt. Nothing moved means that the file ended too early;
    /// falling back is possible only before anything was moved.
    pub fn settle(&mut self, result: SendResult) -> (r: SendStep)
        requires
            old(self).wf(),
            result matches SendResult::Sent(n) ==> n <= old(self).left(),
        ensures
            final(self).wf(),
            final(self).length() == old(self).length(),
            match result {
                SendResult::Sent(n) => {
                    &&& final(self).offset() == old(self).offset() + n
                    &&& final(self).left() == old(self).left() - n
                    &&& r == if n == 0 {
                        SendStep::Failed(JdvrifError::OutputWrite)
                    } else if final(self).left() == 0 {
                        SendStep::Done
                    } else {
                        SendStep::Again
                    }
                },
                _ => {
                    &&& final(self).offset() == old(self).offset()
                    &&& final(self).left() == old(self).left()
                    &&& r == match result {
                        SendResult::Interrupted => SendStep::Again,
                        SendResult::Unsupported => if old(self).left() == old(self).length() {
                            SendStep::Fallback
                        } else {
                            SendStep::Failed(JdvrifError::OutputWrite)
                        },
                        _ => SendStep::Failed(JdvrifError::OutputWrite),
                    }
                },
            },
    {
        match result {
            SendResult::Sent(n) => {
                self.offset = self.offset + n;
                self.left = self.left - n;
                if n == 0 {
                    return SendStep::Failed(JdvrifError::OutputWrite);
                }
                if self.left == 0 {
                    return SendStep::Done;
                }
                SendStep::Again
            },
            SendResult::Interrupted => SendStep::Again,
            SendResult::Unsupported => {
                if self.left == self.length {
                    return SendStep::Fallback;
                }
                SendStep::Failed(JdvrifError::OutputWrite)
            },
            SendResult::Failed => SendStep::Failed(JdvrifError::OutputWrite),
        }
    }
}

/// How an attempt to link the staged file to its destination ended.
#[derive(Clone, Copy, PartialEq, Eq, Structural, Debug)]
pub enum LinkResult {
    Linked,
    AlreadyExists,
    Failed,
}

/// What to do after such an attempt.
#[derive(Clone, Copy, PartialEq, Eq, Structural, Debug)]
pub enum LinkStep {
    /// Remove the staged name; the destination is in place.
    RemoveStaged,
    /// The destination is taken and stays as it is.
    Refuse,
    /// Links do not work here: copy to a newly created destination.
    Copy,
}

/// Judges the attempt to link: an existing destination is never replaced, and a
/// copy is made only where linking itself does not work.
pub fn after_link(result: LinkResult, destination_exists: bool) -> (r: LinkStep)
    ensures
        r == (match result {
            LinkResult::Linked => LinkStep::RemoveStaged,
            LinkResult::AlreadyExists => if destination_exists {
                LinkStep::Refuse
            } else {
                LinkStep::Copy
            },
            LinkResult::Failed => LinkStep::Copy,
        }),
{
    match result {
        LinkResult::Linked => LinkStep::RemoveStaged,
        LinkResult::AlreadyExists => {
            if destination_exists {
                return LinkStep::Refuse;
            }
            LinkStep::Copy
        },
        LinkResult::Failed => LinkStep::Copy,
    }
}

/// How showing the report and the recovery PIN ended.
#[derive(Clone, Copy, PartialEq, Eq, Structural, Debug)]
pub enum PinDelivery {
    /// All of it was written and flushed.
    Flushed,
    /// It was written, but flushing failed.
    NotFlushed,
    /// Writing failed.
    NotWritten,
    /// A signal came before the PIN was written.
    Interrupted,
}

/// What happens to the hidden image after that.
#[derive(Clone, Copy, PartialEq, Eq, Structural, Debug)]
pub enum DeliveryStep {
    /// Give the image its name.
    Commit,
    /// Remove the hidden image and report the error.
    Discard(JdvrifError),
}

/// Judges the delivery: the image gets its name only once the PIN was written and
/// flushed, so that no image is left that nobody can open.
pub fn after_pin_delivery(delivery: PinDelivery) -> (r: DeliveryStep)
    ensures
        r is Commit <==> delivery is Flushed,
        r == (match delivery {
            PinDelivery::Flushed => DeliveryStep::Commit,
            PinDelivery::Interrupted => DeliveryStep::Discard(JdvrifError::Interrupted),
            _ => DeliveryStep::Discard(JdvrifError::PinNotDelivered),
        }),
{
    match delivery {
        PinDelivery::Flushed => DeliveryStep::Commit,
        PinDelivery::NotFlushed => DeliveryStep::Discard(JdvrifError::PinNotDelivered),
        PinDelivery::NotWritten => DeliveryStep::Discard(JdvrifError::PinNotDelivered),
        PinDelivery::Interrupted => DeliveryStep::Discard(JdvrifError::Interrupted),
    }
}

/// How an attempt to give the staged file its name ended.
#[derive(Clone, Copy, PartialEq, Eq, Structural, Debug)]
pub enum CommitOutcome {
    Committed,
    DestinationExists,
    Failed,
}

/// A fully written image which is still hidden under a temporary name. The
/// recovery PIN has to be delivered before it is committed.
pub struct StagedOutput {
    output_path: Vec<u8>,
    staged_path: Vec<u8>,
    active: bool,
}

impl StagedOutput {
    /// The name that the image will have.
    pub closed spec fn destination(self) -> Seq<u8> {
        self.output_path@
    }

    /// The name that it is hidden under.
    pub closed spec fn staged(self) -> Seq<u8> {
        self.staged_path@
    }

    /// Whether the hidden file is still to be removed when this is let go of.
    pub closed spec fn owns_staged_file(self) -> bool {
        self.active
    }

    pub fn new(output_path: Vec<u8>, staged_path: Vec<u8>) -> (r: Self)
        ensures
            r.destination() == output_path@,
            r.staged() == staged_path@,
            r.owns_staged_file(),
    {
        StagedOutput { output_path, staged_path, active: true }
    }

    pub fn output_path(&self) -> (r: &[u8])
        ensures
            r@ == self.destination(),
    {
        &self.output_path
    }

    pub fn staged_path(&self) -> (r: &[u8])
        ensures
            r@ == self.staged(),
    {
        &self.staged_path
    }

    pub fn is_active(&self) -> (r: bool)
        ensures
            r == self.owns_staged_file(),
    {
        self.active
    }

    /// Settles the commit by how the attempt ended: an existing file is never
    /// replaced, and unless the image got its name the hidden file still has to
    /// be removed.
    pub fn commit(&mut self, outcome: CommitOutcome) -> (r: Result<Vec<u8>, JdvrifError>)
        ensures
            final(self).destination() == old(self).destination(),
            final(self).staged() == old(self).staged(),
            final(self).owns_staged_file() == (old(self).owns_staged_file() && !(outcome
                is Committed)),
            match outcome {
                CommitOutcome::Committed => r is Ok && r->Ok_0@ == old(self).destination(),
                CommitOutcome::DestinationExists => r == Err::<Vec<u8>, JdvrifError>(
                    JdvrifError::CommitExists,
                ),
                CommitOutcome::Failed => r == Err::<Vec<u8>, JdvrifError>(
                    JdvrifError::CommitFailed,
                ),
            },
    {
        match outcome {
            CommitOutcome::Committed => {
                self.active = false;
                let path: Vec<u8> = copy_range(&self.output_path, 0, self.output_path.len());
                assert(path@ =~= self.output_path@);
                Ok(path)
            },
            CommitOutcome::DestinationExists => Err(JdvrifError::CommitExists),
            CommitOutcome::Failed => Err(JdvrifError::CommitFailed),
        }
    }
}

} // verus!
