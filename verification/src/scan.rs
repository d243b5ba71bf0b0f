//! Searching a file for signatures, window by window.

use crate::common::{append, copy_range, matches_at, occurs_at, search_sig};
use crate::runtime::JdvrifError;
use vstd::prelude::*;
use vstd::slice::slice_subrange;

verus! {

/// How much of a file is read at a time.
pub const SCAN_CHUNK_SIZE: usize = 1024 * 1024;

/// A window that slides over a file. The end of each window is carried over to
/// the beginning of the next, so that a match across the seam is seen.
pub struct FileWindows {
    window: Vec<u8>,
    overlap: usize,
    limit: usize,
    consumed: usize,
    start: Ghost<int>,
    seen: Ghost<Seq<u8>>,
}

impl FileWindows {
    /// Where in the file the scan began.
    pub closed spec fn start(self) -> int {
        self.start@
    }

    /// All that was read from there on.
    pub closed spec fn seen(self) -> Seq<u8> {
        self.seen@
    }

    pub closed spec fn overlap(self) -> int {
        self.overlap as int
    }

    /// Where in the file the scan ends; zero for the end of the file.
    pub closed spec fn limit(self) -> int {
        self.limit as int
    }

    pub closed spec fn window(self) -> Seq<u8> {
        self.window@
    }

    pub closed spec fn wf(self) -> bool {
        &&& 0 <= self.start@
        &&& self.consumed == self.start@ + self.seen@.len()
        &&& self.window@.len() <= self.seen@.len()
        &&& self.window@ == self.seen@.skip(self.seen@.len() - self.window@.len())
    }

    /// Only what has to be seen again is left in the window.
    pub closed spec fn carried(self) -> bool {
        self.window@.len() == if self.overlap <= self.seen@.len() {
            self.overlap as int
        } else {
            self.seen@.len() as int
        }
    }

    pub proof fn lemma_wf(self)
        requires
            self.wf(),
        ensures
            0 <= self.start(),
            self.start() + self.seen().len() <= usize::MAX,
            self.window().len() <= self.seen().len(),
            self.window() == self.seen().skip(self.seen().len() - self.window().len()),
    {
    }

    pub fn new(overlap: usize, search_limit: usize, start_offset: usize) -> (r: Self)
        ensures
            r.wf(),
            r.carried(),
            r.start() == start_offset,
            r.seen() == Seq::<u8>::empty(),
            r.overlap() == overlap,
            r.limit() == search_limit,
    {
        let r = FileWindows {
            window: Vec::new(),
            overlap,
            limit: search_limit,
            consumed: start_offset,
            start: Ghost(start_offset as int),
            seen: Ghost(Seq::empty()),
        };
        assert(r.window@ =~= r.seen@.skip(0));
        r
    }

    /// How many bytes are wanted next; none at the end of the scan.
    pub fn to_read(&self) -> (r: usize)
        requires
            self.wf(),
        ensures
            r <= SCAN_CHUNK_SIZE,
            self.limit() == 0 ==> r == SCAN_CHUNK_SIZE,
            self.limit() != 0 ==> r == if self.start() + self.seen().len() >= self.limit() {
                0
            } else if self.limit() - (self.start() + self.seen().len()) < SCAN_CHUNK_SIZE {
                self.limit() - (self.start() + self.seen().len())
            } else {
                SCAN_CHUNK_SIZE as int
            },
    {
        if self.limit == 0 {
            return SCAN_CHUNK_SIZE;
        }
        if self.consumed >= self.limit {
            return 0;
        }
        let left: usize = self.limit - self.consumed;
        if left < SCAN_CHUNK_SIZE {
            left
        } else {
            SCAN_CHUNK_SIZE
        }
    }

    /// Takes the next bytes of the file into the window.
    pub fn present(&mut self, chunk: &[u8])
        requires
            old(self).wf(),
            old(self).carried(),
            old(self).start() + old(self).seen().len() + chunk@.len() <= usize::MAX,
        ensures
            final(self).wf(),
            final(self).start() == old(self).start(),
            final(self).overlap() == old(self).overlap(),
            final(self).limit() == old(self).limit(),
            final(self).seen() == old(self).seen() + chunk@,
            final(self).window() == old(self).window() + chunk@,
            old(self).window().len() == if old(self).overlap() <= old(self).seen().len() {
                old(self).overlap()
            } else {
                old(self).seen().len() as int
            },
    {
        let ghost seen0: Seq<u8> = self.seen@;
        append(&mut self.window, chunk);
        self.consumed = self.consumed + chunk.len();
        self.seen = Ghost(seen0 + chunk@);
        assert(self.window@ =~= self.seen@.skip(self.seen@.len() - self.window@.len()));
    }

    /// The bytes to look at.
    pub fn bytes(&self) -> (r: &[u8])
        ensures
            r@ == self.window(),
    {
        &self.window
    }

    /// Where in the file the window begins.
    pub fn base(&self) -> (r: usize)
        requires
            self.wf(),
        ensures
            r == self.start() + self.seen().len() - self.window().len(),
    {
        self.consumed - self.window.len()
    }

    /// Lets go of all but what has to be seen again.
    pub fn slide(&mut self)
        requires
            old(self).wf(),
            old(self).window().len() == old(self).seen().len() || old(self).window().len()
                >= old(self).overlap(),
        ensures
            final(self).wf(),
            final(self).carried(),
            final(self).start() == old(self).start(),
            final(self).overlap() == old(self).overlap(),
            final(self).limit() == old(self).limit(),
            final(self).seen() == old(self).seen(),
    {
        let carry: usize = if self.overlap < self.window.len() {
            self.overlap
        } else {
            self.window.len()
        };
        self.window = copy_range(&self.window, self.window.len() - carry, self.window.len());
        assert(self.window@ =~= self.seen@.skip(self.seen@.len() - self.window@.len()));
    }
}

/// The end of the part of a file that a scan with this limit looks at.
pub open spec fn scan_end(file_len: int, search_limit: int) -> int {
    if search_limit == 0 || search_limit > file_len {
        file_len
    } else {
        search_limit
    }
}

/// The part of a file that a scan with this limit and beginning looks at.
pub open spec fn scanned_part(file: Seq<u8>, search_limit: int, start: int) -> Seq<u8> {
    if start >= scan_end(file.len() as int, search_limit) {
        Seq::empty()
    } else {
        file.subrange(start, scan_end(file.len() as int, search_limit))
    }
}

/// `r` is where in the file the first match in the scanned part stands.
pub open spec fn is_match_in_file(
    file: Seq<u8>,
    sig: Seq<u8>,
    search_limit: int,
    start: int,
    r: Option<usize>,
) -> bool {
    let part = scanned_part(file, search_limit, start);
    match r {
        Some(i) => {
            &&& start <= i
            &&& occurs_at(part, sig, i - start)
            &&& forall|j: int| 0 <= j < i - start ==> !occurs_at(part, sig, j)
        },
        None => sig.len() == 0 || forall|j: int| !occurs_at(part, sig, j),
    }
}

/// The first position of `sig` in a file, looking from `start_offset` up to
/// `search_limit`, where that is not zero. A match lies wholly in that part; an
/// empty signature is found nowhere.
pub fn find_signature_in_file(
    file: &[u8],
    sig: &[u8],
    search_limit: usize,
    start_offset: usize,
) -> (r: Option<usize>)
    ensures
        is_match_in_file(file@, sig@, search_limit as int, start_offset as int, r),
        sig@.len() == 0 ==> r is None,
{
    if sig.len() == 0 {
        return None;
    }
    let ghost part: Seq<u8> = scanned_part(file@, search_limit as int, start_offset as int);
    if search_limit != 0 && search_limit <= start_offset {
        assert(forall|j: int| !occurs_at(part, sig@, j));
        return None;
    }
    let mut windows = FileWindows::new(sig.len() - 1, search_limit, start_offset);
    assert(part.take(0) =~= Seq::<u8>::empty());
    loop
        invariant
            part == scanned_part(file@, search_limit as int, start_offset as int),
            sig@.len() > 0,
            search_limit == 0 || search_limit > start_offset,
            windows.wf(),
            windows.carried(),
            windows.start() == start_offset,
            windows.overlap() == sig@.len() - 1,
            windows.limit() == search_limit,
            windows.seen().len() <= part.len(),
            windows.seen() == part.take(windows.seen().len() as int),
            forall|j: int| !occurs_at(windows.seen(), sig@, j),
        decreases part.len() - windows.seen().len(),
    {
        let ghost seen: Seq<u8> = windows.seen();
        proof {
            windows.lemma_wf();
        }
        let want: usize = windows.to_read();
        let from: usize = windows.base() + windows.bytes().len();
        let have: usize = if from < file.len() {
            file.len() - from
        } else {
            0
        };
        let got: usize = if want < have {
            want
        } else {
            have
        };
        if got == 0 {
            assert(seen =~= part);
            return None;
        }
        windows.present(slice_subrange(file, from, from + got));
        proof {
            windows.lemma_wf();
            assert(windows.seen() =~= part.take(windows.seen().len() as int));
        }
        let ghost all: Seq<u8> = windows.seen();
        let ghost shift: int = all.len() - windows.window().len();
        let found: Option<usize> = search_sig(windows.bytes(), sig);
        proof {
            // What does not lie in the window has been looked at before.
            assert forall|j: int| occurs_at(all, sig@, j) implies j >= shift && occurs_at(
                windows.window(),
                sig@,
                j - shift,
            ) by {
                if j + sig@.len() <= seen.len() {
                    assert(seen.subrange(j, j + sig@.len()) =~= all.subrange(j, j + sig@.len()));
                    assert(occurs_at(seen, sig@, j));
                }
                assert(windows.window().subrange(j - shift, j - shift + sig@.len()) =~= all.subrange(
                    j,
                    j + sig@.len(),
                ));
            }
            assert forall|j: int| occurs_at(all, sig@, j) implies occurs_at(part, sig@, j) by {
                assert(part.subrange(j, j + sig@.len()) =~= all.subrange(j, j + sig@.len()));
            }
        }
        if let Some(pos) = found {
            proof {
                let i = shift + pos;
                assert(all.subrange(i, i + sig@.len()) =~= windows.window().subrange(
                    pos as int,
                    pos + sig@.len(),
                ));
                assert(occurs_at(all, sig@, i));
                assert forall|j: int| 0 <= j < i implies !occurs_at(part, sig@, j) by {
                    if occurs_at(part, sig@, j) {
                        assert(part.subrange(j, j + sig@.len()) =~= all.subrange(
                            j,
                            j + sig@.len(),
                        ));
                        assert(occurs_at(all, sig@, j));
                    }
                }
            }
            return Some(windows.base() + pos);
        }
        assert forall|j: int| !occurs_at(all, sig@, j) by {
            if occurs_at(all, sig@, j) {
                assert(occurs_at(windows.window(), sig@, j - shift));
            }
        }
        windows.slide();
    }
}

/// Whether both signatures stand in `s`, the second one `offset` behind the
/// beginning of the first, which is at `i`.
pub open spec fn pair_occurs_at(
    s: Seq<u8>,
    first: Seq<u8>,
    second: Seq<u8>,
    offset: int,
    i: int,
) -> bool {
    occurs_at(s, first, i) && occurs_at(s, second, i + offset)
}

/// `r` is the first position of the pair in a file.
pub open spec fn is_pair_match(
    file: Seq<u8>,
    first: Seq<u8>,
    second: Seq<u8>,
    offset: int,
    r: Option<usize>,
) -> bool {
    match r {
        Some(i) => {
            &&& pair_occurs_at(file, first, second, offset, i as int)
            &&& forall|j: int| 0 <= j < i ==> !pair_occurs_at(file, first, second, offset, j)
        },
        None => forall|j: int| !pair_occurs_at(file, first, second, offset, j),
    }
}

/// The first position of the pair in a window, where it can be verified there.
fn search_pair(
    window: &[u8],
    first_sig: &[u8],
    second_sig: &[u8],
    second_sig_offset: usize,
) -> (r: Option<usize>)
    requires
        0 < first_sig@.len() <= second_sig_offset,
        0 < second_sig@.len(),
        second_sig_offset + second_sig@.len() <= usize::MAX,
    ensures
        is_pair_match(window@, first_sig@, second_sig@, second_sig_offset as int, r),
{
    let verify_span: usize = second_sig_offset + second_sig.len();
    let mut pos: usize = 0;
    while pos < window.len()
        invariant
            pos <= window.len(),
            0 < first_sig@.len() <= second_sig_offset,
            0 < second_sig@.len(),
            verify_span == second_sig_offset + second_sig@.len(),
            forall|j: int|
                0 <= j < pos ==> !pair_occurs_at(
                    window@,
                    first_sig@,
                    second_sig@,
                    second_sig_offset as int,
                    j,
                ),
        decreases window@.len() - pos,
    {
        let rest: &[u8] = slice_subrange(window, pos, window.len());
        let found: Option<usize> = search_sig(rest, first_sig);
        proof {
            assert forall|j: int| pos <= j && occurs_at(window@, first_sig@, j) implies occurs_at(
                rest@,
                first_sig@,
                j - pos,
            ) by {
                assert(rest@.subrange(j - pos, j - pos + first_sig@.len()) =~= window@.subrange(
                    j,
                    j + first_sig@.len(),
                ));
            }
        }
        match found {
            None => {
                return None;
            },
            Some(rel) => {
                let candidate: usize = pos + rel;
                assert(window@.subrange(candidate as int, candidate + first_sig@.len())
                    =~= rest@.subrange(rel as int, rel + first_sig@.len()));
                assert(forall|j: int|
                    pos <= j < candidate ==> !occurs_at(window@, first_sig@, j));
                if window.len() - candidate < verify_span {
                    return None;
                }
                if matches_at(window, second_sig, candidate + second_sig_offset) {
                    return Some(candidate);
                }
                pos = candidate + 1;
            },
        }
    }
    None
}

/// Single forward scan for the first occurrence of `first_sig` that also has
/// `second_sig` at a fixed distance. A candidate whose verification range
/// crosses the window edge is presented again at the start of the next window,
/// so a file full of decoys costs one scan.
pub fn find_signature_pair_in_file(
    file: &[u8],
    first_sig: &[u8],
    second_sig: &[u8],
    second_sig_offset: usize,
) -> (r: Result<Option<usize>, JdvrifError>)
    ensures
        if first_sig@.len() == 0 || second_sig@.len() == 0 || second_sig_offset < first_sig@.len() {
            r == Ok::<Option<usize>, JdvrifError>(None)
        } else if second_sig_offset + second_sig@.len() > usize::MAX {
            r == Err::<Option<usize>, JdvrifError>(JdvrifError::SignatureScanOverflow)
        } else {
            r is Ok && is_pair_match(
                file@,
                first_sig@,
                second_sig@,
                second_sig_offset as int,
                r->Ok_0,
            )
        },
{
    if first_sig.len() == 0 || second_sig.len() == 0 || second_sig_offset < first_sig.len() {
        return Ok(None);
    }
    // Bytes needed from a candidate's start to verify both signatures.
    let verify_span: usize = match second_sig_offset.checked_add(second_sig.len()) {
        Some(v) => v,
        None => {
            return Err(JdvrifError::SignatureScanOverflow);
        },
    };
    let ghost off: int = second_sig_offset as int;
    let mut windows = FileWindows::new(verify_span - 1, 0, 0);
    assert(file@.take(0) =~= Seq::<u8>::empty());
    loop
        invariant
            0 < first_sig@.len() <= second_sig_offset,
            0 < second_sig@.len(),
            verify_span == second_sig_offset + second_sig@.len(),
            off == second_sig_offset,
            windows.wf(),
            windows.carried(),
            windows.start() == 0,
            windows.overlap() == verify_span - 1,
            windows.limit() == 0,
            windows.seen().len() <= file@.len(),
            windows.seen() == file@.take(windows.seen().len() as int),
            forall|j: int| !pair_occurs_at(windows.seen(), first_sig@, second_sig@, off, j),
        decreases file@.len() - windows.seen().len(),
    {
        let ghost seen: Seq<u8> = windows.seen();
        proof {
            windows.lemma_wf();
        }
        let want: usize = windows.to_read();
        let from: usize = windows.base() + windows.bytes().len();
        let have: usize = file.len() - from;
        let got: usize = if want < have {
            want
        } else {
            have
        };
        if got == 0 {
            assert(seen =~= file@);
            return Ok(None);
        }
        windows.present(slice_subrange(file, from, from + got));
        proof {
            windows.lemma_wf();
            assert(windows.seen() =~= file@.take(windows.seen().len() as int));
        }
        let ghost all: Seq<u8> = windows.seen();
        let ghost w: Seq<u8> = windows.window();
        let ghost shift: int = all.len() - w.len();
        let found: Option<usize> = search_pair(
            windows.bytes(),
            first_sig,
            second_sig,
            second_sig_offset,
        );
        proof {
            assert forall|j: int| pair_occurs_at(all, first_sig@, second_sig@, off, j) implies j
                >= shift && pair_occurs_at(w, first_sig@, second_sig@, off, j - shift) by {
                if j + verify_span <= seen.len() {
                    assert(seen.subrange(j, j + first_sig@.len()) =~= all.subrange(
                        j,
                        j + first_sig@.len(),
                    ));
                    assert(seen.subrange(j + off, j + off + second_sig@.len()) =~= all.subrange(
                        j + off,
                        j + off + second_sig@.len(),
                    ));
                    assert(pair_occurs_at(seen, first_sig@, second_sig@, off, j));
                }
                assert(w.subrange(j - shift, j - shift + first_sig@.len()) =~= all.subrange(
                    j,
                    j + first_sig@.len(),
                ));
                assert(w.subrange(j - shift + off, j - shift + off + second_sig@.len())
                    =~= all.subrange(j + off, j + off + second_sig@.len()));
            }
        }
        if let Some(pos) = found {
            proof {
                let i = shift + pos;
                assert(file@.subrange(i, i + first_sig@.len()) =~= w.subrange(
                    pos as int,
                    pos + first_sig@.len(),
                ));
                assert(file@.subrange(i + off, i + off + second_sig@.len()) =~= w.subrange(
                    pos + off,
                    pos + off + second_sig@.len(),
                ));
                assert forall|j: int| 0 <= j < i implies !pair_occurs_at(
                    file@,
                    first_sig@,
                    second_sig@,
                    off,
                    j,
                ) by {
                    if pair_occurs_at(file@, first_sig@, second_sig@, off, j) {
                        assert(file@.subrange(j, j + first_sig@.len()) =~= all.subrange(
                            j,
                            j + first_sig@.len(),
                        ));
                        assert(file@.subrange(j + off, j + off + second_sig@.len())
                            =~= all.subrange(j + off, j + off + second_sig@.len()));
                        assert(pair_occurs_at(all, first_sig@, second_sig@, off, j));
                    }
                }
            }
            return Ok(Some(windows.base() + pos));
        }
        assert forall|j: int| !pair_occurs_at(all, first_sig@, second_sig@, off, j) by {
            if pair_occurs_at(all, first_sig@, second_sig@, off, j) {
                assert(pair_occurs_at(w, first_sig@, second_sig@, off, j - shift));
            }
        }
        windows.slide();
    }
}

} // verus!
