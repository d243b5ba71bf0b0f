//! Entering the recovery PIN.

use crate::crypto::{wipe_byte, wipe_vec_capacity};
use crate::decimal::{
    all_digits, decimal, decimal_value, is_digit, lemma_decimal, lemma_decimal_value,
    lemma_decimal_value_bounds, pow10,
};
use crate::runtime::JdvrifError;
use vstd::prelude::*;

verus! {

/// No PIN has more digits.
pub const MAX_PIN_LENGTH: usize = 20;

pub const BACKSPACE: u8 = 0x08;

pub const DELETE: u8 = 0x7F;

pub const LINE_FEED: u8 = 0x0A;

pub const CARRIAGE_RETURN: u8 = 0x0D;

/// Wipes a buffer when it goes out of scope, however that comes about.
pub struct WipeVecGuard<'a> {
    pub buf: &'a mut Vec<u8>,
}

impl<'a> WipeVecGuard<'a> {
    /// The guard holds the buffer as it is, and what it leaves in it is what the
    /// caller finds.
    pub fn new(buf: &'a mut Vec<u8>) -> (r: Self)
        ensures
            r.buf@ == old(buf)@,
            *final(r.buf) == *final(buf),
    {
        WipeVecGuard { buf }
    }
}

impl<'a> Drop for WipeVecGuard<'a> {
    fn drop(&mut self)
        ensures
            final(self).buf@.len() == 0,
            *final(final(self).buf) == *final(old(self).buf),
        opens_invariants none
        no_unwind
    {
        wipe_vec_capacity(self.buf);
    }
}

/// Wipes a byte when it goes out of scope, however that comes about.
pub struct WipeByteGuard<'a> {
    pub ch: &'a mut u8,
}

impl<'a> WipeByteGuard<'a> {
    /// The guard holds the byte as it is, and what it leaves in it is what the
    /// caller finds.
    pub fn new(ch: &'a mut u8) -> (r: Self)
        ensures
            *r.ch == *old(ch),
            *final(r.ch) == *final(ch),
    {
        WipeByteGuard { ch }
    }
}

impl<'a> Drop for WipeByteGuard<'a> {
    fn drop(&mut self)
        ensures
            *final(self).ch == 0,
            *final(final(self).ch) == *final(old(self).ch),
        opens_invariants none
        no_unwind
    {
        wipe_byte(self.ch);
    }
}

/// What is shown to the user after a key.
#[derive(Clone, Copy, PartialEq, Eq, Structural, Debug)]
pub enum PinEcho {
    /// The entry is finished.
    Done,
    /// One more star.
    Star,
    /// One star less.
    Erase,
    Nothing,
}

pub open spec fn ends_entry(ch: u8) -> bool {
    ch == LINE_FEED || ch == CARRIAGE_RETURN
}

pub open spec fn erases(ch: u8) -> bool {
    ch == BACKSPACE || ch == DELETE
}

/// The digits that stand after a key: a digit is added, backspace takes the last
/// one back, anything else changes nothing.
pub open spec fn after_key(typed: Seq<u8>, ch: u8) -> Seq<u8> {
    if is_digit(ch) {
        typed.push(ch)
    } else if erases(ch) && typed.len() > 0 {
        typed.drop_last()
    } else {
        typed
    }
}

/// What is shown after a key. Digits past the limit show nothing, and nothing is
/// erased for them.
pub open spec fn echo_of(typed: Seq<u8>, ch: u8) -> PinEcho {
    if ends_entry(ch) {
        PinEcho::Done
    } else if is_digit(ch) && typed.len() < MAX_PIN_LENGTH {
        PinEcho::Star
    } else if erases(ch) && 0 < typed.len() <= MAX_PIN_LENGTH {
        PinEcho::Erase
    } else {
        PinEcho::Nothing
    }
}

/// The PIN that the digits stand for. A PIN is a positive number of 64 bits,
/// written without leading zeros.
pub open spec fn accepted_pin(typed: Seq<u8>) -> Option<u64> {
    if typed.len() > 0 && typed[0] != 0x30 && decimal_value(typed) <= u64::MAX {
        Some(decimal_value(typed) as u64)
    } else {
        None
    }
}

/// A PIN while it is being entered. Digits past the limit are not stored, but
/// they are counted, so that a backspace undoes the key that was pressed last.
pub struct PinEntry {
    digits: Vec<u8>,
    dropped: usize,
    typed: Ghost<Seq<u8>>,
}

impl PinEntry {
    /// All the digits that stand, those past the limit as well.
    pub closed spec fn typed(self) -> Seq<u8> {
        self.typed@
    }

    /// The digits that are kept in memory.
    pub closed spec fn stored(self) -> Seq<u8> {
        self.digits@
    }

    pub closed spec fn wf(self) -> bool {
        &&& all_digits(self.typed@)
        &&& self.digits@.len() <= MAX_PIN_LENGTH
        &&& self.dropped > 0 ==> self.digits@.len() == MAX_PIN_LENGTH
        &&& self.typed@.len() == self.digits@.len() + self.dropped <= usize::MAX
        &&& self.digits@ == self.typed@.take(self.digits@.len() as int)
    }

    /// Room for the longest PIN is set aside at once, so that no digit is ever
    /// copied to another place.
    pub fn new() -> (r: Self)
        ensures
            r.wf(),
            r.typed() == Seq::<u8>::empty(),
    {
        let r = PinEntry {
            digits: Vec::with_capacity(MAX_PIN_LENGTH),
            dropped: 0,
            typed: Ghost(Seq::empty()),
        };
        assert(r.digits@ =~= r.typed@.take(0));
        r
    }

    /// How many digits stand.
    pub fn count(&self) -> (r: usize)
        requires
            self.wf(),
        ensures
            r == self.typed().len(),
    {
        self.digits.len() + self.dropped
    }

    /// Takes a key and says what to show for it.
    pub fn key(&mut self, ch: u8) -> (r: PinEcho)
        requires
            old(self).wf(),
            old(self).typed().len() < usize::MAX,
        ensures
            final(self).wf(),
            r == echo_of(old(self).typed(), ch),
            final(self).typed() == after_key(old(self).typed(), ch),
    {
        let ghost typed: Seq<u8> = self.typed@;
        if ch == LINE_FEED || ch == CARRIAGE_RETURN {
            return PinEcho::Done;
        }
        if 0x30 <= ch && ch <= 0x39 {
            self.typed = Ghost(typed.push(ch));
            if self.digits.len() >= MAX_PIN_LENGTH {
                self.dropped = self.dropped + 1;
                assert(self.digits@ =~= self.typed@.take(self.digits@.len() as int));
                return PinEcho::Nothing;
            }
            self.digits.push(ch);
            assert(self.digits@ =~= self.typed@.take(self.digits@.len() as int));
            return PinEcho::Star;
        }
        if ch == BACKSPACE || ch == DELETE {
            if self.dropped > 0 {
                self.dropped = self.dropped - 1;
                self.typed = Ghost(typed.drop_last());
                assert(self.digits@ =~= self.typed@.take(self.digits@.len() as int));
                return PinEcho::Nothing;
            }
            if self.digits.len() > 0 {
                self.digits.pop();
                self.typed = Ghost(typed.drop_last());
                assert(self.digits@ =~= self.typed@.take(self.digits@.len() as int));
                return PinEcho::Erase;
            }
        }
        PinEcho::Nothing
    }

    /// Reads the PIN. Overlong and leading-zero input is refused rather than
    /// truncated or normalized: no generated PIN looks like that.
    pub fn finish(&self) -> (r: Result<u64, JdvrifError>)
        requires
            self.wf(),
        ensures
            r == (match accepted_pin(self.typed()) {
                Some(pin) => Ok(pin),
                None => Err(JdvrifError::PinFormat),
            }),
    {
        let ghost typed: Seq<u8> = self.typed@;
        if self.digits.len() == 0 {
            return Err(JdvrifError::PinFormat);
        }
        assert(self.digits@[0] == typed[0]);
        if self.dropped > 0 || self.digits[0] == 0x30 {
            proof {
                lemma_decimal_value_bounds(typed);
                if typed[0] != 0x30 {
                    lemma_pow10_monotonic(20, (typed.len() - 1) as nat);
                    reveal_with_fuel(pow10, 21);
                }
            }
            return Err(JdvrifError::PinFormat);
        }
        assert(self.digits@ =~= typed);
        let mut value: u128 = 0;
        let mut i: usize = 0;
        assert(typed.take(0) =~= Seq::<u8>::empty());
        while i < self.digits.len()
            invariant
                i <= self.digits@.len() <= MAX_PIN_LENGTH,
                self.digits@ == typed,
                all_digits(typed),
                value == decimal_value(typed.take(i as int)),
                value < pow10(i as nat),
            decreases self.digits@.len() - i,
        {
            assert(is_digit(typed[i as int]));
            assert(typed.take(i + 1).drop_last() =~= typed.take(i as int));
            proof {
                lemma_pow10_monotonic(i as nat, 20);
                reveal_with_fuel(pow10, 21);
            }
            value = value * 10 + (self.digits[i] - 0x30) as u128;
            i += 1;
        }
        assert(typed.take(i as int) =~= typed);
        if value > u64::MAX as u128 {
            return Err(JdvrifError::PinFormat);
        }
        Ok(value as u64)
    }
}

impl Drop for PinEntry {
    fn drop(&mut self)
        ensures
            final(self).stored().len() == 0,
        opens_invariants none
        no_unwind
    {
        wipe_vec_capacity(&mut self.digits);
    }
}

proof fn lemma_pow10_monotonic(a: nat, b: nat)
    requires
        a <= b,
    ensures
        0 < pow10(a) <= pow10(b),
    decreases b,
{
    if a < b {
        lemma_pow10_monotonic(a, (b - 1) as nat);
    } else if b > 0 {
        lemma_pow10_monotonic((a - 1) as nat, (b - 1) as nat);
    }
}

/// What to do after waiting for a key.
#[derive(Clone, Copy, PartialEq, Eq, Structural, Debug)]
pub enum WaitStep {
    /// A key can be read.
    Read,
    /// Wait again.
    Retry,
    Failed(JdvrifError),
}

/// Judges the end of a wait by its result and, where that is negative, by
/// whether a signal interrupted it. Nothing to read within the time limit and an
/// interruption both mean another wait.
pub fn after_wait(ready: i32, interrupted: bool) -> (r: WaitStep)
    ensures
        r == (if ready > 0 {
            WaitStep::Read
        } else if ready == 0 || interrupted {
            WaitStep::Retry
        } else {
            WaitStep::Failed(JdvrifError::PinWait)
        }),
{
    if ready < 0 {
        if interrupted {
            return WaitStep::Retry;
        }
        return WaitStep::Failed(JdvrifError::PinWait);
    }
    if ready == 0 {
        return WaitStep::Retry;
    }
    WaitStep::Read
}

/// What to do after reading a key.
#[derive(Clone, Copy, PartialEq, Eq, Structural, Debug)]
pub enum ReadStep {
    /// A key was read.
    Key,
    /// There will be no more keys.
    EndOfInput,
    /// Wait again.
    Retry,
    Failed(JdvrifError),
}

/// Judges a read by its result and, where that is negative, by whether it was
/// interrupted or found nothing to read after all.
pub fn after_read(bytes_read: i64, try_again: bool) -> (r: ReadStep)
    ensures
        r == (if bytes_read > 0 {
            ReadStep::Key
        } else if bytes_read == 0 {
            ReadStep::EndOfInput
        } else if try_again {
            ReadStep::Retry
        } else {
            ReadStep::Failed(JdvrifError::PinRead)
        }),
{
    if bytes_read == 0 {
        return ReadStep::EndOfInput;
    }
    if bytes_read < 0 {
        if try_again {
            return ReadStep::Retry;
        }
        return ReadStep::Failed(JdvrifError::PinRead);
    }
    ReadStep::Key
}

/// A PIN that is typed as it was printed is accepted, and nothing else is
/// accepted for it.
pub proof fn law_pin_is_typed_as_printed(pin: u64, typed: Seq<u8>)
    requires
        pin > 0,
        all_digits(typed),
    ensures
        accepted_pin(typed) == Some(pin) <==> typed == decimal(pin as nat),
{
    lemma_decimal(pin as nat);
    if accepted_pin(typed) == Some(pin) {
        lemma_decimal_value(typed);
    }
}

/// Zero is never accepted.
pub proof fn law_pin_is_never_zero(typed: Seq<u8>)
    requires
        all_digits(typed),
    ensures
        accepted_pin(typed) != Some(0u64),
{
    if typed.len() > 0 && typed[0] != 0x30 {
        lemma_decimal_value(typed);
    }
}

/// A backspace undoes the digit before it, past the limit too.
pub proof fn law_backspace_undoes_a_digit(typed: Seq<u8>, digit: u8, erase: u8)
    requires
        is_digit(digit),
        erases(erase),
    ensures
        after_key(after_key(typed, digit), erase) == typed,
{
    assert(typed.push(digit).drop_last() =~= typed);
}

} // verus!
