//! The view of the buffer handed to a highlight script during one
//! recomputation pass: bounds-checked reads and the registration of
//! highlights. Any rejected request fails the whole pass.
use vstd::prelude::*;
use crate::app::{Highlight, marks_fit};
use crate::color::{parse_color, parsed_color};

verus! {

/// Why a request of a highlight script was rejected.
#[derive(Clone, Copy, Debug, PartialEq, Eq, Structural)]
pub enum ScriptError {
    /// The range starts after its end, or ends past the buffer.
    OutOfRange,
    /// A number is read from no byte or from more than eight.
    Width,
    /// A color text names no color.
    Color,
}

/// 256 to the power `n`.
pub open spec fn radix_pow(n: nat) -> nat
    decreases n,
{
    if n == 0 { 1 } else { 256 * radix_pow((n - 1) as nat) }
}

/// The bytes read as an unsigned number, most significant first.
pub open spec fn be_value(b: Seq<u8>) -> nat
    decreases b.len(),
{
    if b.len() == 0 { 0 } else { (be_value(b.drop_last()) * 256 + b.last()) as nat }
}

/// The bytes read as an unsigned number, least significant first.
pub open spec fn le_value(b: Seq<u8>) -> nat
    decreases b.len(),
{
    if b.len() == 0 { 0 } else { (b[0] + 256 * le_value(b.subrange(1, b.len() as int))) as nat }
}

/// `end` when given and not zero, else one past `start`.
pub open spec fn end_or_next(start: int, end: Option<usize>) -> int {
    match end {
        Some(e) if e != 0 => e as int,
        _ => start + 1,
    }
}

/// A color text: empty for none, otherwise a name or code that must parse.
pub open spec fn color_choice(s: Seq<char>) -> Option<Option<ratatui::style::Color>> {
    if s.len() == 0 {
        Some(None)
    } else {
        match parsed_color(s) {
            Some(c) => Some(Some(c)),
            None => None,
        }
    }
}

pub proof fn lemma_radix_pow_grows(n: nat)
    ensures
        radix_pow(n) >= 1,
        radix_pow(n + 1) == 256 * radix_pow(n),
    decreases n,
{
    if n > 0 {
        lemma_radix_pow_grows((n - 1) as nat);
    }
}

pub proof fn lemma_radix_pow_eight()
    ensures
        radix_pow(8) == 0x1_0000_0000_0000_0000,
{
    reveal_with_fuel(radix_pow, 9);
}

pub proof fn lemma_radix_pow_mono(m: nat, n: nat)
    requires
        m <= n,
    ensures
        radix_pow(m) <= radix_pow(n),
    decreases n - m,
{
    if m < n {
        lemma_radix_pow_mono(m, (n - 1) as nat);
        lemma_radix_pow_grows((n - 1) as nat);
    }
}

pub struct ScriptView<'a> {
    data: &'a [u8],
    highlights: Vec<Highlight>,
    failed: bool,
}

impl<'a> ScriptView<'a> {
    pub closed spec fn bytes(&self) -> Seq<u8> {
        self.data@
    }

    pub closed spec fn marks(&self) -> Seq<Highlight> {
        self.highlights@
    }

    /// A request of this pass was rejected.
    pub closed spec fn has_failed(&self) -> bool {
        self.failed
    }

    pub closed spec fn well_formed(&self) -> bool {
        marks_fit(self.highlights@, self.data@.len() as int)
    }

    /// A view with nothing registered yet.
    pub fn new(data: &'a [u8]) -> (r: ScriptView<'a>)
        ensures
            r.bytes() == data@,
            r.marks().len() == 0,
            !r.has_failed(),
            r.well_formed(),
    {
        ScriptView { data, highlights: Vec::new(), failed: false }
    }

    /// Checks `start <= end <= len`; a violation fails the pass.
    pub fn check(&mut self, start: usize, end: usize) -> (r: Result<(), ScriptError>)
        requires
            old(self).well_formed(),
        ensures
            final(self).well_formed(),
            final(self).bytes() == old(self).bytes(),
            final(self).marks() == old(self).marks(),
            r is Ok <==> start <= end <= old(self).bytes().len(),
            r is Err ==> r == Err::<(), ScriptError>(ScriptError::OutOfRange),
            final(self).has_failed() == (old(self).has_failed() || r is Err),
    {
        if start <= end && end <= self.data.len() {
            Ok(())
        } else {
            self.failed = true;
            Err(ScriptError::OutOfRange)
        }
    }

    /// The bytes `start..end`.
    pub fn read(&mut self, start: usize, end: usize) -> (r: Result<Vec<u8>, ScriptError>)
        requires
            old(self).well_formed(),
        ensures
            final(self).well_formed(),
            final(self).bytes() == old(self).bytes(),
            final(self).marks() == old(self).marks(),
            match r {
                Ok(v) => start <= end <= old(self).bytes().len() && v@ == old(self).bytes().subrange(
                    start as int,
                    end as int,
                ),
                Err(e) => !(start <= end <= old(self).bytes().len()) && e == ScriptError::OutOfRange,
            },
            final(self).has_failed() == (old(self).has_failed() || r is Err),
    {
        self.check(start, end)?;
        let mut out: Vec<u8> = Vec::new();
        let mut i: usize = start;
        while i < end
            invariant
                start <= i <= end <= self.data@.len(),
                out@ == self.data@.subrange(start as int, i as int),
            decreases end - i,
        {
            out.push(self.data[i]);
            assert(self.data@.subrange(start as int, i + 1) == self.data@.subrange(start as int, i as int).push(self.data@[i as int]));
            i = i + 1;
        }
        Ok(out)
    }

    /// Resolves the end of a number read, and checks its range and width.
    fn number_range(&mut self, start: usize, end: Option<usize>) -> (r: Result<usize, ScriptError>)
        requires
            old(self).well_formed(),
        ensures
            final(self).well_formed(),
            final(self).bytes() == old(self).bytes(),
            final(self).marks() == old(self).marks(),
            match r {
                Ok(e) => e == end_or_next(start as int, end) && start < e <= old(self).bytes().len()
                    && e - start <= 8,
                Err(err) => if !(start <= end_or_next(start as int, end) <= old(self).bytes().len()) {
                    err == ScriptError::OutOfRange
                } else {
                    err == ScriptError::Width && (end_or_next(start as int, end) == start
                        || end_or_next(start as int, end) - start > 8)
                },
            },
            final(self).has_failed() == (old(self).has_failed() || r is Err),
    {
        let e = match end {
            Some(e) if e != 0 => e,
            _ => {
                if start == usize::MAX {
                    let n = self.data.len();
                    self.failed = true;
                    return Err(ScriptError::OutOfRange);
                }
                start + 1
            },
        };
        self.check(start, e)?;
        if e == start || e - start > 8 {
            self.failed = true;
            return Err(ScriptError::Width);
        }
        Ok(e)
    }

    /// The bytes `start..end` (`end` defaults to one past `start`) read as an
    /// unsigned big-endian number of one to eight bytes.
    pub fn read_be(&mut self, start: usize, end: Option<usize>) -> (r: Result<u64, ScriptError>)
        requires
            old(self).well_formed(),
        ensures
            final(self).well_formed(),
            final(self).bytes() == old(self).bytes(),
            final(self).marks() == old(self).marks(),
            match r {
                Ok(v) => start < end_or_next(start as int, end) <= old(self).bytes().len()
                    && end_or_next(start as int, end) - start <= 8 && v == be_value(
                    old(self).bytes().subrange(start as int, end_or_next(start as int, end)),
                ),
                Err(err) => if !(start <= end_or_next(start as int, end) <= old(self).bytes().len()) {
                    err == ScriptError::OutOfRange
                } else {
                    err == ScriptError::Width && (end_or_next(start as int, end) == start
                        || end_or_next(start as int, end) - start > 8)
                },
            },
            final(self).has_failed() == (old(self).has_failed() || r is Err),
    {
        let e = self.number_range(start, end)?;
        let mut acc: u64 = 0;
        let mut i: usize = start;
        while i < e
            invariant
                start <= i <= e <= self.data@.len(),
                e - start <= 8,
                acc == be_value(self.data@.subrange(start as int, i as int)),
                acc < radix_pow((i - start) as nat),
            decreases e - i,
        {
            let ghost k = (i - start) as nat;
            proof {
                lemma_radix_pow_grows(k);
                lemma_radix_pow_mono(k + 1, 8);
                lemma_radix_pow_eight();
                let b = self.data@.subrange(start as int, i + 1);
                assert(b.drop_last() == self.data@.subrange(start as int, i as int));
                assert(b.last() == self.data@[i as int]);
                assert(acc * 256 + 255 < radix_pow(k + 1)) by (nonlinear_arith)
                    requires acc < radix_pow(k), radix_pow(k + 1) == 256 * radix_pow(k);
            }
            acc = acc * 256 + self.data[i] as u64;
            i = i + 1;
        }
        Ok(acc)
    }

    /// The bytes `start..end` (`end` defaults to one past `start`) read as an
    /// unsigned little-endian number of one to eight bytes.
    pub fn read_le(&mut self, start: usize, end: Option<usize>) -> (r: Result<u64, ScriptError>)
        requires
            old(self).well_formed(),
        ensures
            final(self).well_formed(),
            final(self).bytes() == old(self).bytes(),
            final(self).marks() == old(self).marks(),
            match r {
                Ok(v) => start < end_or_next(start as int, end) <= old(self).bytes().len()
                    && end_or_next(start as int, end) - start <= 8 && v == le_value(
                    old(self).bytes().subrange(start as int, end_or_next(start as int, end)),
                ),
                Err(err) => if !(start <= end_or_next(start as int, end) <= old(self).bytes().len()) {
                    err == ScriptError::OutOfRange
                } else {
                    err == ScriptError::Width && (end_or_next(start as int, end) == start
                        || end_or_next(start as int, end) - start > 8)
                },
            },
            final(self).has_failed() == (old(self).has_failed() || r is Err),
    {
        let e = self.number_range(start, end)?;
        let mut acc: u64 = 0;
        let mut i: usize = e;
        while i > start
            invariant
                start <= i <= e <= self.data@.len(),
                e - start <= 8,
                acc == le_value(self.data@.subrange(i as int, e as int)),
                acc < radix_pow((e - i) as nat),
            decreases i - start,
        {
            let ghost k = (e - i) as nat;
            proof {
                lemma_radix_pow_grows(k);
                lemma_radix_pow_mono(k + 1, 8);
                lemma_radix_pow_eight();
                let b = self.data@.subrange(i - 1, e as int);
                assert(b.subrange(1, b.len() as int) == self.data@.subrange(i as int, e as int));
                assert(b[0] == self.data@[i - 1]);
                assert(acc * 256 + 255 < radix_pow(k + 1)) by (nonlinear_arith)
                    requires acc < radix_pow(k), radix_pow(k + 1) == 256 * radix_pow(k);
            }
            acc = acc * 256 + self.data[i - 1] as u64;
            i = i - 1;
        }
        Ok(acc)
    }

    /// Records a highlight over `start..end` (`end` defaults to one past
    /// `start`) with optional colors, empty text meaning none.
    pub fn register(
        &mut self,
        start: usize,
        end: Option<usize>,
        bg: &str,
        fg: &str,
        label: String,
    ) -> (r: Result<(), ScriptError>)
        requires
            old(self).well_formed(),
        ensures
            final(self).well_formed(),
            final(self).bytes() == old(self).bytes(),
            final(self).has_failed() == (old(self).has_failed() || r is Err),
            r is Ok <==> (color_choice(bg@) is Some && color_choice(fg@) is Some
                && start <= end_or_next(start as int, end) <= old(self).bytes().len()),
            r is Ok ==> final(self).marks() == old(self).marks().push(
                Highlight {
                    start,
                    end: end_or_next(start as int, end) as usize,
                    bg: color_choice(bg@).unwrap(),
                    fg: color_choice(fg@).unwrap(),
                    text: label,
                },
            ),
            r is Err ==> final(self).marks() == old(self).marks(),
            r == Err::<(), ScriptError>(ScriptError::Color) <==> (color_choice(bg@) is None
                || color_choice(fg@) is None),
    {
        let bg_color = if bg.is_empty() {
            None
        } else {
            match parse_color(bg) {
                Some(c) => Some(c),
                None => {
                    self.failed = true;
                    return Err(ScriptError::Color);
                },
            }
        };
        let fg_color = if fg.is_empty() {
            None
        } else {
            match parse_color(fg) {
                Some(c) => Some(c),
                None => {
                    self.failed = true;
                    return Err(ScriptError::Color);
                },
            }
        };
        let e = match end {
            Some(e) if e != 0 => e,
            _ => {
                if start == usize::MAX {
                    let n = self.data.len();
                    self.failed = true;
                    return Err(ScriptError::OutOfRange);
                }
                start + 1
            },
        };
        self.check(start, e)?;
        self.highlights.push(Highlight { start, end: e, bg: bg_color, fg: fg_color, text: label });
        Ok(())
    }

    /// The highlights of the pass: all that were registered when the script
    /// ran to completion and no request was rejected, none otherwise.
    pub fn finish(self, completed: bool) -> (r: Vec<Highlight>)
        requires
            self.well_formed(),
        ensures
            r@ == (if completed && !self.has_failed() { self.marks() } else { seq![] }),
            marks_fit(r@, self.bytes().len() as int),
    {
        if completed && !self.failed {
            self.highlights
        } else {
            Vec::new()
        }
    }
}

} // verus!
